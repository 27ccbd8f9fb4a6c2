//! Trusted declarations for the outside collaborators: the release-map
//! parser, semantic-version parsing, the current date, conventional-commit
//! classification, and line diffing.  Each wrapper only calls the outside
//! function and converts its result to plain values; the contracts state
//! what the collaborators' documentation promises, no more.

use vstd::prelude::*;

verus! {

/// What the release-map parser extracts from raw changelog text: `None`
/// when the text has no parseable release structure or repeats a version,
/// otherwise the releases in document order as `(key, title, notes)`.
pub uninterp spec fn parsed_of(raw: Seq<char>) -> Option<Seq<(Seq<char>, Seq<char>, Seq<char>)>>;

/// The views of a sequence of `(key, title, notes)` string triples.
pub open spec fn triple_views(v: Seq<(String, String, String)>) -> Seq<
    (Seq<char>, Seq<char>, Seq<char>),
> {
    v.map_values(|t: (String, String, String)| (t.0@, t.1@, t.2@))
}

/// Relies on `parse_changelog::Parser::parse`: it returns the releases of
/// the text in document order keyed by bare version string, erring on text
/// with no release or a duplicated version; the keys are the keys of an
/// `IndexMap`, hence pairwise distinct, and the map is checked non-empty
/// before it is returned.
#[verifier::external_body]
pub fn parse_releases(text: &str) -> (r: Option<Vec<(String, String, String)>>)
    ensures
        match r {
            Some(v) => {
                &&& parsed_of(text@) == Some(triple_views(v@))
                &&& v@.len() > 0
                &&& forall|i: int, j: int|
                    0 <= i < j < v@.len() ==> #[trigger] triple_views(v@)[i].0
                        != #[trigger] triple_views(v@)[j].0
            },
            None => parsed_of(text@) is None,
        },
{
    match parse_changelog::Parser::new().parse(text) {
        Ok(map) => Some(
            map.into_iter().map(
                |(k, rel)| (k.to_string(), rel.title.to_string(), rel.notes.to_string()),
            ).collect(),
        ),
        Err(_) => None,
    }
}

/// What semantic-version parsing extracts from a string: the major, minor
/// and patch numbers, or `None` when the string is not a valid semantic
/// version.
pub uninterp spec fn semver_of(s: Seq<char>) -> Option<(u64, u64, u64)>;

/// Relies on `semver::Version::parse`: it accepts exactly the valid
/// semantic-version strings and exposes their numeric components.
#[verifier::external_body]
pub fn parse_semver(s: &str) -> (r: Option<(u64, u64, u64)>)
    ensures
        r == semver_of(s@),
{
    match semver::Version::parse(s) {
        Ok(v) => Some((v.major, v.minor, v.patch)),
        Err(_) => None,
    }
}

/// Relies on chrono's `Local::now` and `format("%Y-%m-%d")` for the current
/// local date.  Nothing is promised of the result: it depends on the clock
/// and the machine's time zone.
#[verifier::external_body]
pub fn today_ymd() -> String {
    chrono::Local::now().format("%Y-%m-%d").to_string()
}

/// What conventional-commit classification extracts from a commit message:
/// the type keyword and the description, or `None` for a message that is
/// not a conventional commit.
pub uninterp spec fn conventional_of(msg: Seq<char>) -> Option<(Seq<char>, Seq<char>)>;

/// Relies on `git_conventional::Commit::parse`: it accepts exactly the
/// well-formed conventional-commit messages and exposes their type and
/// description.
#[verifier::external_body]
pub fn classify_commit(msg: &str) -> (r: Option<(String, String)>)
    ensures
        match r {
            Some(p) => conventional_of(msg@) == Some((p.0@, p.1@)),
            None => conventional_of(msg@) is None,
        },
{
    match git_conventional::Commit::parse(msg) {
        Ok(c) => Some((c.type_().to_string(), c.description().to_string())),
        Err(_) => None,
    }
}

/// The views of a sequence of `(tag, text)` pairs.
pub open spec fn pair_views(v: Seq<(u8, String)>) -> Seq<(u8, Seq<char>)> {
    v.map_values(|t: (u8, String)| (t.0, t.1@))
}

/// What line diffing computes for a pair of texts: the changes in order,
/// each a tag (0 for an equal line, 1 for a deleted one, 2 for an inserted
/// one) with the line text it concerns.
pub uninterp spec fn line_diff_of(old: Seq<char>, new: Seq<char>) -> Seq<(u8, Seq<char>)>;

/// Relies on `similar::TextDiff::from_lines` and `iter_all_changes`: a
/// deterministic line-level diff of the two texts, yielded oldest-first,
/// each change tagged equal, delete or insert.
#[verifier::external_body]
pub fn diff_lines(old: &str, new: &str) -> (r: Vec<(u8, String)>)
    ensures
        pair_views(r@) == line_diff_of(old@, new@),
{
    similar::TextDiff::from_lines(old, new).iter_all_changes().map(
        |c| {
            let t: u8 = match c.tag() {
                similar::ChangeTag::Equal => 0,
                similar::ChangeTag::Delete => 1,
                similar::ChangeTag::Insert => 2,
            };
            (t, c.to_string())
        },
    ).collect()
}

} // verus!
