//! The commit-review pipeline's decisions: which commits are pre-selected,
//! what the editable template contains, how its edited text is read back,
//! and how the surviving entries are replayed into the changelog.  The
//! repository walk, the interactive selector and the editor are the
//! caller's business.

use vstd::prelude::*;
use crate::commands::{add_spec, opt_str_views};
use crate::errors::ChangelogError;
use crate::outside::conventional_of;
use crate::render::remote_views;
use crate::text::{
    chars_to_string, find_first, lines_spec, push_str, split_lines, str_to_vec, trim_of,
    trim_spec, vec_eq_str, views_of,
};

verus! {

/// Whether a commit message is pre-selected for review: conventional
/// commits of type `feat` or `fix` are.
pub open spec fn default_selected(msg: Seq<char>) -> bool {
    match conventional_of(msg) {
        Some(p) => p.0 == "feat"@ || p.0 == "fix"@,
        None => false,
    }
}

/// Computes the pre-selection flags for a list of commit messages.
pub fn review_defaults(msgs: &Vec<String>) -> (r: Vec<bool>)
    ensures
        r@.len() == msgs@.len(),
        forall|i: int| 0 <= i < msgs@.len() ==> r@[i] == default_selected(#[trigger] msgs@[i]@),
{
    let n = msgs.len();
    let mut r: Vec<bool> = Vec::new();
    let mut i: usize = 0;
    while i < n
        invariant
            0 <= i <= n == msgs@.len(),
            r@.len() == i,
            forall|j: int| 0 <= j < i ==> r@[j] == default_selected(#[trigger] msgs@[j]@),
        decreases n - i,
    {
        let sel = match crate::outside::classify_commit(msgs[i].as_str()) {
            Some(p) => {
                let t = str_to_vec(p.0.as_str());
                vec_eq_str(&t, "feat") || vec_eq_str(&t, "fix")
            },
            None => false,
        };
        r.push(sel);
        i += 1;
    }
    r
}

/// The template line for one commit: its change-type keyword (`added` for
/// `feat`, `fixed` for `fix`, `changed` otherwise), its short hash, and
/// its description (the conventional description when there is one, else
/// the whole message line).
pub open spec fn commit_line(id: Seq<char>, msg: Seq<char>) -> Seq<char> {
    match conventional_of(msg) {
        Some(p) => (if p.0 == "feat"@ {
            "added"@
        } else if p.0 == "fix"@ {
            "fixed"@
        } else {
            "changed"@
        }) + " "@ + id + " "@ + p.1 + "\n"@,
        None => "changed"@ + " "@ + id + " "@ + msg + "\n"@,
    }
}

/// The views of a sequence of `(short_hash, message)` pairs.
pub open spec fn commit_views(v: Seq<(String, String)>) -> Seq<(Seq<char>, Seq<char>)> {
    v.map_values(|p: (String, String)| (p.0@, p.1@))
}

/// The concatenated template lines for the first `i` commits.
pub open spec fn commits_text(commits: Seq<(Seq<char>, Seq<char>)>, i: int) -> Seq<char>
    decreases i when 0 <= i <= commits.len()
{
    if i <= 0 {
        Seq::empty()
    } else {
        commits_text(commits, i - 1) + commit_line(commits[i - 1].0, commits[i - 1].1)
    }
}

/// The fixed instructions appended below the commit lines in the editable
/// template.
pub open spec fn template_tail() -> Seq<char> {
    "\n\n# Review commits and add them to the changelog\n# Lines starting with '#' will be ignored\n# Prefix each commit with one of:\n#   added (a), changed (c), deprecated (d), removed (r), fixed (f), security (s)\n# You can also edit the commit message - it will be used as the changelog entry\n#\n# Example:\n# added 1234567 Add new feature\n# changed 89abcde Update existing functionality\n"@
}

/// Builds the editable review template for the selected commits.
pub fn build_review_template(commits: &Vec<(String, String)>) -> (r: String)
    ensures
        r@ == commits_text(commit_views(commits@), commits@.len() as int) + template_tail(),
{
    let ghost cs = commit_views(commits@);
    let n = commits.len();
    let mut out: Vec<char> = Vec::new();
    let mut i: usize = 0;
    while i < n
        invariant
            0 <= i <= n == commits@.len(),
            cs == commit_views(commits@),
            out@ == commits_text(cs, i as int),
        decreases n - i,
    {
        let ghost pre = out@;
        match crate::outside::classify_commit(commits[i].1.as_str()) {
            Some(p) => {
                let t = str_to_vec(p.0.as_str());
                if vec_eq_str(&t, "feat") {
                    push_str(&mut out, "added");
                } else if vec_eq_str(&t, "fix") {
                    push_str(&mut out, "fixed");
                } else {
                    push_str(&mut out, "changed");
                }
                push_str(&mut out, " ");
                push_str(&mut out, commits[i].0.as_str());
                push_str(&mut out, " ");
                push_str(&mut out, p.1.as_str());
                push_str(&mut out, "\n");
            },
            None => {
                push_str(&mut out, "changed");
                push_str(&mut out, " ");
                push_str(&mut out, commits[i].0.as_str());
                push_str(&mut out, " ");
                push_str(&mut out, commits[i].1.as_str());
                push_str(&mut out, "\n");
            },
        }
        proof {
            assert(out@ =~= pre + commit_line(cs[i as int].0, cs[i as int].1));
        }
        i += 1;
    }
    push_str(&mut out, "\n\n# Review commits and add them to the changelog\n# Lines starting with '#' will be ignored\n# Prefix each commit with one of:\n#   added (a), changed (c), deprecated (d), removed (r), fixed (f), security (s)\n# You can also edit the commit message - it will be used as the changelog entry\n#\n# Example:\n# added 1234567 Add new feature\n# changed 89abcde Update existing functionality\n");
    chars_to_string(&out)
}

/// A single-letter alias expanded to its category keyword; any other text
/// passes through unchanged.
pub open spec fn normalize_alias(t: Seq<char>) -> Seq<char> {
    if t == "a"@ {
        "added"@
    } else if t == "c"@ {
        "changed"@
    } else if t == "d"@ {
        "deprecated"@
    } else if t == "r"@ {
        "removed"@
    } else if t == "f"@ {
        "fixed"@
    } else if t == "s"@ {
        "security"@
    } else {
        t
    }
}

/// What one edited line contributes: nothing for blank or `#`-prefixed
/// lines or lines of fewer than three space-separated fields; otherwise
/// the normalized change type and the description (the third field,
/// spaces and all).  The middle field, the short hash, is read and
/// discarded.
pub open spec fn review_entry_of(line: Seq<char>) -> Option<(Seq<char>, Seq<char>)> {
    let t = trim_spec(line);
    if t.len() == 0 || t[0] == '#' {
        None
    } else {
        match find_first(t, " "@) {
            None => None,
            Some(i) => {
                let rest = t.skip(i + 1);
                match find_first(rest, " "@) {
                    None => None,
                    Some(j) => Some((normalize_alias(t.take(i)), rest.skip(j + 1))),
                }
            },
        }
    }
}

/// The entries of the first `i` edited lines, in order.
pub open spec fn review_entries_upto(ls: Seq<Seq<char>>, i: int) -> Seq<(Seq<char>, Seq<char>)>
    decreases i when 0 <= i <= ls.len()
{
    if i <= 0 {
        Seq::empty()
    } else {
        let prev = review_entries_upto(ls, i - 1);
        match review_entry_of(ls[i - 1]) {
            Some(e) => prev.push(e),
            None => prev,
        }
    }
}

/// The `(change type, description)` entries an edited review text yields.
pub open spec fn review_entries_spec(edited: Seq<char>) -> Seq<(Seq<char>, Seq<char>)> {
    review_entries_upto(lines_spec(edited), lines_spec(edited).len() as int)
}

/// Reads the edited review text back into `(change type, description)`
/// entries.
pub fn parse_review_lines(edited: &str) -> (r: Vec<(String, String)>)
    ensures
        commit_views(r@) == review_entries_spec(edited@),
{
    let v = str_to_vec(edited);
    let ls = split_lines(&v);
    let ghost lsv = views_of(ls@);
    let n = ls.len();
    let mut out: Vec<(String, String)> = Vec::new();
    let mut i: usize = 0;
    while i < n
        invariant
            0 <= i <= n == ls@.len(),
            lsv == views_of(ls@),
            commit_views(out@) =~~= review_entries_upto(lsv, i as int),
        decreases n - i,
    {
        let ghost pre = commit_views(out@);
        let t = trim_of(&ls[i]);
        proof {
            reveal_strlit(" ");
            assert(lsv[i as int] == ls@[i as int]@);
            assert(t@ == trim_spec(lsv[i as int]));
        }
        let skip_line = t.len() == 0 || t[0] == '#';
        if !skip_line {
            let space = str_to_vec(" ");
            match crate::text::split_once_at(&t, &space) {
                (first, Some(rest)) => {
                    proof {
                        reveal_strlit(" ");
                        assert(first@ == t@.take(find_first(t@, " "@)->Some_0));
                        assert(rest@ == t@.skip(find_first(t@, " "@)->Some_0 + 1));
                    }
                    match crate::text::split_once_at(&rest, &space) {
                        (_hash, Some(desc)) => {
                            proof {
                                reveal_strlit(" ");
                                assert(desc@ == rest@.skip(find_first(rest@, " "@)->Some_0 + 1));
                                assert(review_entry_of(lsv[i as int]) == Some(
                                    (normalize_alias(first@), desc@),
                                ));
                            }
                            let ty = normalize_alias_exec(&first);
                            let e = (chars_to_string(&ty), chars_to_string(&desc));
                            out.push(e);
                            proof {
                                assert(commit_views(out@) =~~= pre.push(
                                    review_entry_of(lsv[i as int])->Some_0,
                                ));
                            }
                        },
                        (_hash, None) => {},
                    }
                },
                (_first, None) => {},
            }
        }
        proof {
            assert(commit_views(out@) =~~= review_entries_upto(lsv, i + 1));
        }
        i += 1;
    }
    proof {
        assert(commit_views(out@) =~~= review_entries_spec(edited@));
    }
    out
}

/// Expands a single-letter alias.
fn normalize_alias_exec(t: &Vec<char>) -> (r: Vec<char>)
    ensures
        r@ == normalize_alias(t@),
{
    if vec_eq_str(t, "a") {
        str_to_vec("added")
    } else if vec_eq_str(t, "c") {
        str_to_vec("changed")
    } else if vec_eq_str(t, "d") {
        str_to_vec("deprecated")
    } else if vec_eq_str(t, "r") {
        str_to_vec("removed")
    } else if vec_eq_str(t, "f") {
        str_to_vec("fixed")
    } else if vec_eq_str(t, "s") {
        str_to_vec("security")
    } else {
        crate::text::clone_vec(t)
    }
}

/// The file text after replaying the first `i` entries, and the error that
/// stopped the replay, if one did: entries after a failure are not
/// applied, and the text keeps everything applied before it.
pub open spec fn apply_result(
    content: Seq<char>,
    entries: Seq<(Seq<char>, Seq<char>)>,
    version: Option<Seq<char>>,
    remote: Option<(Seq<char>, Seq<char>)>,
    i: int,
) -> (Seq<char>, Option<ChangelogError>)
    decreases i when 0 <= i <= entries.len()
{
    if i <= 0 {
        (content, None)
    } else {
        let prev = apply_result(content, entries, version, remote, i - 1);
        if prev.1 is Some {
            prev
        } else {
            match add_spec(prev.0, entries[i - 1].1, entries[i - 1].0, version, remote) {
                Ok(c) => (c, None),
                Err(e) => (prev.0, Some(e)),
            }
        }
    }
}

/// Replays review entries through the entry inserter, stopping at the
/// first failure; returns the resulting file text and that failure.
pub fn apply_entries(
    changelog: &crate::commands::Changelog,
    content: &str,
    entries: &Vec<(String, String)>,
    version: Option<&str>,
    remote: Option<(&str, &str)>,
) -> (r: (String, Option<ChangelogError>))
    ensures
        (r.0@, r.1) == apply_result(
            content@,
            commit_views(entries@),
            opt_str_views(version),
            remote_views(remote),
            entries@.len() as int,
        ),
{
    let ghost es = commit_views(entries@);
    let n = entries.len();
    let mut cur = {
        let v = str_to_vec(content);
        chars_to_string(&v)
    };
    let mut i: usize = 0;
    while i < n
        invariant
            0 <= i <= n == entries@.len(),
            es == commit_views(entries@),
            (cur@, None::<ChangelogError>) == apply_result(
                content@,
                es,
                opt_str_views(version),
                remote_views(remote),
                i as int,
            ),
        decreases n - i,
    {
        let stepped = changelog.add(
            Some(cur.as_str()),
            entries[i].1.as_str(),
            entries[i].0.as_str(),
            version,
            remote,
        );
        match stepped {
            Ok(c) => {
                cur = c;
            },
            Err(e) => {
                proof {
                    lemma_apply_result_stuck(
                        content@,
                        es,
                        opt_str_views(version),
                        remote_views(remote),
                        i + 1,
                        n as int,
                        (cur@, Some(e)),
                    );
                }
                return (cur, Some(e));
            },
        }
        i += 1;
    }
    (cur, None)
}

/// Once the replay has failed, every later step keeps the same state.
proof fn lemma_apply_result_stuck(
    content: Seq<char>,
    entries: Seq<(Seq<char>, Seq<char>)>,
    version: Option<Seq<char>>,
    remote: Option<(Seq<char>, Seq<char>)>,
    i: int,
    n: int,
    st: (Seq<char>, Option<ChangelogError>),
)
    requires
        0 <= i <= n <= entries.len(),
        st.1 is Some,
        apply_result(content, entries, version, remote, i) == st,
    ensures
        apply_result(content, entries, version, remote, n) == st,
    decreases n - i,
{
    if i < n {
        lemma_apply_result_stuck(content, entries, version, remote, i + 1, n, st);
    }
}

} // verus!
