//! The changelog commands, as pure content transformations: each takes the
//! file's current text (or `None` when the file is missing), computes the new
//! text or the requested answer, and reports failures through
//! `ChangelogError`.  Reading and writing the file is the caller's business.

use vstd::prelude::*;
use crate::document::{
    doc_wf, header_of, key_index, rel_views, Document, DocumentView, Release, ReleaseView,
};
use crate::errors::ChangelogError;
use crate::outside::parsed_of;
use crate::render::{changelog_to_markdown, remote_views, render_spec};
use crate::text::{chars_to_string, str_to_vec};

verus! {

/// The document a successful parse of `orig` yields: the preamble of the
/// raw text, and one release per parsed `(key, title, notes)` triple.
pub open spec fn doc_of_parsed(
    entries: Seq<(Seq<char>, Seq<char>, Seq<char>)>,
    orig: Seq<char>,
) -> DocumentView {
    DocumentView {
        header: header_of(orig),
        releases: entries.map_values(
            |e: (Seq<char>, Seq<char>, Seq<char>)| ReleaseView { key: e.0, title: e.1, notes: e.2 },
        ),
    }
}

/// Parses raw changelog text into the document model.  Fails with
/// `InvalidData` exactly when the release-map parser rejects the text.
pub fn parse_document(content: &str) -> (r: Result<Document, ChangelogError>)
    ensures
        match r {
            Ok(d) => {
                &&& parsed_of(content@) matches Some(entries) && d@ == doc_of_parsed(
                    entries,
                    content@,
                )
                &&& doc_wf(d@)
                &&& d@.releases.len() > 0
            },
            Err(e) => e == ChangelogError::InvalidData && parsed_of(content@) is None,
        },
{
    let parsed = match crate::outside::parse_releases(content) {
        Some(v) => v,
        None => {
            return Err(ChangelogError::InvalidData);
        },
    };
    let header = match crate::document::extract_header(content) {
        Some(h) => str_to_vec(h.as_str()),
        None => {
            proof {
                assert(false);
            }
            Vec::new()
        },
    };
    let ghost entries = crate::outside::triple_views(parsed@);
    let n = parsed.len();
    let mut releases: Vec<Release> = Vec::new();
    let mut i: usize = 0;
    while i < n
        invariant
            0 <= i <= n == parsed@.len(),
            entries == crate::outside::triple_views(parsed@),
            rel_views(releases@) =~~= entries.take(i as int).map_values(
                |e: (Seq<char>, Seq<char>, Seq<char>)| ReleaseView {
                    key: e.0,
                    title: e.1,
                    notes: e.2,
                },
            ),
        decreases n - i,
    {
        let ghost pre = rel_views(releases@);
        let rel = Release {
            key: str_to_vec(parsed[i].0.as_str()),
            title: str_to_vec(parsed[i].1.as_str()),
            notes: str_to_vec(parsed[i].2.as_str()),
        };
        releases.push(rel);
        proof {
            assert(rel_views(releases@) =~~= pre.push(
                ReleaseView {
                    key: entries[i as int].0,
                    title: entries[i as int].1,
                    notes: entries[i as int].2,
                },
            ));
            assert(entries.take(i + 1) =~~= entries.take(i as int).push(entries[i as int]));
        }
        i += 1;
    }
    proof {
        assert(entries.take(n as int) =~~= entries);
    }
    let d = Document { header, releases };
    proof {
        assert(d@ =~~= doc_of_parsed(entries, content@));
        assert(doc_wf(d@)) by {
            assert(forall|a: int, b: int|
                0 <= a < b < entries.len() ==> #[trigger] entries[a].0 != #[trigger] entries[b].0);
            assert(forall|a: int| 0 <= a < d@.releases.len() ==> #[trigger] d@.releases[a].key
                == entries[a].0);
        }
    }
    Ok(d)
}

/// The result views of a string-or-error result.
pub open spec fn res_views(r: Result<String, ChangelogError>) -> Result<Seq<char>, ChangelogError> {
    crate::bump::res_views(r)
}

/// What formatting does to readable file text: parse and re-render against
/// the same text.
pub open spec fn fmt_spec(content: Seq<char>, remote: Option<(Seq<char>, Seq<char>)>) -> Result<
    Seq<char>,
    ChangelogError,
> {
    match parsed_of(content) {
        None => Err(ChangelogError::InvalidData),
        Some(entries) => Ok(render_spec(doc_of_parsed(entries, content), content, remote)),
    }
}

/// The changelog file this tool maintains, by its file name.
pub struct Changelog {
    path: String,
}

impl View for Changelog {
    type V = Seq<char>;

    closed spec fn view(&self) -> Seq<char> {
        self.path@
    }
}

impl Changelog {
    /// A changelog at the conventional file name.
    pub fn new() -> (r: Changelog)
        ensures
            r@ == "CHANGELOG.md"@,
    {
        let mut p: Vec<char> = Vec::new();
        crate::text::push_str(&mut p, "CHANGELOG.md");
        Changelog { path: chars_to_string(&p) }
    }

    /// The file name this changelog lives at.
    pub fn path(&self) -> (r: &String)
        ensures
            r@ == self@,
    {
        &self.path
    }

    /// Formats the changelog text: `NotFound` when the file is missing,
    /// `InvalidData` when it cannot be parsed, else the normalized text.
    pub fn fmt(&self, content: Option<&str>, remote: Option<(&str, &str)>) -> (r: Result<
        String,
        ChangelogError,
    >)
        ensures
            match content {
                None => r == Err::<String, ChangelogError>(ChangelogError::NotFound),
                Some(c) => res_views(r) == fmt_spec(c@, remote_views(remote)),
            },
    {
        let c = match content {
            Some(c) => c,
            None => {
                return Err(ChangelogError::NotFound);
            },
        };
        let doc = match parse_document(c) {
            Ok(d) => d,
            Err(e) => {
                return Err(e);
            },
        };
        Ok(changelog_to_markdown(&doc, c, remote))
    }

    /// The initial changelog content: a `# Changelog` title and one empty
    /// `Unreleased` release, rendered through the normal pipeline.
    pub fn init(&self, remote: Option<(&str, &str)>) -> (r: String)
        ensures
            r@ == init_spec(remote_views(remote)),
    {
        let releases: Vec<Release> = vec![Release::new("Unreleased", "[Unreleased]", "")];
        let header = str_to_vec("# Changelog");
        let doc = Document { header, releases };
        proof {
            reveal_strlit("");
            assert(""@ =~= Seq::<char>::empty());
            assert(doc@.releases =~~= init_doc_releases());
            assert(doc@ =~~= DocumentView {
                header: "# Changelog"@,
                releases: init_doc_releases(),
            });
        }
        changelog_to_markdown(&doc, "# Changelog\n\n", remote)
    }
}

/// The views of an optional string.
pub open spec fn opt_str_views(v: Option<&str>) -> Option<Seq<char>> {
    match v {
        Some(s) => Some(s@),
        None => None,
    }
}

/// What adding an entry does to readable file text: parse, locate the
/// target release (`NotFound` when absent), resolve the category keyword
/// (`InvalidInput` when unrecognized), insert the bullet into that
/// release's notes, and re-render against the same text.
pub open spec fn add_spec(
    content: Seq<char>,
    desc: Seq<char>,
    type_: Seq<char>,
    version: Option<Seq<char>>,
    remote: Option<(Seq<char>, Seq<char>)>,
) -> Result<Seq<char>, ChangelogError> {
    match parsed_of(content) {
        None => Err(ChangelogError::InvalidData),
        Some(entries) => {
            let key = match version {
                Some(v) => v,
                None => "Unreleased"@,
            };
            let d = doc_of_parsed(entries, content);
            match key_index(d.releases, key) {
                None => Err(ChangelogError::NotFound),
                Some(i) => match crate::category::keyword_cat(type_) {
                    None => Err(ChangelogError::InvalidInput),
                    Some(cat) => {
                        let r0 = d.releases[i];
                        let d2 = DocumentView {
                            header: d.header,
                            releases: d.releases.update(
                                i,
                                ReleaseView {
                                    key: r0.key,
                                    title: r0.title,
                                    notes: crate::insert::insert_entry_notes(r0.notes, cat, desc),
                                },
                            ),
                        };
                        Ok(render_spec(d2, content, remote))
                    },
                },
            }
        },
    }
}

impl Changelog {
    /// Adds one categorized entry to a release's notes and returns the
    /// re-rendered file text.
    pub fn add(
        &self,
        content: Option<&str>,
        description: &str,
        type_: &str,
        version: Option<&str>,
        remote: Option<(&str, &str)>,
    ) -> (r: Result<String, ChangelogError>)
        ensures
            match content {
                None => r == Err::<String, ChangelogError>(ChangelogError::NotFound),
                Some(c) => res_views(r) == add_spec(
                    c@,
                    description@,
                    type_@,
                    opt_str_views(version),
                    remote_views(remote),
                ),
            },
    {
        let c = match content {
            Some(c) => c,
            None => {
                return Err(ChangelogError::NotFound);
            },
        };
        let mut doc = match parse_document(c) {
            Ok(d) => d,
            Err(e) => {
                return Err(e);
            },
        };
        let key = match version {
            Some(v) => str_to_vec(v),
            None => str_to_vec("Unreleased"),
        };
        let idx = match doc.find_release(&key) {
            Some(i) => i,
            None => {
                return Err(ChangelogError::NotFound);
            },
        };
        let cat = match crate::category::parse_category(type_) {
            Some(cat) => cat,
            None => {
                return Err(ChangelogError::InvalidInput);
            },
        };
        proof {
            crate::document::lemma_key_index(doc@.releases, key@);
        }
        let new_notes = crate::insert::insert_entry(&doc.releases[idx].notes, cat, description);
        let new_rel = Release {
            key: crate::text::clone_vec(&doc.releases[idx].key),
            title: crate::text::clone_vec(&doc.releases[idx].title),
            notes: new_notes,
        };
        let ghost pre = doc@;
        doc.releases.set(idx, new_rel);
        proof {
            assert(doc@.releases =~~= pre.releases.update(
                idx as int,
                ReleaseView {
                    key: pre.releases[idx as int].key,
                    title: pre.releases[idx as int].title,
                    notes: crate::insert::insert_entry_notes(
                        pre.releases[idx as int].notes,
                        cat,
                        description@,
                    ),
                },
            ));
        }
        Ok(changelog_to_markdown(&doc, c, remote))
    }
}

/// The released version keys of a document, in order: every key but
/// `Unreleased`.
pub open spec fn nu_keys_spec(rs: Seq<ReleaseView>) -> Seq<Seq<char>> {
    crate::document::keys_of(rs).filter(|k: Seq<char>| k != "Unreleased"@)
}

/// Collects the released (non-`Unreleased`) version keys of a document.
pub fn nu_keys_exec(doc: &Document) -> (r: Vec<Vec<char>>)
    ensures
        crate::text::views_of(r@) == nu_keys_spec(doc@.releases),
{
    let ghost ks = crate::document::keys_of(doc@.releases);
    let ghost pred = |k: Seq<char>| k != "Unreleased"@;
    let n = doc.releases.len();
    let mut out: Vec<Vec<char>> = Vec::new();
    proof {
        assert(ks.take(0) =~~= Seq::<Seq<char>>::empty());
        reveal_with_fuel(Seq::filter, 2);
        assert(crate::text::views_of(out@) =~~= ks.take(0).filter(pred));
    }
    let mut i: usize = 0;
    while i < n
        invariant
            0 <= i <= n == doc.releases@.len(),
            ks == crate::document::keys_of(doc@.releases),
            pred == (|k: Seq<char>| k != "Unreleased"@),
            crate::text::views_of(out@) == ks.take(i as int).filter(pred),
        decreases n - i,
    {
        let keep = !crate::text::vec_eq_str(&doc.releases[i].key, "Unreleased");
        proof {
            assert(ks.take(i + 1) =~~= ks.take(i as int).push(ks[i as int]));
            assert(ks.take(i + 1).drop_last() =~~= ks.take(i as int));
            reveal_with_fuel(Seq::filter, 2);
            assert(keep == pred(ks[i as int]));
        }
        if keep {
            let k = crate::text::clone_vec(&doc.releases[i].key);
            out.push(k);
            proof {
                assert(crate::text::views_of(out@) =~~= ks.take(i + 1).filter(pred));
            }
        } else {
            proof {
                assert(crate::text::views_of(out@) =~~= ks.take(i + 1).filter(pred));
            }
        }
        i += 1;
    }
    proof {
        assert(ks.take(n as int) =~~= ks);
    }
    out
}

/// The first whitespace-separated token of a key, or the empty string when
/// there is none.
pub open spec fn tok_or_empty(k: Seq<char>) -> Seq<char> {
    match crate::text::first_token(k) {
        Some(t) => t,
        None => Seq::empty(),
    }
}

/// The notes of the fresh `Unreleased` template a promotion leaves behind:
/// all six category headers, each with an empty body.
pub open spec fn template_notes() -> Seq<char> {
    "### Added\n\n### Changed\n\n### Deprecated\n\n### Removed\n\n### Fixed\n\n### Security"@
}

/// The document after promoting the release at `ui` (the `Unreleased`
/// entry) under `new_title`: a fresh empty `Unreleased` template first, the
/// promoted release second (keyed and titled by `new_title`), then all
/// other releases in their original order.
pub open spec fn promoted_doc(d: DocumentView, ui: int, new_title: Seq<char>) -> DocumentView {
    DocumentView {
        header: d.header,
        releases: seq![
            ReleaseView { key: "Unreleased"@, title: "[Unreleased]"@, notes: template_notes() },
            ReleaseView { key: new_title, title: new_title, notes: d.releases[ui].notes },
        ] + d.releases.remove(ui),
    }
}

/// Promotion ordering: after every promotion the key order is exactly a
/// fresh `Unreleased` first, the just-promoted release second, and all
/// other releases in their original order; the fresh `Unreleased` carries
/// the empty six-section template, and the promoted release keeps the old
/// `Unreleased` notes.
pub proof fn lemma_promotion_order(d: DocumentView, ui: int, new_title: Seq<char>)
    requires
        0 <= ui < d.releases.len(),
    ensures
        ({
            let rs = promoted_doc(d, ui, new_title).releases;
            &&& rs.len() == d.releases.len() + 1
            &&& rs[0].key == "Unreleased"@
            &&& rs[0].notes == template_notes()
            &&& rs[1].key == new_title
            &&& rs[1].title == new_title
            &&& rs[1].notes == d.releases[ui].notes
            &&& crate::document::keys_of(rs).skip(2) =~= crate::document::keys_of(
                d.releases.remove(ui),
            )
        }),
{
    let rs = promoted_doc(d, ui, new_title).releases;
    assert(crate::document::keys_of(rs).skip(2) =~= crate::document::keys_of(
        d.releases.remove(ui),
    )) by {
        assert(forall|j: int| 0 <= j < d.releases.remove(ui).len() ==> rs[j + 2]
            == #[trigger] d.releases.remove(ui)[j]);
    }
}

/// How the version to release is resolved: a bump keyword is applied to the
/// first whitespace token of the most recent released key (`NotFound` with
/// no prior release); anything else must itself be a valid semantic version
/// (`InvalidInput` otherwise).
pub open spec fn release_version_spec(content: Seq<char>, vot: Seq<char>) -> Result<
    Seq<char>,
    ChangelogError,
> {
    if crate::bump::bump_kind_of(vot) is Some {
        match parsed_of(content) {
            None => Err(ChangelogError::InvalidData),
            Some(entries) => {
                let ks = nu_keys_spec(doc_of_parsed(entries, content).releases);
                if ks.len() == 0 {
                    Err(ChangelogError::NotFound)
                } else {
                    match crate::text::first_token(ks[0]) {
                        None => Err(ChangelogError::NotFound),
                        Some(tok) => crate::bump::next_version_spec(tok, vot),
                    }
                }
            },
        }
    } else {
        match crate::outside::semver_of(vot) {
            None => Err(ChangelogError::InvalidInput),
            Some(parts) => Ok(vot),
        }
    }
}

/// What releasing does to readable file text for a given date: resolve the
/// version, remove the `Unreleased` entry (`NotFound` when absent), retitle
/// it `[<version>] - <date>`, re-insert it behind a fresh empty template,
/// and re-render; the resolved version is returned alongside.
pub open spec fn release_spec(
    content: Seq<char>,
    vot: Seq<char>,
    date: Seq<char>,
    remote: Option<(Seq<char>, Seq<char>)>,
) -> Result<(Seq<char>, Seq<char>), ChangelogError> {
    match release_version_spec(content, vot) {
        Err(e) => Err(e),
        Ok(version) => match parsed_of(content) {
            None => Err(ChangelogError::InvalidData),
            Some(entries) => {
                let d = doc_of_parsed(entries, content);
                match key_index(d.releases, "Unreleased"@) {
                    None => Err(ChangelogError::NotFound),
                    Some(ui) => {
                        let new_title = "["@ + version + "] - "@ + date;
                        Ok(
                            (
                                render_spec(promoted_doc(d, ui, new_title), content, remote),
                                version,
                            ),
                        )
                    },
                }
            },
        },
    }
}

/// The result views of a string-pair-or-error result.
pub open spec fn res2_views(r: Result<(String, String), ChangelogError>) -> Result<
    (Seq<char>, Seq<char>),
    ChangelogError,
> {
    match r {
        Ok(p) => Ok((p.0@, p.1@)),
        Err(e) => Err(e),
    }
}

impl Changelog {
    /// Releases a version with an explicit date: the verified heart of the
    /// `release` command.
    #[verifier::rlimit(50)]
    pub fn release_with_date(
        &self,
        content: &str,
        version_or_type: &str,
        date: &str,
        remote: Option<(&str, &str)>,
    ) -> (r: Result<(String, String), ChangelogError>)
        ensures
            res2_views(r) == release_spec(content@, version_or_type@, date@, remote_views(remote)),
    {
        let version: Vec<char>;
        match crate::bump::parse_bump_kind(version_or_type) {
            Some(_) => {
                let doc0 = match parse_document(content) {
                    Ok(d) => d,
                    Err(e) => {
                        return Err(e);
                    },
                };
                let ks = nu_keys_exec(&doc0);
                if ks.len() == 0 {
                    return Err(ChangelogError::NotFound);
                }
                let tok = match crate::text::take_first_token(&ks[0]) {
                    Some(t) => t,
                    None => {
                        return Err(ChangelogError::NotFound);
                    },
                };
                proof {
                    assert(crate::text::views_of(ks@)[0] == ks@[0]@);
                }
                let tok_s = chars_to_string(&tok);
                match crate::bump::get_next_version(tok_s.as_str(), version_or_type) {
                    Ok(v) => {
                        version = str_to_vec(v.as_str());
                    },
                    Err(e) => {
                        return Err(e);
                    },
                }
            },
            None => {
                match crate::outside::parse_semver(version_or_type) {
                    Some(_) => {
                        version = str_to_vec(version_or_type);
                    },
                    None => {
                        return Err(ChangelogError::InvalidInput);
                    },
                }
            },
        }
        let doc = match parse_document(content) {
            Ok(d) => d,
            Err(e) => {
                return Err(e);
            },
        };
        let ukey = str_to_vec("Unreleased");
        let ui = match doc.find_release(&ukey) {
            Some(i) => i,
            None => {
                return Err(ChangelogError::NotFound);
            },
        };
        proof {
            crate::document::lemma_key_index(doc@.releases, "Unreleased"@);
        }
        let mut nt: Vec<char> = Vec::new();
        crate::text::push_str(&mut nt, "[");
        crate::text::push_vec(&mut nt, &version);
        crate::text::push_str(&mut nt, "] - ");
        crate::text::push_str(&mut nt, date);
        proof {
            assert(nt@ =~= "["@ + version@ + "] - "@ + date@);
        }
        let template = Release::new(
            "Unreleased",
            "[Unreleased]",
            "### Added\n\n### Changed\n\n### Deprecated\n\n### Removed\n\n### Fixed\n\n### Security",
        );
        let promoted = Release {
            key: crate::text::clone_vec(&nt),
            title: crate::text::clone_vec(&nt),
            notes: crate::text::clone_vec(&doc.releases[ui].notes),
        };
        let n = doc.releases.len();
        let mut newrels: Vec<Release> = Vec::new();
        newrels.push(template);
        newrels.push(promoted);
        let ghost head2 = seq![
            ReleaseView { key: "Unreleased"@, title: "[Unreleased]"@, notes: template_notes() },
            ReleaseView { key: nt@, title: nt@, notes: doc@.releases[ui as int].notes },
        ];
        proof {
            assert(rel_views(newrels@) =~~= head2);
        }
        let mut k: usize = 0;
        while k < ui
            invariant
                0 <= k <= ui < n == doc.releases@.len(),
                rel_views(newrels@) =~~= head2 + doc@.releases.subrange(0, k as int),
            decreases ui - k,
        {
            let ghost pre = rel_views(newrels@);
            let rel = doc.releases[k].duplicate();
            newrels.push(rel);
            proof {
                assert(rel_views(newrels@) =~~= pre.push(doc@.releases[k as int]));
                assert(doc@.releases.subrange(0, k + 1) =~~= doc@.releases.subrange(
                    0,
                    k as int,
                ).push(doc@.releases[k as int]));
            }
            k += 1;
        }
        let mut k2: usize = ui + 1;
        while k2 < n
            invariant
                ui + 1 <= k2 <= n == doc.releases@.len(),
                rel_views(newrels@) =~~= head2 + doc@.releases.subrange(0, ui as int)
                    + doc@.releases.subrange(ui + 1, k2 as int),
            decreases n - k2,
        {
            let ghost pre = rel_views(newrels@);
            let rel = doc.releases[k2].duplicate();
            newrels.push(rel);
            proof {
                assert(rel_views(newrels@) =~~= pre.push(doc@.releases[k2 as int]));
                assert(doc@.releases.subrange(ui + 1, k2 + 1) =~~= doc@.releases.subrange(
                    ui + 1,
                    k2 as int,
                ).push(doc@.releases[k2 as int]));
            }
            k2 += 1;
        }
        proof {
            assert(doc@.releases.remove(ui as int) =~~= doc@.releases.subrange(0, ui as int)
                + doc@.releases.subrange(ui + 1, n as int));
            assert(rel_views(newrels@) =~~= head2 + doc@.releases.remove(ui as int));
        }
        let newdoc = Document {
            header: crate::text::clone_vec(&doc.header),
            releases: newrels,
        };
        proof {
            assert(newdoc@ =~~= promoted_doc(doc@, ui as int, nt@));
        }
        let out = changelog_to_markdown(&newdoc, content, remote);
        Ok((out, chars_to_string(&version)))
    }

    /// Releases a version: with no explicit date, today's local date is
    /// used.
    pub fn release(
        &self,
        content: Option<&str>,
        version_or_type: &str,
        date: Option<&str>,
        remote: Option<(&str, &str)>,
    ) -> (r: Result<(String, String), ChangelogError>)
        ensures
            match content {
                None => r == Err::<(String, String), ChangelogError>(ChangelogError::NotFound),
                Some(c) => match date {
                    Some(dt) => res2_views(r) == release_spec(
                        c@,
                        version_or_type@,
                        dt@,
                        remote_views(remote),
                    ),
                    None => exists|dt: Seq<char>|
                        res2_views(r) == release_spec(
                            c@,
                            version_or_type@,
                            dt,
                            remote_views(remote),
                        ),
                },
            },
    {
        let c = match content {
            Some(c) => c,
            None => {
                return Err(ChangelogError::NotFound);
            },
        };
        match date {
            Some(d) => self.release_with_date(c, version_or_type, d, remote),
            None => {
                let today = crate::outside::today_ymd();
                let r = self.release_with_date(c, version_or_type, today.as_str(), remote);
                proof {
                    assert(res2_views(r) == release_spec(
                        c@,
                        version_or_type@,
                        today@,
                        remote_views(remote),
                    ));
                }
                r
            },
        }
    }
}

/// What `version latest` answers: the first whitespace token of the most
/// recent released key, `NotFound` when no release has been cut.
pub open spec fn latest_spec(content: Seq<char>) -> Result<Seq<char>, ChangelogError> {
    match parsed_of(content) {
        None => Err(ChangelogError::InvalidData),
        Some(entries) => {
            let ks = nu_keys_spec(doc_of_parsed(entries, content).releases);
            if ks.len() == 0 {
                Err(ChangelogError::NotFound)
            } else {
                Ok(tok_or_empty(ks[0]))
            }
        },
    }
}

/// The printed block for one release: its heading, a blank line, and its
/// trimmed notes.
pub open spec fn entry_block(r: ReleaseView) -> Seq<char> {
    "## "@ + r.title + "\n\n"@ + crate::text::trim_spec(r.notes)
}

/// What `entry` answers for a resolved key.
pub open spec fn show_block_spec(d: DocumentView, key: Seq<char>) -> Result<
    Seq<char>,
    ChangelogError,
> {
    match key_index(d.releases, key) {
        None => Err(ChangelogError::NotFound),
        Some(i) => Ok(entry_block(d.releases[i])),
    }
}

/// What `entry` answers: `latest` resolves to the most recent released
/// key, `unreleased` to `Unreleased` (both case-insensitively), anything
/// else names a key directly.
pub open spec fn show_spec(content: Seq<char>, version: Seq<char>) -> Result<
    Seq<char>,
    ChangelogError,
> {
    match parsed_of(content) {
        None => Err(ChangelogError::InvalidData),
        Some(entries) => {
            let d = doc_of_parsed(entries, content);
            let l = crate::text::lower_spec(version);
            if l == "latest"@ {
                let ks = nu_keys_spec(d.releases);
                if ks.len() == 0 {
                    Err(ChangelogError::NotFound)
                } else {
                    show_block_spec(d, ks[0])
                }
            } else if l == "unreleased"@ {
                show_block_spec(d, "Unreleased"@)
            } else {
                show_block_spec(d, version)
            }
        },
    }
}

/// What `version list` answers: the first whitespace token of every
/// released key, in document order.
pub open spec fn list_spec(content: Seq<char>) -> Result<Seq<Seq<char>>, ChangelogError> {
    match parsed_of(content) {
        None => Err(ChangelogError::InvalidData),
        Some(entries) => Ok(
            nu_keys_spec(doc_of_parsed(entries, content).releases).map_values(
                |k: Seq<char>| tok_or_empty(k),
            ),
        ),
    }
}

/// The first position in `ks` holding exactly `v`, if any.
pub open spec fn seq_first_eq(ks: Seq<Seq<char>>, v: Seq<char>) -> Option<int>
    decreases ks.len(),
{
    if ks.len() == 0 {
        None
    } else if ks[0] == v {
        Some(0)
    } else {
        match seq_first_eq(ks.drop_first(), v) {
            Some(i) => Some(i + 1),
            None => None,
        }
    }
}

/// The converse scan for `seq_first_eq`.
pub proof fn lemma_seq_first_eq_at(ks: Seq<Seq<char>>, v: Seq<char>, i: int)
    requires
        0 <= i <= ks.len(),
        forall|j: int| 0 <= j < i ==> #[trigger] ks[j] != v,
        i < ks.len() ==> ks[i] == v,
    ensures
        i < ks.len() ==> seq_first_eq(ks, v) == Some(i),
        i == ks.len() ==> seq_first_eq(ks, v) is None,
    decreases i + 1,
{
    if ks.len() == 0 {
    } else if i == 0 {
        if ks[0] != v {
            assert(forall|j: int|
                0 <= j < ks.drop_first().len() ==> ks.drop_first()[j] == ks[j + 1]);
            lemma_seq_first_eq_at(ks.drop_first(), v, 0);
        }
    } else {
        assert(ks[0] != v);
        assert(forall|j: int| 0 <= j < ks.drop_first().len() ==> ks.drop_first()[j] == ks[j + 1]);
        lemma_seq_first_eq_at(ks.drop_first(), v, i - 1);
    }
}

/// What `version range` answers: a `v`-prefixed argument is rejected
/// before anything else; then the revision range runs from the version
/// after the given one (or the most recent release, with no argument) up
/// to `v<version>` (or `HEAD`).
pub open spec fn range_spec(content: Option<Seq<char>>, version: Option<Seq<char>>) -> Result<
    Seq<char>,
    ChangelogError,
> {
    if version matches Some(v) && crate::text::starts_with_spec(v, "v"@) {
        Err(ChangelogError::InvalidInput)
    } else {
        match content {
            None => Err(ChangelogError::NotFound),
            Some(c) => match parsed_of(c) {
                None => Err(ChangelogError::InvalidData),
                Some(entries) => {
                    let ks = nu_keys_spec(doc_of_parsed(entries, c).releases);
                    let end = match version {
                        Some(v) => "v"@ + v,
                        None => "HEAD"@,
                    };
                    let start: Option<Seq<char>> = match version {
                        Some(v) => match seq_first_eq(ks, v) {
                            Some(e) => if e + 1 < ks.len() {
                                Some("v"@ + ks[e + 1])
                            } else {
                                None
                            },
                            None => None,
                        },
                        None => if ks.len() > 0 {
                            Some("v"@ + ks[0])
                        } else {
                            None
                        },
                    };
                    Ok(
                        match start {
                            Some(s) => s + ".."@ + end,
                            None => end,
                        },
                    )
                },
            },
        }
    }
}

/// The end and optional start of the revision range, separately: what the
/// review pipeline walks.  Unlike `range`, no `v`-prefix validation is
/// applied, as the original review flow applies none.
pub open spec fn range_parts_spec(content: Seq<char>, version: Option<Seq<char>>) -> Result<
    (Seq<char>, Option<Seq<char>>),
    ChangelogError,
> {
    match parsed_of(content) {
        None => Err(ChangelogError::InvalidData),
        Some(entries) => {
            let ks = nu_keys_spec(doc_of_parsed(entries, content).releases);
            let end = match version {
                Some(v) => "v"@ + v,
                None => "HEAD"@,
            };
            let start: Option<Seq<char>> = match version {
                Some(v) => match seq_first_eq(ks, v) {
                    Some(e) => if e + 1 < ks.len() {
                        Some("v"@ + ks[e + 1])
                    } else {
                        None
                    },
                    None => None,
                },
                None => if ks.len() > 0 {
                    Some("v"@ + ks[0])
                } else {
                    None
                },
            };
            Ok((end, start))
        },
    }
}

/// The views of an optional text content.
pub open spec fn opt_content_views(v: Option<&str>) -> Option<Seq<char>> {
    opt_str_views(v)
}

impl Changelog {
    /// The most recent released version.
    pub fn version_latest(&self, content: Option<&str>) -> (r: Result<String, ChangelogError>)
        ensures
            match content {
                None => r == Err::<String, ChangelogError>(ChangelogError::NotFound),
                Some(c) => res_views(r) == latest_spec(c@),
            },
    {
        let c = match content {
            Some(c) => c,
            None => {
                return Err(ChangelogError::NotFound);
            },
        };
        let doc = match parse_document(c) {
            Ok(d) => d,
            Err(e) => {
                return Err(e);
            },
        };
        let ks = nu_keys_exec(&doc);
        if ks.len() == 0 {
            return Err(ChangelogError::NotFound);
        }
        proof {
            assert(crate::text::views_of(ks@)[0] == ks@[0]@);
        }
        match crate::text::take_first_token(&ks[0]) {
            Some(t) => Ok(chars_to_string(&t)),
            None => {
                let e: Vec<char> = Vec::new();
                proof {
                    assert(e@ =~= Seq::<char>::empty());
                }
                Ok(chars_to_string(&e))
            },
        }
    }

    /// The printed block for one release, resolved from a version
    /// argument.
    pub fn version_show(&self, content: Option<&str>, version: &str) -> (r: Result<
        String,
        ChangelogError,
    >)
        ensures
            match content {
                None => r == Err::<String, ChangelogError>(ChangelogError::NotFound),
                Some(c) => res_views(r) == show_spec(c@, version@),
            },
    {
        let c = match content {
            Some(c) => c,
            None => {
                return Err(ChangelogError::NotFound);
            },
        };
        let doc = match parse_document(c) {
            Ok(d) => d,
            Err(e) => {
                return Err(e);
            },
        };
        let vv = str_to_vec(version);
        let l = crate::text::to_lower(&vv);
        let key: Vec<char>;
        if crate::text::vec_eq_str(&l, "latest") {
            let ks = nu_keys_exec(&doc);
            if ks.len() == 0 {
                return Err(ChangelogError::NotFound);
            }
            proof {
                assert(crate::text::views_of(ks@)[0] == ks@[0]@);
            }
            key = crate::text::clone_vec(&ks[0]);
        } else if crate::text::vec_eq_str(&l, "unreleased") {
            key = str_to_vec("Unreleased");
        } else {
            key = vv;
        }
        let i = match doc.find_release(&key) {
            Some(i) => i,
            None => {
                return Err(ChangelogError::NotFound);
            },
        };
        proof {
            crate::document::lemma_key_index(doc@.releases, key@);
        }
        let mut out: Vec<char> = Vec::new();
        crate::text::push_str(&mut out, "## ");
        crate::text::push_vec(&mut out, &doc.releases[i].title);
        crate::text::push_str(&mut out, "\n\n");
        let trimmed = crate::text::trim_of(&doc.releases[i].notes);
        crate::text::push_vec(&mut out, &trimmed);
        proof {
            assert(out@ =~= entry_block(doc@.releases[i as int]));
        }
        Ok(chars_to_string(&out))
    }

    /// Every released version, in document order.
    pub fn version_list(&self, content: Option<&str>) -> (r: Result<Vec<String>, ChangelogError>)
        ensures
            match content {
                None => r == Err::<Vec<String>, ChangelogError>(ChangelogError::NotFound),
                Some(c) => match r {
                    Ok(vs) => list_spec(c@) == Ok::<Seq<Seq<char>>, ChangelogError>(
                        crate::text::string_views(vs@),
                    ),
                    Err(e) => list_spec(c@) == Err::<Seq<Seq<char>>, ChangelogError>(e),
                },
            },
    {
        let c = match content {
            Some(c) => c,
            None => {
                return Err(ChangelogError::NotFound);
            },
        };
        let doc = match parse_document(c) {
            Ok(d) => d,
            Err(e) => {
                return Err(e);
            },
        };
        let ks = nu_keys_exec(&doc);
        let ghost ksv = crate::text::views_of(ks@);
        let n = ks.len();
        let mut out: Vec<String> = Vec::new();
        let mut i: usize = 0;
        while i < n
            invariant
                0 <= i <= n == ks@.len(),
                ksv == crate::text::views_of(ks@),
                crate::text::string_views(out@) =~~= ksv.take(i as int).map_values(
                    |k: Seq<char>| tok_or_empty(k),
                ),
            decreases n - i,
        {
            let ghost pre = crate::text::string_views(out@);
            let s = match crate::text::take_first_token(&ks[i]) {
                Some(t) => chars_to_string(&t),
                None => {
                    let e: Vec<char> = Vec::new();
                    proof {
                        assert(e@ =~= Seq::<char>::empty());
                    }
                    chars_to_string(&e)
                },
            };
            out.push(s);
            proof {
                assert(crate::text::string_views(out@) =~~= pre.push(tok_or_empty(ksv[i as int])));
                assert(ksv.take(i + 1) =~~= ksv.take(i as int).push(ksv[i as int]));
            }
            i += 1;
        }
        proof {
            assert(ksv.take(n as int) =~~= ksv);
        }
        Ok(out)
    }

    /// The end and optional start of the revision range for a version.
    pub fn range_parts(&self, content: &str, version: Option<&str>) -> (r: Result<
        (String, Option<String>),
        ChangelogError,
    >)
        ensures
            match r {
                Ok(p) => range_parts_spec(content@, opt_str_views(version)) matches Ok(sp)
                    && sp.0 == p.0@ && ((p.1 matches Some(s) && sp.1 == Some(s@)) || (
                p.1 is None && sp.1 is None)),
                Err(e) => range_parts_spec(content@, opt_str_views(version)) == Err::<
                    (Seq<char>, Option<Seq<char>>),
                    ChangelogError,
                >(e),
            },
    {
        let doc = match parse_document(content) {
            Ok(d) => d,
            Err(e) => {
                return Err(e);
            },
        };
        let ks = nu_keys_exec(&doc);
        let ghost ksv = crate::text::views_of(ks@);
        let n = ks.len();
        let mut end: Vec<char> = Vec::new();
        match version {
            Some(v) => {
                crate::text::push_str(&mut end, "v");
                crate::text::push_str(&mut end, v);
            },
            None => {
                crate::text::push_str(&mut end, "HEAD");
            },
        }
        let start: Option<Vec<char>> = match version {
            Some(v) => {
                let vv = str_to_vec(v);
                let mut e: usize = 0;
                while e < n && !crate::text::vec_eq(&ks[e], &vv)
                    invariant
                        0 <= e <= n == ks@.len(),
                        ksv == crate::text::views_of(ks@),
                        vv@ == v@,
                        forall|j: int| 0 <= j < e ==> #[trigger] ksv[j] != vv@,
                    decreases n - e,
                {
                    e += 1;
                }
                proof {
                    lemma_seq_first_eq_at(ksv, vv@, e as int);
                }
                if e < n && e + 1 < n {
                    let mut s: Vec<char> = Vec::new();
                    crate::text::push_str(&mut s, "v");
                    crate::text::push_vec(&mut s, &ks[e + 1]);
                    Some(s)
                } else {
                    None
                }
            },
            None => {
                if n > 0 {
                    proof {
                        assert(ksv[0] == ks@[0]@);
                    }
                    let mut s: Vec<char> = Vec::new();
                    crate::text::push_str(&mut s, "v");
                    crate::text::push_vec(&mut s, &ks[0]);
                    Some(s)
                } else {
                    None
                }
            },
        };
        let end_s = chars_to_string(&end);
        match start {
            Some(s) => Ok((end_s, Some(chars_to_string(&s)))),
            None => Ok((end_s, None)),
        }
    }

    /// The git revision range for a version.
    pub fn range(&self, content: Option<&str>, version: Option<&str>) -> (r: Result<
        String,
        ChangelogError,
    >)
        ensures
            res_views(r) == range_spec(opt_content_views(content), opt_str_views(version)),
    {
        match version {
            Some(v) => {
                let vv = str_to_vec(v);
                let vpfx = str_to_vec("v");
                if crate::text::starts_with(&vv, &vpfx) {
                    return Err(ChangelogError::InvalidInput);
                }
            },
            None => {},
        }
        let c = match content {
            Some(c) => c,
            None => {
                return Err(ChangelogError::NotFound);
            },
        };
        let doc = match parse_document(c) {
            Ok(d) => d,
            Err(e) => {
                return Err(e);
            },
        };
        let ks = nu_keys_exec(&doc);
        let ghost ksv = crate::text::views_of(ks@);
        let n = ks.len();
        let mut out: Vec<char> = Vec::new();
        match version {
            Some(v) => {
                let vv = str_to_vec(v);
                let mut e: usize = 0;
                while e < n && !crate::text::vec_eq(&ks[e], &vv)
                    invariant
                        0 <= e <= n == ks@.len(),
                        ksv == crate::text::views_of(ks@),
                        vv@ == v@,
                        forall|j: int| 0 <= j < e ==> #[trigger] ksv[j] != vv@,
                    decreases n - e,
                {
                    e += 1;
                }
                proof {
                    lemma_seq_first_eq_at(ksv, vv@, e as int);
                }
                if e < n && e + 1 < n {
                    crate::text::push_str(&mut out, "v");
                    crate::text::push_vec(&mut out, &ks[e + 1]);
                    crate::text::push_str(&mut out, "..");
                }
                crate::text::push_str(&mut out, "v");
                crate::text::push_vec(&mut out, &vv);
            },
            None => {
                if n > 0 {
                    proof {
                        assert(ksv[0] == ks@[0]@);
                    }
                    crate::text::push_str(&mut out, "v");
                    crate::text::push_vec(&mut out, &ks[0]);
                    crate::text::push_str(&mut out, "..");
                }
                crate::text::push_str(&mut out, "HEAD");
            },
        }
        proof {
            assert(out@ =~= range_spec(opt_content_views(content), opt_str_views(version))->Ok_0);
        }
        Ok(chars_to_string(&out))
    }
}

/// The diffable block for a key: the release's heading and trimmed notes,
/// or the empty text when the key is absent.
pub open spec fn version_block(d: DocumentView, key: Seq<char>) -> Seq<char> {
    match key_index(d.releases, key) {
        Some(i) => entry_block(d.releases[i]),
        None => Seq::empty(),
    }
}

/// What the diff reporter compares and yields: both texts are parsed
/// independently, the requested release's block (default `Unreleased`) is
/// extracted from each, and the two blocks are diffed line by line.
pub open spec fn show_diff_spec(
    old_content: Seq<char>,
    new_content: Seq<char>,
    version: Option<Seq<char>>,
) -> Result<Seq<(u8, Seq<char>)>, ChangelogError> {
    let key = match version {
        Some(v) => v,
        None => "Unreleased"@,
    };
    match parsed_of(old_content) {
        None => Err(ChangelogError::InvalidData),
        Some(oe) => match parsed_of(new_content) {
            None => Err(ChangelogError::InvalidData),
            Some(ne) => Ok(
                crate::outside::line_diff_of(
                    version_block(doc_of_parsed(oe, old_content), key),
                    version_block(doc_of_parsed(ne, new_content), key),
                ),
            ),
        },
    }
}

/// Builds the diffable block for a key.
fn block_of(doc: &Document, key: &Vec<char>) -> (r: Vec<char>)
    ensures
        r@ == version_block(doc@, key@),
{
    match doc.find_release(key) {
        Some(i) => {
            proof {
                crate::document::lemma_key_index(doc@.releases, key@);
            }
            let mut out: Vec<char> = Vec::new();
            crate::text::push_str(&mut out, "## ");
            crate::text::push_vec(&mut out, &doc.releases[i].title);
            crate::text::push_str(&mut out, "\n\n");
            let trimmed = crate::text::trim_of(&doc.releases[i].notes);
            crate::text::push_vec(&mut out, &trimmed);
            proof {
                assert(out@ =~= entry_block(doc@.releases[i as int]));
            }
            out
        },
        None => Vec::new(),
    }
}

impl Changelog {
    /// Computes the line diff of one release's block between two versions
    /// of the file text.
    pub fn show_diff(&self, version: Option<&str>, old_content: &str, new_content: &str) -> (r:
        Result<Vec<(u8, String)>, ChangelogError>)
        ensures
            match r {
                Ok(v) => show_diff_spec(old_content@, new_content@, opt_str_views(version)) == Ok::<
                    Seq<(u8, Seq<char>)>,
                    ChangelogError,
                >(crate::outside::pair_views(v@)),
                Err(e) => show_diff_spec(old_content@, new_content@, opt_str_views(version))
                    == Err::<Seq<(u8, Seq<char>)>, ChangelogError>(e),
            },
    {
        let old_doc = match parse_document(old_content) {
            Ok(d) => d,
            Err(e) => {
                return Err(e);
            },
        };
        let new_doc = match parse_document(new_content) {
            Ok(d) => d,
            Err(e) => {
                return Err(e);
            },
        };
        let key = match version {
            Some(v) => str_to_vec(v),
            None => str_to_vec("Unreleased"),
        };
        let ob = block_of(&old_doc, &key);
        let nb = block_of(&new_doc, &key);
        let os = chars_to_string(&ob);
        let ns = chars_to_string(&nb);
        Ok(crate::outside::diff_lines(os.as_str(), ns.as_str()))
    }
}

/// The single empty `Unreleased` release the `init` command starts with.
pub open spec fn init_doc_releases() -> Seq<ReleaseView> {
    seq![
        ReleaseView { key: "Unreleased"@, title: "[Unreleased]"@, notes: Seq::<char>::empty() },
    ]
}

/// What `init` writes into a fresh file.
pub open spec fn init_spec(remote: Option<(Seq<char>, Seq<char>)>) -> Seq<char> {
    render_spec(
        DocumentView { header: "# Changelog"@, releases: init_doc_releases() },
        "# Changelog\n\n"@,
        remote,
    )
}

} // verus!
