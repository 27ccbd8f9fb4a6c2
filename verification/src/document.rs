//! The changelog document model: an ordered sequence of releases, each with a
//! key, a title and raw notes text, plus the preamble found before the first
//! release heading.

use vstd::prelude::*;
use crate::text::{
    chars_to_string, clone_vec, find_first, find_sub, str_to_vec, trim_end_of, trim_end_spec,
    vec_eq,
};

verus! {

/// One release section: its map key (a bare version string or `Unreleased`),
/// its raw heading text, and its raw notes body.
pub struct Release {
    pub key: Vec<char>,
    pub title: Vec<char>,
    pub notes: Vec<char>,
}

/// The mathematical value of a `Release`.
#[verifier::ext_equal]
pub ghost struct ReleaseView {
    pub key: Seq<char>,
    pub title: Seq<char>,
    pub notes: Seq<char>,
}

impl View for Release {
    type V = ReleaseView;

    open spec fn view(&self) -> ReleaseView {
        ReleaseView { key: self.key@, title: self.title@, notes: self.notes@ }
    }
}

impl Release {
    /// Builds a release from its three text fields.
    pub fn new(key: &str, title: &str, notes: &str) -> (r: Release)
        ensures
            r@.key == key@,
            r@.title == title@,
            r@.notes == notes@,
    {
        Release { key: str_to_vec(key), title: str_to_vec(title), notes: str_to_vec(notes) }
    }

    /// The release's key as a string.
    pub fn key_string(&self) -> (r: String)
        ensures
            r@ == self@.key,
    {
        chars_to_string(&self.key)
    }

    /// The release's title as a string.
    pub fn title_string(&self) -> (r: String)
        ensures
            r@ == self@.title,
    {
        chars_to_string(&self.title)
    }

    /// The release's notes as a string.
    pub fn notes_string(&self) -> (r: String)
        ensures
            r@ == self@.notes,
    {
        chars_to_string(&self.notes)
    }

    /// A copy of the release.
    pub fn duplicate(&self) -> (r: Release)
        ensures
            r@ == self@,
    {
        Release {
            key: clone_vec(&self.key),
            title: clone_vec(&self.title),
            notes: clone_vec(&self.notes),
        }
    }
}

/// The views of a sequence of releases.
pub open spec fn rel_views(rs: Seq<Release>) -> Seq<ReleaseView> {
    rs.map_values(|r: Release| r@)
}

/// The keys of a sequence of release views, in order.
pub open spec fn keys_of(rs: Seq<ReleaseView>) -> Seq<Seq<char>> {
    rs.map_values(|r: ReleaseView| r.key)
}

/// A changelog document: the preamble text and the releases in document
/// order, newest first.
pub struct Document {
    pub header: Vec<char>,
    pub releases: Vec<Release>,
}

/// The mathematical value of a `Document`.
#[verifier::ext_equal]
pub ghost struct DocumentView {
    pub header: Seq<char>,
    pub releases: Seq<ReleaseView>,
}

impl View for Document {
    type V = DocumentView;

    open spec fn view(&self) -> DocumentView {
        DocumentView { header: self.header@, releases: rel_views(self.releases@) }
    }
}

/// The document's one invariant: release keys are pairwise distinct.
pub open spec fn doc_wf(d: DocumentView) -> bool {
    forall|i: int, j: int|
        0 <= i < j < d.releases.len() ==> #[trigger] d.releases[i].key != #[trigger] d.releases[j].key
}

/// The position of the release with the given key, if present: the first
/// position, which under `doc_wf` is the only one.
pub open spec fn key_index(rs: Seq<ReleaseView>, key: Seq<char>) -> Option<int>
    decreases rs.len(),
{
    if rs.len() == 0 {
        None
    } else if rs[0].key == key {
        Some(0)
    } else {
        match key_index(rs.drop_first(), key) {
            Some(i) => Some(i + 1),
            None => None,
        }
    }
}

/// There is a release with the given key.
pub open spec fn has_key(rs: Seq<ReleaseView>, key: Seq<char>) -> bool {
    key_index(rs, key) is Some
}

/// What `key_index` returns: the least matching position, or `None` exactly
/// when no key matches.
pub proof fn lemma_key_index(rs: Seq<ReleaseView>, key: Seq<char>)
    ensures
        match key_index(rs, key) {
            Some(i) => 0 <= i < rs.len() && rs[i].key == key && forall|j: int|
                0 <= j < i ==> #[trigger] rs[j].key != key,
            None => forall|j: int| 0 <= j < rs.len() ==> #[trigger] rs[j].key != key,
        },
    decreases rs.len(),
{
    if rs.len() == 0 {
    } else if rs[0].key == key {
    } else {
        lemma_key_index(rs.drop_first(), key);
        assert(forall|j: int| 0 <= j < rs.drop_first().len() ==> rs.drop_first()[j] == rs[j + 1]);
        match key_index(rs.drop_first(), key) {
            Some(i) => {
                assert(forall|j: int| 1 <= j < i + 1 ==> #[trigger] rs[j].key != key) by {
                    assert(forall|j: int|
                        1 <= j < i + 1 ==> rs[j] == rs.drop_first()[j - 1]);
                }
            },
            None => {
                assert(forall|j: int| 1 <= j < rs.len() ==> #[trigger] rs[j].key != key) by {
                    assert(forall|j: int| 1 <= j < rs.len() ==> rs[j] == rs.drop_first()[j - 1]);
                }
            },
        }
    }
}

/// The converse direction: a scan that saw no match up to `i`, and a match
/// at `i`, pins `key_index` to `Some(i)`; a scan that saw none at all pins
/// it to `None`.
pub proof fn lemma_key_index_at(rs: Seq<ReleaseView>, key: Seq<char>, i: int)
    requires
        0 <= i <= rs.len(),
        forall|j: int| 0 <= j < i ==> #[trigger] rs[j].key != key,
        i < rs.len() ==> rs[i].key == key,
    ensures
        i < rs.len() ==> key_index(rs, key) == Some(i),
        i == rs.len() ==> key_index(rs, key) is None,
    decreases i + 1,
{
    if rs.len() == 0 {
    } else if i == 0 {
        if rs.len() > 0 && rs[0].key != key {
            lemma_key_index_at(rs.drop_first(), key, 0);
            assert(forall|j: int|
                0 <= j < rs.drop_first().len() ==> #[trigger] rs.drop_first()[j].key != key) by {
                assert(forall|j: int|
                    0 <= j < rs.drop_first().len() ==> rs.drop_first()[j] == rs[j + 1]);
            }
        }
    } else {
        assert(rs[0].key != key);
        assert(forall|j: int| 0 <= j < i - 1 ==> #[trigger] rs.drop_first()[j].key != key) by {
            assert(forall|j: int| 0 <= j < rs.drop_first().len() ==> rs.drop_first()[j] == rs[j + 1]);
        }
        assert(i - 1 < rs.drop_first().len() ==> rs.drop_first()[i - 1].key == key);
        lemma_key_index_at(rs.drop_first(), key, i - 1);
    }
}

impl Document {
    /// Finds the position of the release with the given key.
    pub fn find_release(&self, key: &Vec<char>) -> (r: Option<usize>)
        ensures
            match r {
                Some(u) => key_index(self@.releases, key@) == Some(u as int),
                None => key_index(self@.releases, key@) is None,
            },
    {
        let n = self.releases.len();
        let mut i: usize = 0;
        while i < n
            invariant
                0 <= i <= n == self.releases@.len(),
                forall|j: int| 0 <= j < i ==> #[trigger] rel_views(self.releases@)[j].key != key@,
            decreases n - i,
        {
            if vec_eq(&self.releases[i].key, key) {
                proof {
                    lemma_key_index_at(rel_views(self.releases@), key@, i as int);
                }
                return Some(i);
            }
            i += 1;
        }
        proof {
            lemma_key_index_at(rel_views(self.releases@), key@, n as int);
        }
        None
    }

    /// Whether a release with the given key exists.
    pub fn contains_key(&self, key: &Vec<char>) -> (r: bool)
        ensures
            r == has_key(self@.releases, key@),
    {
        match self.find_release(key) {
            Some(_) => true,
            None => false,
        }
    }
}

/// The document preamble of a raw text: everything before the first line
/// that begins a level-2 heading, trimmed of trailing whitespace; the whole
/// trimmed text when no such line exists.
pub open spec fn header_of(t: Seq<char>) -> Seq<char> {
    match find_first(t, "\n## "@) {
        Some(i) => trim_end_spec(t.take(i)),
        None => trim_end_spec(t),
    }
}

/// The extracted preamble never contains a level-2 heading boundary: the
/// cut happens at the first one.
pub proof fn lemma_header_no_h2(t: Seq<char>)
    ensures
        forall|k: int| !crate::text::occurs_at(header_of(t), "\n## "@, k),
{
    reveal_strlit("\n## ");
    let n = "\n## "@;
    let h = header_of(t);
    crate::text::lemma_find_from(t, n, 0);
    let pre = match find_first(t, n) {
        Some(i) => t.take(i),
        None => t,
    };
    assert(forall|k: int| !crate::text::occurs_at(pre, n, k)) by {
        assert forall|k: int| !crate::text::occurs_at(pre, n, k) by {
            if crate::text::occurs_at(pre, n, k) {
                assert(crate::text::occurs_at(t, n, k)) by {
                    assert(pre.subrange(k, k + n.len() as int) =~= t.subrange(
                        k,
                        k + n.len() as int,
                    ));
                }
                match find_first(t, n) {
                    Some(i) => {
                        assert(k + n.len() <= pre.len());
                        assert(k < i);
                    },
                    None => {},
                }
            }
        }
    }
    crate::text::lemma_trim_end_is_prefix(pre);
    assert(h == trim_end_spec(pre));
    assert forall|k: int| !crate::text::occurs_at(h, n, k) by {
        if crate::text::occurs_at(h, n, k) {
            assert(crate::text::occurs_at(pre, n, k)) by {
                assert(h.subrange(k, k + n.len() as int) =~= pre.subrange(k, k + n.len() as int));
            }
        }
    }
}

/// Extracts the document preamble from raw changelog text.
pub fn extract_header(original: &str) -> (r: Option<String>)
    ensures
        r matches Some(h) && h@ == header_of(original@),
{
    let v = str_to_vec(original);
    let sep = str_to_vec("\n## ");
    let prefix = match find_sub(&v, &sep) {
        Some(i) => {
            proof {
                crate::text::lemma_find_from(v@, sep@, 0);
            }
            let mut p: Vec<char> = Vec::new();
            let mut j: usize = 0;
            while j < i
                invariant
                    0 <= j <= i <= v@.len(),
                    p@ =~= v@.subrange(0, j as int),
                decreases i - j,
            {
                p.push(v[j]);
                j += 1;
            }
            proof {
                assert(p@ =~= v@.take(i as int));
            }
            p
        },
        None => v,
    };
    let trimmed = trim_end_of(&prefix);
    Some(chars_to_string(&trimmed))
}

} // verus!
