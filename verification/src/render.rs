//! The Markdown renderer: link-definition removal, title normalization,
//! empty-section pruning, and regeneration of version-compare links.

use vstd::prelude::*;
use crate::text::{
    before_sep, chars_to_string, chop_cr, contains_spec, contains_sub, find_first, join_lines,
    join_nl, lemma_join_concat, lemma_join_raw_id, lemma_raw_concat_nl, lemma_raw_len,
    lemma_raw_no_char, lemma_trim_first_char, lines_spec, split_lines, split_lines_raw,
    split_once_at, starts_with, starts_with_spec, str_to_vec, string_views, trim_start_of,
    trim_start_spec, vecs_contain, views_of,
};

verus! {

/// The version name a footnote-style link-definition line defines: for a
/// line whose start-trimmed text begins with `[` and contains `]: `, the
/// text between the leading `[` and the first `]`; `None` for any other
/// line.
pub open spec fn link_key_of(l: Seq<char>) -> Option<Seq<char>> {
    let t = trim_start_spec(l);
    if starts_with_spec(t, "["@) && contains_spec(t, "]: "@) {
        Some(before_sep(t, "]"@).skip(1))
    } else {
        None
    }
}

/// A line survives link removal unless it defines a link for one of the
/// given versions.
pub open spec fn keep_line(l: Seq<char>, versions: Seq<Seq<char>>) -> bool {
    match link_key_of(l) {
        Some(k) => !versions.contains(k),
        None => true,
    }
}

/// `content` with every link-definition line for one of `versions` removed,
/// the remaining lines rejoined with single newlines.
pub open spec fn remove_links_spec(content: Seq<char>, versions: Seq<Seq<char>>) -> Seq<char> {
    join_nl(lines_spec(content).filter(|l: Seq<char>| keep_line(l, versions)))
}

/// Extracts the version name a link-definition line defines, if any.
fn link_key_exec(l: &Vec<char>) -> (r: Option<Vec<char>>)
    ensures
        match r {
            Some(k) => link_key_of(l@) == Some(k@),
            None => link_key_of(l@) is None,
        },
{
    let t = trim_start_of(l);
    let lb = str_to_vec("[");
    if !starts_with(&t, &lb) {
        return None;
    }
    let marker = str_to_vec("]: ");
    if !contains_sub(&t, &marker) {
        return None;
    }
    let rb = str_to_vec("]");
    let (head, _rest) = split_once_at(&t, &rb);
    proof {
        reveal_strlit("[");
        reveal_strlit("]");
        assert(t@[0] == '[') by {
            assert(t@.subrange(0, 1) == "["@);
            assert(t@.subrange(0, 1)[0] == t@[0]);
        }
        match find_first(t@, "]"@) {
            Some(i) => {
                crate::text::lemma_find_from(t@, "]"@, 0);
                assert(t@[i] == ']') by {
                    assert(t@.subrange(i, i + 1) == "]"@);
                    assert(t@.subrange(i, i + 1)[0] == t@[i]);
                }
                assert(i != 0);
                assert(head@.len() >= 1);
            },
            None => {
                assert(head@ == t@);
            },
        }
    }
    let hn = head.len();
    let mut k: Vec<char> = Vec::new();
    let mut i: usize = 1;
    while i < hn
        invariant
            1 <= i <= hn == head@.len(),
            k@ =~= head@.subrange(1, i as int),
        decreases hn - i,
    {
        k.push(head[i]);
        i += 1;
    }
    proof {
        assert(k@ =~= head@.skip(1));
    }
    Some(k)
}

/// Removes the link-definition lines for the given versions from `content`,
/// keeping every other line; lines are rejoined with single newlines.
pub fn remove_markdown_links(content: &str, versions: &Vec<String>) -> (r: String)
    ensures
        r@ == remove_links_spec(content@, string_views(versions@)),
{
    let v = str_to_vec(content);
    let vers = strings_to_vecs(versions);
    let out = remove_links_vec(&v, &vers);
    chars_to_string(&out)
}

/// The character vectors of a vector of strings.
pub fn strings_to_vecs(vs: &Vec<String>) -> (r: Vec<Vec<char>>)
    ensures
        views_of(r@) == string_views(vs@),
{
    let n = vs.len();
    let mut r: Vec<Vec<char>> = Vec::new();
    let mut i: usize = 0;
    while i < n
        invariant
            0 <= i <= n == vs@.len(),
            views_of(r@) =~= string_views(vs@.take(i as int)),
        decreases n - i,
    {
        let w = str_to_vec(vs[i].as_str());
        r.push(w);
        proof {
            assert(string_views(vs@.take(i + 1)) =~= string_views(vs@.take(i as int)).push(
                vs@[i as int]@,
            ));
        }
        i += 1;
    }
    proof {
        assert(vs@.take(n as int) =~= vs@);
    }
    r
}

/// Link removal on character vectors.
pub fn remove_links_vec(v: &Vec<char>, versions: &Vec<Vec<char>>) -> (r: Vec<char>)
    ensures
        r@ == remove_links_spec(v@, views_of(versions@)),
{
    let ls = split_lines(v);
    let n = ls.len();
    let ghost pred = |l: Seq<char>| keep_line(l, views_of(versions@));
    let mut kept: Vec<Vec<char>> = Vec::new();
    proof {
        assert(views_of(ls@).take(0) =~~= Seq::<Seq<char>>::empty());
        reveal_with_fuel(Seq::filter, 2);
        assert(views_of(kept@) =~~= views_of(ls@).take(0).filter(pred));
    }
    let mut i: usize = 0;
    while i < n
        invariant
            0 <= i <= n == ls@.len(),
            pred == (|l: Seq<char>| keep_line(l, views_of(versions@))),
            views_of(kept@) == views_of(ls@).take(i as int).filter(pred),
        decreases n - i,
    {
        let keep = match link_key_exec(&ls[i]) {
            Some(k) => !vecs_contain(versions, &k),
            None => true,
        };
        proof {
            let vs = views_of(ls@);
            assert(vs.take(i + 1) =~~= vs.take(i as int).push(vs[i as int]));
            assert(vs.take(i + 1).drop_last() =~~= vs.take(i as int));
            reveal_with_fuel(Seq::filter, 2);
            assert(keep == pred(vs[i as int]));
        }
        if keep {
            let line = crate::text::clone_vec(&ls[i]);
            kept.push(line);
            proof {
                assert(views_of(kept@) =~~= views_of(ls@).take(i + 1).filter(pred));
            }
        } else {
            proof {
                assert(views_of(kept@) =~~= views_of(ls@).take(i + 1).filter(pred));
            }
        }
        i += 1;
    }
    proof {
        assert(views_of(ls@).take(n as int) =~~= views_of(ls@));
    }
    join_lines(&kept)
}

/// The first position at or after `i` whose line fails `p` (or the end):
/// the scan loops of the renderer and the inserter, in one definition.
pub open spec fn scan_while(ls: Seq<Seq<char>>, p: spec_fn(Seq<char>) -> bool, i: int) -> int
    decreases ls.len() - i when 0 <= i <= ls.len()
{
    if i < ls.len() && p(ls[i]) {
        scan_while(ls, p, i + 1)
    } else {
        i
    }
}

/// What `scan_while` returns: every line before it satisfies `p`, and the
/// line at it (if any) does not.
pub proof fn lemma_scan_while(ls: Seq<Seq<char>>, p: spec_fn(Seq<char>) -> bool, i: int)
    requires
        0 <= i <= ls.len(),
    ensures
        i <= scan_while(ls, p, i) <= ls.len(),
        forall|m: int| i <= m < scan_while(ls, p, i) ==> p(#[trigger] ls[m]),
        scan_while(ls, p, i) < ls.len() ==> !p(ls[scan_while(ls, p, i)]),
    decreases ls.len() - i,
{
    if i < ls.len() && p(ls[i]) {
        lemma_scan_while(ls, p, i + 1);
    }
}

/// The converse: a scan that saw `p` hold up to `k` and fail at `k` pins
/// `scan_while` to `k`.
pub proof fn lemma_scan_while_at(ls: Seq<Seq<char>>, p: spec_fn(Seq<char>) -> bool, i: int, k: int)
    requires
        0 <= i <= k <= ls.len(),
        forall|m: int| i <= m < k ==> p(#[trigger] ls[m]),
        k < ls.len() ==> !p(ls[k]),
    ensures
        scan_while(ls, p, i) == k,
    decreases k - i,
{
    if i < k {
        lemma_scan_while_at(ls, p, i + 1, k);
    }
}

/// A line that opens a category section: its trimmed text starts `### `.
pub open spec fn is_sec_line(l: Seq<char>) -> bool {
    starts_with_spec(crate::text::trim_spec(l), "### "@)
}

/// A line that carries a level-2 heading: its trimmed text starts `## `.
pub open spec fn is_h2_line(l: Seq<char>) -> bool {
    starts_with_spec(crate::text::trim_spec(l), "## "@)
}

/// A line of only whitespace.
pub open spec fn blank_line(l: Seq<char>) -> bool {
    crate::text::trim_spec(l).len() == 0
}

/// A line that keeps a section alive: neither blank nor comment-like (its
/// trimmed text does not start with `#`).
pub open spec fn content_line(l: Seq<char>) -> bool {
    crate::text::trim_spec(l).len() > 0 && crate::text::trim_spec(l)[0] != '#'
}

/// Decides `is_sec_line`.
fn check_sec_line(l: &Vec<char>) -> (r: bool)
    ensures
        r == is_sec_line(l@),
{
    let t = crate::text::trim_of(l);
    let m = str_to_vec("### ");
    starts_with(&t, &m)
}

/// Decides `is_h2_line`.
fn check_h2_line(l: &Vec<char>) -> (r: bool)
    ensures
        r == is_h2_line(l@),
{
    let t = crate::text::trim_of(l);
    let m = str_to_vec("## ");
    starts_with(&t, &m)
}

/// Decides `blank_line`.
fn check_blank_line(l: &Vec<char>) -> (r: bool)
    ensures
        r == blank_line(l@),
{
    crate::text::is_blank(l)
}

/// Decides `content_line`.
fn check_content_line(l: &Vec<char>) -> (r: bool)
    ensures
        r == content_line(l@),
{
    let t = crate::text::trim_of(l);
    t.len() > 0 && t[0] != '#'
}

/// Notes lines with a leftover level-2 heading removed: the first such line
/// is dropped, together with the run of blank lines right after it.
pub open spec fn strip_title_spec(ls: Seq<Seq<char>>) -> Seq<Seq<char>> {
    let p = scan_while(ls, |l: Seq<char>| !is_h2_line(l), 0);
    if p == ls.len() {
        ls
    } else {
        let ls2 = ls.remove(p);
        let q = scan_while(ls2, |l: Seq<char>| blank_line(l), p);
        ls2.take(p) + ls2.skip(q)
    }
}

/// Removes a leftover level-2 heading line and the blank run after it.
fn strip_title_exec(ls: Vec<Vec<char>>) -> (r: Vec<Vec<char>>)
    ensures
        views_of(r@) == strip_title_spec(views_of(ls@)),
{
    let ghost orig = views_of(ls@);
    let n = ls.len();
    let mut p: usize = 0;
    while p < n && !check_h2_line(&ls[p])
        invariant
            0 <= p <= n == ls@.len(),
            forall|m: int| 0 <= m < p ==> !is_h2_line(#[trigger] views_of(ls@)[m]),
        decreases n - p,
    {
        p += 1;
    }
    proof {
        lemma_scan_while_at(orig, |l: Seq<char>| !is_h2_line(l), 0, p as int);
    }
    if p == n {
        return ls;
    }
    let mut ls2 = ls;
    ls2.remove(p);
    proof {
        assert(views_of(ls2@) =~~= orig.remove(p as int));
    }
    let ghost mid = views_of(ls2@);
    let n2 = ls2.len();
    let mut q: usize = p;
    while q < n2 && check_blank_line(&ls2[q])
        invariant
            p <= q <= n2 == ls2@.len(),
            mid == views_of(ls2@),
            forall|m: int| p <= m < q ==> blank_line(#[trigger] views_of(ls2@)[m]),
        decreases n2 - q,
    {
        q += 1;
    }
    proof {
        lemma_scan_while_at(mid, |l: Seq<char>| blank_line(l), p as int, q as int);
    }
    let mut r: Vec<Vec<char>> = Vec::new();
    let mut i: usize = 0;
    while i < p
        invariant
            0 <= i <= p <= ls2@.len(),
            mid == views_of(ls2@),
            views_of(r@) =~~= mid.subrange(0, i as int),
        decreases p - i,
    {
        let line = crate::text::clone_vec(&ls2[i]);
        r.push(line);
        proof {
            assert(views_of(r@) =~~= mid.subrange(0, i as int).push(mid[i as int]));
            assert(mid.subrange(0, i + 1) =~~= mid.subrange(0, i as int).push(mid[i as int]));
        }
        i += 1;
    }
    let mut j: usize = q;
    while j < n2
        invariant
            q <= j <= n2 == ls2@.len(),
            mid == views_of(ls2@),
            views_of(r@) =~~= mid.subrange(0, p as int) + mid.subrange(q as int, j as int),
        decreases n2 - j,
    {
        let ghost pre = views_of(r@);
        let line = crate::text::clone_vec(&ls2[j]);
        r.push(line);
        proof {
            assert(views_of(r@) =~~= pre.push(mid[j as int]));
            assert(mid.subrange(q as int, j + 1) =~~= mid.subrange(q as int, j as int).push(
                mid[j as int],
            ));
        }
        j += 1;
    }
    proof {
        assert(views_of(r@) =~~= mid.take(p as int) + mid.skip(q as int));
    }
    r
}

/// A section body keeps its heading only if some line in it is content.
pub open spec fn has_content(body: Seq<Seq<char>>) -> bool {
    exists|k: int| 0 <= k < body.len() && content_line(#[trigger] body[k])
}

/// The flattened surviving sections from position `i` on, where `i` is a
/// section heading or the end: each group whose body has content
/// contributes its heading line and body lines.
pub open spec fn group_flat(ls: Seq<Seq<char>>, i: int) -> Seq<Seq<char>>
    decreases ls.len() - i when 0 <= i <= ls.len() via group_flat_decreases
{
    if i >= ls.len() {
        Seq::empty()
    } else {
        let j = scan_while(ls, |l: Seq<char>| !is_sec_line(l), i + 1);
        let body = ls.subrange(i + 1, j);
        let rest = group_flat(ls, j);
        if has_content(body) {
            seq![ls[i]] + body + rest
        } else {
            rest
        }
    }
}

#[via_fn]
proof fn group_flat_decreases(ls: Seq<Seq<char>>, i: int) {
    if 0 <= i < ls.len() {
        lemma_scan_while(ls, |l: Seq<char>| !is_sec_line(l), i + 1);
    }
}

/// The renderer's pruning step: everything before the first section heading
/// is dropped, and empty sections are dropped with their headings.
pub open spec fn prune_sections(ls: Seq<Seq<char>>) -> Seq<Seq<char>> {
    group_flat(ls, scan_while(ls, |l: Seq<char>| !is_sec_line(l), 0))
}

/// Computes `prune_sections`.
fn prune_sections_exec(ls: &Vec<Vec<char>>) -> (r: Vec<Vec<char>>)
    ensures
        views_of(r@) == prune_sections(views_of(ls@)),
{
    let ghost orig = views_of(ls@);
    let n = ls.len();
    let mut i: usize = 0;
    while i < n && !check_sec_line(&ls[i])
        invariant
            0 <= i <= n == ls@.len(),
            forall|m: int| 0 <= m < i ==> !is_sec_line(#[trigger] views_of(ls@)[m]),
        decreases n - i,
    {
        i += 1;
    }
    proof {
        lemma_scan_while_at(orig, |l: Seq<char>| !is_sec_line(l), 0, i as int);
    }
    let mut flat: Vec<Vec<char>> = Vec::new();
    while i < n
        invariant
            0 <= i <= n == ls@.len(),
            orig == views_of(ls@),
            prune_sections(orig) =~~= views_of(flat@) + group_flat(orig, i as int),
        decreases n - i,
    {
        let mut j: usize = i + 1;
        while j < n && !check_sec_line(&ls[j])
            invariant
                i + 1 <= j <= n == ls@.len(),
                orig == views_of(ls@),
                forall|m: int| i + 1 <= m < j ==> !is_sec_line(#[trigger] views_of(ls@)[m]),
            decreases n - j,
        {
            j += 1;
        }
        proof {
            lemma_scan_while_at(orig, |l: Seq<char>| !is_sec_line(l), i + 1, j as int);
        }
        let mut found = false;
        let mut k: usize = i + 1;
        while k < j && !found
            invariant
                i + 1 <= k <= j <= ls@.len(),
                orig == views_of(ls@),
                !found ==> forall|m: int| i + 1 <= m < k ==> !content_line(
                    #[trigger] views_of(ls@)[m],
                ),
                found ==> has_content(orig.subrange(i + 1, j as int)),
            decreases j - k,
        {
            if check_content_line(&ls[k]) {
                proof {
                    assert(content_line(orig.subrange(i + 1, j as int)[k - (i + 1)]));
                }
                found = true;
            }
            k += 1;
        }
        proof {
            assert(group_flat(orig, i as int) == if has_content(orig.subrange(i + 1, j as int)) {
                seq![orig[i as int]] + orig.subrange(i + 1, j as int) + group_flat(orig, j as int)
            } else {
                group_flat(orig, j as int)
            });
        }
        if found {
            let ghost pre = views_of(flat@);
            let hdr = crate::text::clone_vec(&ls[i]);
            flat.push(hdr);
            let mut m: usize = i + 1;
            while m < j
                invariant
                    i + 1 <= m <= j <= ls@.len(),
                    orig == views_of(ls@),
                    views_of(flat@) =~~= pre + seq![orig[i as int]] + orig.subrange(
                        i + 1,
                        m as int,
                    ),
                decreases j - m,
            {
                let ghost fpre = views_of(flat@);
                let line = crate::text::clone_vec(&ls[m]);
                flat.push(line);
                proof {
                    assert(views_of(flat@) =~~= fpre.push(orig[m as int]));
                    assert(orig.subrange(i + 1, m + 1) =~~= orig.subrange(i + 1, m as int).push(
                        orig[m as int],
                    ));
                }
                m += 1;
            }
            proof {
                assert(views_of(flat@) =~~= pre + (seq![orig[i as int]] + orig.subrange(
                    i + 1,
                    j as int,
                )));
                assert(views_of(flat@) + group_flat(orig, j as int) =~~= pre + group_flat(
                    orig,
                    i as int,
                ));
            }
        }
        i = j;
    }
    proof {
        assert(group_flat(orig, n as int) =~~= Seq::<Seq<char>>::empty());
        assert(views_of(flat@) =~~= prune_sections(orig));
    }
    flat
}

/// Every line of `ls` is blank or comment-like from position `i` on, so no
/// group has content and nothing survives.
proof fn lemma_group_flat_empty(ls: Seq<Seq<char>>, i: int)
    requires
        0 <= i <= ls.len(),
        forall|k: int| 0 <= k < ls.len() ==> !content_line(#[trigger] ls[k]),
    ensures
        group_flat(ls, i).len() == 0,
    decreases ls.len() - i,
{
    if i < ls.len() {
        let j = scan_while(ls, |l: Seq<char>| !is_sec_line(l), i + 1);
        lemma_scan_while(ls, |l: Seq<char>| !is_sec_line(l), i + 1);
        let body = ls.subrange(i + 1, j);
        assert(!has_content(body)) by {
            assert(forall|k: int| 0 <= k < body.len() ==> body[k] == ls[i + 1 + k]);
        }
        lemma_group_flat_empty(ls, j);
    }
}

/// Section pruning: notes whose every line is blank or comment-like (each
/// line's trimmed text is empty or starts with `#`, as the empty body of a
/// `### X` heading is) render with no section content at all, the headings
/// included.
pub proof fn lemma_empty_sections_pruned(ls: Seq<Seq<char>>)
    requires
        forall|k: int| 0 <= k < ls.len() ==> !content_line(#[trigger] ls[k]),
    ensures
        prune_sections(ls).len() == 0,
{
    lemma_scan_while(ls, |l: Seq<char>| !is_sec_line(l), 0);
    lemma_group_flat_empty(ls, scan_while(ls, |l: Seq<char>| !is_sec_line(l), 0));
}

/// No line that `lines_spec` yields contains a newline.
proof fn lemma_lines_pieces_nl_free(s: Seq<char>)
    ensures
        forall|k: int, j: int|
            0 <= k < lines_spec(s).len() && 0 <= j < lines_spec(s)[k].len()
                ==> #[trigger] lines_spec(s)[k][j] != '\n',
{
    crate::text::lemma_raw_pieces_nl_free(s);
    crate::text::lemma_raw_len(s);
    let raw = split_lines_raw(s);
    let ll = lines_spec(s);
    assert forall|k: int, j: int|
        0 <= k < ll.len() && 0 <= j < ll[k].len() implies #[trigger] ll[k][j] != '\n' by {
        if k < raw.len() - 1 {
            assert(ll[k] == chop_cr(raw[k]));
            assert(ll[k][j] == raw[k][j]);
        } else {
            assert(ll[k] == raw.last());
        }
    }
}

/// Chopping a trailing carriage return never turns a non-content line into
/// a content line or back: the trim is the same.
proof fn lemma_chop_keeps_content(l: Seq<char>)
    ensures
        content_line(chop_cr(l)) == content_line(l),
{
    if l.len() > 0 && l.last() == '\r' {
        crate::text::lemma_trim_ws_last(l);
    }
}

/// Link removal keeps "every line blank or comment-like".
proof fn lemma_remove_links_lines_all(notes: Seq<char>, vers: Seq<Seq<char>>)
    requires
        forall|k: int|
            0 <= k < lines_spec(notes).len() ==> !content_line(#[trigger] lines_spec(notes)[k]),
    ensures
        forall|k: int|
            0 <= k < lines_spec(remove_links_spec(notes, vers)).len() ==> !content_line(
                #[trigger] lines_spec(remove_links_spec(notes, vers))[k],
            ),
{
    let l0 = lines_spec(notes);
    let pred = |l: Seq<char>| keep_line(l, vers);
    let kept = l0.filter(pred);
    crate::text::lemma_filter_all(l0, pred, |l: Seq<char>| !content_line(l));
    lemma_lines_pieces_nl_free(notes);
    crate::text::lemma_filter_all(
        l0,
        pred,
        |l: Seq<char>| forall|j: int| 0 <= j < l.len() ==> l[j] != '\n',
    );
    let cleaned = join_nl(kept);
    let lc = lines_spec(cleaned);
    if kept.len() == 0 {
        assert(cleaned =~= Seq::<char>::empty());
        assert(split_lines_raw(cleaned) == seq![Seq::<char>::empty()]);
        assert(lc.len() == 0);
    } else {
        assert(forall|k: int, j: int|
            0 <= k < kept.len() && 0 <= j < kept[k].len() ==> #[trigger] kept[k][j] != '\n') by {
            assert(forall|k: int|
                0 <= k < kept.len() ==> (|l: Seq<char>|
                    forall|j: int| 0 <= j < l.len() ==> l[j] != '\n')(#[trigger] kept[k]));
        }
        crate::text::lemma_raw_of_join(kept);
        let raw = split_lines_raw(cleaned);
        assert(raw =~~= kept);
        assert forall|k: int| 0 <= k < lc.len() implies !content_line(#[trigger] lc[k]) by {
            if k < raw.len() - 1 {
                assert(lc[k] == chop_cr(raw[k]));
                lemma_chop_keeps_content(raw[k]);
                assert(!content_line(kept[k]));
            } else {
                assert(lc[k] == raw.last());
                assert(!content_line(kept[kept.len() - 1]));
            }
        }
    }
}

/// Dropping the leftover heading and its blank run keeps "every line blank
/// or comment-like".
proof fn lemma_strip_title_all(ls: Seq<Seq<char>>)
    requires
        forall|k: int| 0 <= k < ls.len() ==> !content_line(#[trigger] ls[k]),
    ensures
        forall|k: int|
            0 <= k < strip_title_spec(ls).len() ==> !content_line(#[trigger] strip_title_spec(ls)[k]),
{
    let p = scan_while(ls, |l: Seq<char>| !is_h2_line(l), 0);
    lemma_scan_while(ls, |l: Seq<char>| !is_h2_line(l), 0);
    if p == ls.len() {
    } else {
        let ls2 = ls.remove(p);
        assert(forall|k: int| 0 <= k < ls2.len() ==> !content_line(#[trigger] ls2[k])) by {
            assert(forall|k: int|
                0 <= k < ls2.len() ==> ls2[k] == (if k < p {
                    ls[k]
                } else {
                    ls[k + 1]
                }));
        }
        let q = scan_while(ls2, |l: Seq<char>| blank_line(l), p);
        lemma_scan_while(ls2, |l: Seq<char>| blank_line(l), p);
        let res = ls2.take(p) + ls2.skip(q);
        assert forall|k: int| 0 <= k < res.len() implies !content_line(#[trigger] res[k]) by {
            if k < p {
                assert(res[k] == ls2[k]);
            } else {
                assert(res[k] == ls2[q + (k - p)]);
            }
        }
    }
}

/// Section pruning at the emission step: a release whose notes lines are
/// all blank or comment-like contributes exactly its normalized heading and
/// the blank line after it, and nothing else.
pub proof fn lemma_render_step_empty(
    r: crate::document::ReleaseView,
    hr: bool,
    out: Seq<char>,
    vers: Seq<Seq<char>>,
)
    requires
        !crate::text::contains_spec(r.notes, "# Changelog"@),
        forall|k: int|
            0 <= k < lines_spec(r.notes).len() ==> !content_line(#[trigger] lines_spec(r.notes)[k]),
    ensures
        render_step(r, hr, out, vers).0 == (if !crate::text::ends_with_spec(out, "\n\n"@) {
            out + "\n"@
        } else {
            out
        }) + "## "@ + normalize_title_spec(r.title, hr) + "\n\n"@,
{
    let cleaned = remove_links_spec(r.notes, vers);
    lemma_remove_links_lines_all(r.notes, vers);
    lemma_strip_title_all(lines_spec(cleaned));
    lemma_empty_sections_pruned(strip_title_spec(lines_spec(cleaned)));
}

/// A title as the renderer emits it.  With a remote, the version token (the
/// text before any ` - ` suffix) is forced into bracketed form, and only
/// the first suffix piece is kept; without a remote, all brackets are
/// stripped from the title.
pub open spec fn normalize_title_spec(title: Seq<char>, has_remote: bool) -> Seq<char> {
    if has_remote {
        let vp = before_sep(title, " - "@);
        let vb = if !starts_with_spec(vp, "["@) {
            "["@ + vp + "]"@
        } else {
            vp
        };
        if contains_spec(title, " - "@) {
            vb + " - "@ + crate::text::second_piece(title, " - "@)
        } else {
            vb
        }
    } else {
        crate::text::strip_brackets_spec(title)
    }
}

/// Computes `normalize_title_spec`.
fn normalize_title(title: &Vec<char>, has_remote: bool) -> (r: Vec<char>)
    ensures
        r@ == normalize_title_spec(title@, has_remote),
{
    if has_remote {
        let sep = str_to_vec(" - ");
        let (vp, rest) = split_once_at(title, &sep);
        let lb = str_to_vec("[");
        let mut vb: Vec<char>;
        if !starts_with(&vp, &lb) {
            vb = Vec::new();
            crate::text::push_str(&mut vb, "[");
            crate::text::push_vec(&mut vb, &vp);
            crate::text::push_str(&mut vb, "]");
            proof {
                assert(vb@ =~= "["@ + vp@ + "]"@);
            }
        } else {
            vb = vp;
        }
        match rest {
            Some(r2) => {
                let (second, _tail) = split_once_at(&r2, &sep);
                crate::text::push_str(&mut vb, " - ");
                crate::text::push_vec(&mut vb, &second);
                proof {
                    assert(vb@ =~= normalize_title_spec(title@, true));
                }
                vb
            },
            None => vb,
        }
    } else {
        crate::text::strip_brackets(title)
    }
}

/// Bracket normalization without a remote: no bracket character survives in
/// a rendered title.
pub proof fn lemma_title_no_remote_bracket_free(title: Seq<char>)
    ensures
        forall|i: int|
            0 <= i < normalize_title_spec(title, false).len() ==> !crate::text::is_bracket_char(
                #[trigger] normalize_title_spec(title, false)[i],
            ),
{
    let pred = |c: char| !crate::text::is_bracket_char(c);
    assert forall|i: int|
        0 <= i < normalize_title_spec(title, false).len() implies !crate::text::is_bracket_char(
        normalize_title_spec(title, false)[i],
    ) by {
        title.lemma_filter_pred(pred, i);
    }
}

/// Bracket normalization with a remote, for a version token that carries no
/// bracket yet: the token is emitted wrapped in exactly one bracket pair,
/// with no bracket inside it.
pub proof fn lemma_title_remote_brackets_added(title: Seq<char>)
    requires
        forall|i: int|
            0 <= i < before_sep(title, " - "@).len() ==> !crate::text::is_bracket_char(
                #[trigger] before_sep(title, " - "@)[i],
            ),
    ensures
        ({
            let vp = before_sep(title, " - "@);
            let tok = "["@ + vp + "]"@;
            &&& starts_with_spec(normalize_title_spec(title, true), tok)
            &&& tok[0] == '['
            &&& tok.last() == ']'
            &&& forall|i: int| 0 < i < tok.len() - 1 ==> !crate::text::is_bracket_char(
                #[trigger] tok[i],
            )
        }),
{
    reveal_strlit("[");
    reveal_strlit("]");
    let vp = before_sep(title, " - "@);
    let tok = "["@ + vp + "]"@;
    assert(!starts_with_spec(vp, "["@)) by {
        if starts_with_spec(vp, "["@) {
            assert(vp.subrange(0, 1) == "["@);
            assert(vp.subrange(0, 1)[0] == vp[0]);
            assert(crate::text::is_bracket_char(vp[0]));
        }
    }
    let nt = normalize_title_spec(title, true);
    assert(tok.len() <= nt.len() && nt.subrange(0, tok.len() as int) =~= tok);
    assert(tok[0] == '[');
    assert(tok.last() == ']');
    assert(forall|i: int| 0 < i < tok.len() - 1 ==> tok[i] == vp[i - 1]);
}

/// Bracket normalization with a remote, for a version token already wrapped
/// in exactly one bracket pair: the token is kept as it stands, so the
/// brackets do not double up.
pub proof fn lemma_title_remote_brackets_kept(title: Seq<char>)
    requires
        before_sep(title, " - "@).len() >= 2,
        before_sep(title, " - "@)[0] == '[',
        before_sep(title, " - "@).last() == ']',
        forall|i: int|
            0 < i < before_sep(title, " - "@).len() - 1 ==> !crate::text::is_bracket_char(
                #[trigger] before_sep(title, " - "@)[i],
            ),
    ensures
        starts_with_spec(normalize_title_spec(title, true), before_sep(title, " - "@)),
        !contains_spec(title, " - "@) ==> normalize_title_spec(title, true) == before_sep(
            title,
            " - "@,
        ),
{
    reveal_strlit("[");
    let vp = before_sep(title, " - "@);
    assert(starts_with_spec(vp, "["@)) by {
        assert(vp.subrange(0, 1) =~= "["@);
    }
    let nt = normalize_title_spec(title, true);
    assert(vp.len() <= nt.len() && nt.subrange(0, vp.len() as int) =~= vp);
}

/// One renderer emission step: what a single release adds to the output
/// accumulated so far and to the list of versions that will get links.  A
/// release whose notes still carry the document title marker is skipped.
pub open spec fn render_step(
    r: crate::document::ReleaseView,
    has_remote: bool,
    out: Seq<char>,
    vers: Seq<Seq<char>>,
) -> (Seq<char>, Seq<Seq<char>>) {
    if crate::text::contains_spec(r.notes, "# Changelog"@) {
        (out, vers)
    } else {
        let cleaned = remove_links_spec(r.notes, vers);
        let ls = strip_title_spec(lines_spec(cleaned));
        let out1 = if !crate::text::ends_with_spec(out, "\n\n"@) {
            out + "\n"@
        } else {
            out
        };
        let out2 = out1 + "## "@ + normalize_title_spec(r.title, has_remote) + "\n\n"@;
        let flat = prune_sections(ls);
        let out3 = if flat.len() > 0 {
            out2 + join_nl(flat) + "\n"@
        } else {
            out2
        };
        let vers2 = match crate::text::first_token(r.title) {
            Some(tok) => vers.push(crate::text::trim_brackets_spec(tok)),
            None => vers,
        };
        (out3, vers2)
    }
}

/// The output and version list after emitting the first `i` releases.
pub open spec fn render_upto(
    rs: Seq<crate::document::ReleaseView>,
    has_remote: bool,
    out0: Seq<char>,
    i: int,
) -> (Seq<char>, Seq<Seq<char>>)
    decreases i when 0 <= i <= rs.len()
{
    if i <= 0 {
        (out0, Seq::empty())
    } else {
        let prev = render_upto(rs, has_remote, out0, i - 1);
        render_step(rs[i - 1], has_remote, prev.0, prev.1)
    }
}

/// A line the renderer discards from the end of the output: its trimmed
/// text starts with `[`, the shape of a link definition.
pub open spec fn is_link_like(l: Seq<char>) -> bool {
    starts_with_spec(crate::text::trim_spec(l), "["@)
}

/// The lines with trailing link-like lines removed.
pub open spec fn drop_trailing_links(ls: Seq<Seq<char>>) -> Seq<Seq<char>>
    decreases ls.len(),
{
    if ls.len() > 0 && is_link_like(ls.last()) {
        drop_trailing_links(ls.drop_last())
    } else {
        ls
    }
}

/// The URL a version's link points to: the oldest listed version links to
/// its release tag; `Unreleased` compares the latest version to `HEAD`;
/// every other version compares to the next older listed version.
pub open spec fn link_url(
    vers: Seq<Seq<char>>,
    i: int,
    owner: Seq<char>,
    repo: Seq<char>,
) -> Seq<char> {
    let base = "https://github.com/"@ + owner + "/"@ + repo;
    if i + 1 >= vers.len() {
        base + "/releases/tag/v"@ + vers[i]
    } else if vers[i] == "Unreleased"@ {
        base + "/compare/v"@ + vers[i + 1] + "...HEAD"@
    } else {
        base + "/compare/v"@ + vers[i + 1] + "...v"@ + vers[i]
    }
}

/// One full link-definition line for the version at position `i`.
pub open spec fn link_line(
    vers: Seq<Seq<char>>,
    i: int,
    owner: Seq<char>,
    repo: Seq<char>,
) -> Seq<char> {
    "["@ + vers[i] + "]: "@ + link_url(vers, i, owner, repo) + "\n"@
}

/// The concatenated link lines for the first `i` versions.
pub open spec fn links_upto(
    vers: Seq<Seq<char>>,
    owner: Seq<char>,
    repo: Seq<char>,
    i: int,
) -> Seq<char>
    decreases i when 0 <= i <= vers.len()
{
    if i <= 0 {
        Seq::empty()
    } else {
        links_upto(vers, owner, repo, i - 1) + link_line(vers, i - 1, owner, repo)
    }
}

/// What the trailing-link pop keeps: a prefix of the lines, and never one
/// that cuts below a known non-link-like line.
proof fn lemma_drop_trailing_take(ls: Seq<Seq<char>>, g: int)
    requires
        0 <= g < ls.len(),
        !is_link_like(ls[g]),
    ensures
        g + 1 <= drop_trailing_links(ls).len() <= ls.len(),
        drop_trailing_links(ls) =~~= ls.take(drop_trailing_links(ls).len() as int),
    decreases ls.len(),
{
    if ls.len() > 0 && is_link_like(ls.last()) {
        assert(g < ls.len() - 1);
        assert(ls.drop_last()[g] == ls[g]);
        lemma_drop_trailing_take(ls.drop_last(), g);
        let m = drop_trailing_links(ls.drop_last()).len() as int;
        assert(ls.drop_last().take(m) =~~= ls.take(m));
    } else {
        assert(ls.take(ls.len() as int) =~~= ls);
    }
}

/// The shape the renderer's accumulator keeps: the initial text is a byte
/// prefix and its pieces survive untouched; the output always ends in a
/// newline; and once some release has been emitted, a line starting `#`
/// stands strictly between the initial pieces and the end, guarding the
/// trailing-link pop.
#[verifier::rlimit(100)]
proof fn lemma_render_upto_shape(
    rs: Seq<crate::document::ReleaseView>,
    hr: bool,
    out0: Seq<char>,
    i: int,
)
    requires
        0 <= i <= rs.len(),
        out0.len() >= 1,
        out0.last() == '\n',
        crate::text::ends_with_spec(out0, "\n\n"@),
    ensures
        ({
            let st = render_upto(rs, hr, out0, i);
            let r0 = crate::text::split_lines_raw(out0);
            let r1 = crate::text::split_lines_raw(st.0);
            &&& st.0.len() >= out0.len()
            &&& st.0.subrange(0, out0.len() as int) == out0
            &&& st.0.len() >= 1 && st.0.last() == '\n'
            &&& r1.len() >= r0.len()
            &&& forall|k: int| 0 <= k < r0.len() - 1 ==> r1[k] == r0[k]
            &&& (exists|j: int|
                0 <= j < i && !crate::text::contains_spec(rs[j].notes, "# Changelog"@)) ==> {
                &&& r1.len() >= r0.len() + 2
                &&& r1[r0.len() - 1].len() >= 3
                &&& r1[r0.len() - 1].subrange(0, 3) == "## "@
            }
            &&& (forall|j: int|
                0 <= j < i ==> crate::text::contains_spec(rs[j].notes, "# Changelog"@)) ==> st.0
                == out0
        }),
    decreases i,
{
    let r0 = split_lines_raw(out0);
    lemma_raw_len(out0);
    if i <= 0 {
        assert(out0.subrange(0, out0.len() as int) =~= out0);
    } else {
        lemma_render_upto_shape(rs, hr, out0, i - 1);
        let prev = render_upto(rs, hr, out0, i - 1);
        let po = prev.0;
        let rp = split_lines_raw(po);
        let st = render_upto(rs, hr, out0, i);
        assert(st == render_step(rs[i - 1], hr, prev.0, prev.1));
        if crate::text::contains_spec(rs[i - 1].notes, "# Changelog"@) {
            assert(st.0 == po);
            if exists|j: int|
                0 <= j < i && !crate::text::contains_spec(rs[j].notes, "# Changelog"@) {
                let j = choose|j: int|
                    0 <= j < i && !crate::text::contains_spec(rs[j].notes, "# Changelog"@);
                assert(j < i - 1 || j == i - 1);
                assert(0 <= j < i - 1);
            }
        } else {
            reveal_strlit("\n");
            reveal_strlit("\n\n");
            reveal_strlit("## ");
            let c = po.take(po.len() - 1);
            assert(po =~= c + seq!['\n'] + Seq::<char>::empty());
            lemma_raw_concat_nl(c, Seq::<char>::empty());
            assert(split_lines_raw(Seq::<char>::empty()) == seq![Seq::<char>::empty()]);
            assert(rp =~~= split_lines_raw(c) + seq![Seq::<char>::empty()]);
            let out1 = if !crate::text::ends_with_spec(po, "\n\n"@) {
                po + "\n"@
            } else {
                po
            };
            assert("\n"@ =~= seq!['\n']);
            assert("\n\n"@ =~= seq!['\n', '\n']);
            let c1 = out1.take(out1.len() - 1);
            let rc1 = split_lines_raw(c1);
            if !crate::text::ends_with_spec(po, "\n\n"@) {
                assert(out1 =~= po + seq!['\n']);
                assert(c1 =~= po);
                assert(rc1 == rp);
            } else {
                assert(out1 == po);
                assert(c1 =~= c);
            }
            assert(out1.last() == '\n');
            assert(rc1.len() >= rp.len() - 1);
            assert(forall|k: int| 0 <= k < rp.len() - 1 ==> rc1[k] == rp[k]);
            // The text this step appends after `out1`.
            let nt = normalize_title_spec(rs[i - 1].title, hr);
            let cleaned = remove_links_spec(rs[i - 1].notes, prev.1);
            let flat = prune_sections(strip_title_spec(lines_spec(cleaned)));
            let sfx: Seq<char> = if flat.len() > 0 {
                join_nl(flat) + "\n"@
            } else {
                Seq::<char>::empty()
            };
            let z0 = "## "@ + nt;
            let zfull = z0 + "\n\n"@ + sfx;
            assert(st.0 =~= out1 + zfull);
            assert(st.0 =~= c1 + seq!['\n'] + zfull);
            lemma_raw_concat_nl(c1, zfull);
            let rz = split_lines_raw(zfull);
            let r1 = split_lines_raw(st.0);
            assert(r1 =~~= rc1 + rz);
            // The appended text opens with a `#` line and holds at least two
            // more pieces after it.
            let w = seq!['\n'] + sfx;
            assert(zfull =~= z0 + seq!['\n'] + w);
            lemma_raw_concat_nl(z0, w);
            assert(w =~= Seq::<char>::empty() + seq!['\n'] + sfx);
            lemma_raw_concat_nl(Seq::<char>::empty(), sfx);
            lemma_raw_len(sfx);
            lemma_raw_len(z0);
            let rz0 = split_lines_raw(z0);
            assert(split_lines_raw(w).len() >= 2);
            assert(rz =~~= rz0 + split_lines_raw(w));
            assert(rz.len() >= 3);
            assert(z0.len() >= 3 && z0[0] == '#' && z0[1] == '#' && z0[2] == ' ') by {
                assert(z0[0] == "## "@[0]);
                assert(z0[1] == "## "@[1]);
                assert(z0[2] == "## "@[2]);
            }
            assert(rz0[0].len() >= 3 && rz0[0].subrange(0, 3) == "## "@) by {
                let d1 = z0.drop_first();
                let d2 = d1.drop_first();
                assert(d1[0] == z0[1] && d1.len() == z0.len() - 1);
                assert(d2[0] == z0[2] && d2.len() == z0.len() - 2);
                let p3 = split_lines_raw(d2.drop_first());
                crate::text::lemma_raw_len(d2.drop_first());
                assert(split_lines_raw(d2)[0] == seq![d2[0]] + p3[0]);
                crate::text::lemma_raw_len(d2);
                assert(split_lines_raw(d1)[0] == seq![d1[0]] + split_lines_raw(d2)[0]);
                crate::text::lemma_raw_len(d1);
                assert(rz0[0] == seq![z0[0]] + split_lines_raw(d1)[0]);
                assert(rz0[0].subrange(0, 3) =~= seq!['#', '#', ' ']);
                assert("## "@ =~= seq!['#', '#', ' ']);
            }
            let g = rc1.len() as int;
            assert(r1[g] == rz[0]);
            assert(rz[0] == rz0[0]) by {
                assert((rz0 + split_lines_raw(w))[0] == rz0[0]);
            }
            assert(r1[g].len() >= 3 && r1[g].subrange(0, 3) == "## "@);
            assert(g < r1.len() - 1) by {
                assert(r1.len() == rc1.len() + rz.len());
            }
            assert(g >= r0.len() - 1) by {
                assert(rc1.len() >= rp.len() - 1);
                assert(rp.len() >= r0.len());
            }
            if forall|j: int|
                0 <= j < i - 1 ==> crate::text::contains_spec(rs[j].notes, "# Changelog"@) {
                // The very first emitted release: the accumulator was still
                // the initial text, which ends in a blank line, so the new
                // piece lands exactly at the initial pieces' end.
                assert(po == out0);
                assert(crate::text::ends_with_spec(po, "\n\n"@)) by {
                    assert(po.subrange(po.len() - 2, po.len() as int) =~= "\n\n"@);
                }
                assert(out1 == po);
                assert(c1 =~= c);
                assert(g == r0.len() - 1) by {
                    assert(rp =~~= split_lines_raw(c) + seq![Seq::<char>::empty()]);
                }
            } else {
                let j0 = choose|j: int|
                    0 <= j < i - 1 && !crate::text::contains_spec(rs[j].notes, "# Changelog"@);
                assert(0 <= j0 < i - 1 && !crate::text::contains_spec(
                    rs[j0].notes,
                    "# Changelog"@,
                ));
                assert(rp.len() >= r0.len() + 2);
                assert(rp[r0.len() - 1].len() >= 3 && rp[r0.len() - 1].subrange(0, 3) == "## "@);
                assert(r1[r0.len() - 1] == rp[r0.len() - 1]) by {
                    assert(r0.len() - 1 < rp.len() - 1);
                    assert(rc1[r0.len() - 1] == rp[r0.len() - 1]);
                    assert(r0.len() - 1 < rc1.len());
                    assert(r1[r0.len() - 1] == rc1[r0.len() - 1]);
                }
            }
            assert(r1.len() >= r0.len() + 2) by {
                assert(r1.len() == rc1.len() + rz.len());
                assert(rc1.len() >= rp.len() - 1);
                assert(rp.len() >= r0.len());
            }
            // Bookkeeping for the other conjuncts.
            assert(st.0.len() >= out0.len());
            assert(st.0.subrange(0, out0.len() as int) =~= out0) by {
                assert(forall|k: int|
                    0 <= k < out0.len() ==> st.0[k] == po[k] && po[k] == out0[k]);
            }
            assert(st.0.last() == '\n') by {
                if flat.len() > 0 {
                    assert(sfx.last() == '\n');
                    assert(zfull.last() == sfx.last());
                } else {
                    assert(zfull =~= z0 + "\n\n"@);
                    assert(zfull.last() == '\n');
                }
                assert(st.0.last() == zfull.last());
            }
            assert(r1.len() >= r0.len());
            assert(forall|k: int| 0 <= k < r0.len() - 1 ==> r1[k] == r0[k]) by {
                assert(forall|k: int| 0 <= k < r0.len() - 1 ==> rc1[k] == rp[k] && rp[k] == r0[k]);
                assert(forall|k: int| 0 <= k < r0.len() - 1 ==> r1[k] == rc1[k]);
            }
        }
    }
}

/// Header preservation: for a document with at least one emitted release
/// and a preamble free of carriage returns, the rendered text begins with
/// exactly the trimmed preamble followed by one blank line.
pub proof fn lemma_render_preserves_header(
    d: crate::document::DocumentView,
    t: Seq<char>,
    remote: Option<(Seq<char>, Seq<char>)>,
)
    requires
        exists|j: int|
            0 <= j < d.releases.len() && !crate::text::contains_spec(
                d.releases[j].notes,
                "# Changelog"@,
            ),
        forall|i: int|
            0 <= i < crate::document::header_of(t).len() ==> crate::document::header_of(t)[i]
                != '\r',
    ensures
        starts_with_spec(
            render_spec(d, t, remote),
            crate::document::header_of(t) + "\n\n"@,
        ),
        starts_with_spec(
            render_spec(d, t, remote),
            crate::document::header_of(t) + "\n\n"@ + "## "@,
        ),
{
    reveal_strlit("## ");
    reveal_strlit("\n");
    reveal_strlit("\n\n");
    reveal_strlit("[");
    let h = crate::document::header_of(t);
    let out0 = h + "\n\n"@;
    assert("\n\n"@ =~= seq!['\n', '\n']);
    assert(out0.last() == '\n');
    assert(crate::text::ends_with_spec(out0, "\n\n"@)) by {
        assert(out0.subrange(out0.len() - 2, out0.len() as int) =~= "\n\n"@);
    }
    lemma_render_upto_shape(d.releases, remote is Some, out0, d.releases.len() as int);
    let st = render_upto(d.releases, remote is Some, out0, d.releases.len() as int);
    let r0 = split_lines_raw(out0);
    let r1 = split_lines_raw(st.0);
    assert(r1.len() >= r0.len() + 2 && r1[r0.len() - 1].len() >= 3 && r1[r0.len() - 1].subrange(
        0,
        3,
    ) == "## "@) by {
        let j0 = choose|j: int|
            0 <= j < d.releases.len() && !crate::text::contains_spec(
                d.releases[j].notes,
                "# Changelog"@,
            );
        assert(0 <= j0 < d.releases.len() && !crate::text::contains_spec(
            d.releases[j0].notes,
            "# Changelog"@,
        ));
    }
    // The initial pieces: the preamble's pieces, then two empty ones.
    assert(out0 =~= h + seq!['\n'] + seq!['\n']);
    lemma_raw_concat_nl(h, seq!['\n']);
    assert(seq!['\n'] =~= Seq::<char>::empty() + seq!['\n'] + Seq::<char>::empty());
    lemma_raw_concat_nl(Seq::<char>::empty(), Seq::<char>::empty());
    assert(split_lines_raw(Seq::<char>::empty()) == seq![Seq::<char>::empty()]);
    assert(split_lines_raw(seq!['\n']) =~~= seq![Seq::<char>::empty(), Seq::<char>::empty()]);
    let rh = split_lines_raw(h);
    lemma_raw_len(h);
    let hl = rh.len() as int;
    assert(r0 =~~= rh + seq![Seq::<char>::empty(), Seq::<char>::empty()]);
    assert(r0.len() == hl + 2);
    // The guard line: the first emitted release's heading.
    let g = r0.len() - 1;
    reveal_strlit("## ");
    assert(r1[g].len() > 0 && r1[g][0] == '#') by {
        assert(r1[g].subrange(0, 3)[0] == r1[g][0]);
        assert(r1[g].subrange(0, 3)[0] == "## "@[0]);
    }
    assert(g < r1.len() - 1);
    // The lines of the accumulated output, and the guard within them.
    let ll = lines_spec(st.0);
    assert(ll.len() >= r1.len() - 1 && forall|k: int|
        0 <= k < r1.len() - 1 ==> ll[k] == chop_cr(r1[k])) by {
        assert(r1.drop_last().map_values(|l: Seq<char>| chop_cr(l)).len() == r1.len() - 1);
        assert(forall|k: int|
            0 <= k < r1.len() - 1 ==> r1.drop_last().map_values(|l: Seq<char>| chop_cr(l))[k]
                == chop_cr(r1[k]));
    }
    assert(ll[g].len() > 0 && ll[g][0] == '#') by {
        assert(ll[g] == chop_cr(r1[g]));
        if r1[g].len() > 1 {
            assert(chop_cr(r1[g])[0] == r1[g][0]);
        } else {
            assert(r1[g].last() == r1[g][0]);
            assert(r1[g][0] != '\r');
        }
    }
    assert(!is_link_like(ll[g])) by {
        lemma_trim_first_char(ll[g]);
        if is_link_like(ll[g]) {
            assert(crate::text::trim_spec(ll[g]).subrange(0, 1) == "["@);
            assert(crate::text::trim_spec(ll[g]).subrange(0, 1)[0] == crate::text::trim_spec(
                ll[g],
            )[0]);
            assert(crate::text::trim_spec(ll[g])[0] == '[');
        }
    }
    lemma_drop_trailing_take(ll, g);
    let m = drop_trailing_links(ll).len() as int;
    assert(m >= g + 1);
    assert(m >= hl + 2);
    // The kept lines open with the preamble's pieces and an empty line.
    assert(forall|k: int| 0 <= k < hl + 1 ==> ll[k] == chop_cr(r0[k])) by {
        assert(forall|k: int| 0 <= k < hl + 1 ==> r1[k] == r0[k]);
    }
    lemma_raw_no_char(h, '\r');
    assert(forall|k: int| 0 <= k < hl ==> chop_cr(#[trigger] r0[k]) == rh[k]) by {
        assert(forall|k: int| 0 <= k < hl ==> r0[k] == rh[k]);
        assert(forall|k: int, j: int|
            0 <= k < hl && 0 <= j < rh[k].len() ==> #[trigger] rh[k][j] != '\r');
        assert(forall|k: int| 0 <= k < hl ==> (rh[k].len() == 0 || rh[k].last() != '\r'));
    }
    assert(ll[hl as int] =~= Seq::<char>::empty()) by {
        assert(r0[hl as int] =~= Seq::<char>::empty());
    }
    let kept = ll.take(m);
    assert(kept =~~= rh + (seq![Seq::<char>::empty()] + ll.subrange(hl + 1, m)));
    let b = seq![Seq::<char>::empty()] + ll.subrange(hl + 1, m);
    lemma_join_concat(rh, b);
    lemma_join_raw_id(h);
    assert(b.len() >= 2);
    assert(join_nl(b) =~= Seq::<char>::empty() + seq!['\n'] + join_nl(b.drop_first())) by {
        assert(b[0] =~= Seq::<char>::empty());
        assert(b.len() >= 2);
    }
    let popped = join_nl(drop_trailing_links(lines_spec(st.0)));
    assert(popped =~= join_nl(kept));
    let bdf = b.drop_first();
    assert(bdf =~~= ll.subrange(hl + 1, m));
    assert(popped =~= h + seq!['\n'] + (seq!['\n'] + join_nl(bdf)));
    assert(bdf[0] == ll[g]) by {
        assert(ll.subrange(hl + 1, m)[0] == ll[hl + 1]);
    }
    assert(ll[g].len() >= 3 && ll[g].subrange(0, 3) == "## "@) by {
        assert(ll[g] == chop_cr(r1[g]));
        if r1[g].len() > 3 {
            assert(chop_cr(r1[g]).subrange(0, 3) =~= r1[g].subrange(0, 3));
        } else {
            assert(r1[g].last() == r1[g].subrange(0, 3)[2]);
            assert(r1[g].subrange(0, 3)[2] == "## "@[2]);
            assert(r1[g].last() != '\r');
        }
    }
    let jb = join_nl(bdf);
    assert(jb.len() >= 3 && jb.subrange(0, 3) == "## "@) by {
        if bdf.len() == 1 {
            assert(jb == bdf[0]);
            assert(jb.subrange(0, 3) == ll[g].subrange(0, 3));
        } else {
            assert(jb =~= bdf[0] + seq!['\n'] + join_nl(bdf.drop_first()));
            assert(jb.subrange(0, 3) =~= bdf[0].subrange(0, 3));
        }
    }
    let pfx = h + "\n\n"@ + "## "@;
    assert(starts_with_spec(popped, pfx)) by {
        assert(forall|j: int| 0 <= j < 3 ==> jb[j] == #[trigger] jb.subrange(0, 3)[j]);
        assert(popped.subrange(0, pfx.len() as int) =~= pfx);
    }
    assert(starts_with_spec(popped, out0)) by {
        assert(popped.subrange(0, out0.len() as int) =~= out0);
    }
    // Appending link definitions and the final newline keeps the prefix.
    let res = render_spec(d, t, remote);
    assert(starts_with_spec(res, out0) && starts_with_spec(res, pfx)) by {
        let with_links = if remote is Some && st.1.len() > 0 {
            let glue: Seq<char> = if crate::text::ends_with_spec(popped, "\n"@) {
                "\n"@
            } else {
                "\n\n"@
            };
            popped + glue + links_upto(st.1, remote->Some_0.0, remote->Some_0.1, st.1.len() as int)
        } else {
            popped
        };
        assert(starts_with_spec(with_links, out0) && starts_with_spec(with_links, pfx)) by {
            assert(with_links.subrange(0, out0.len() as int) =~= out0);
            assert(with_links.subrange(0, pfx.len() as int) =~= pfx);
        }
        assert(res.subrange(0, out0.len() as int) =~= out0);
        assert(res.subrange(0, pfx.len() as int) =~= pfx);
    }
}

/// Rendering is stable over its own output: rendering the same document
/// against the text a render just produced yields that text again.  This
/// is the half of formatting idempotence that the library itself controls;
/// the other half, that re-parsing the output recovers an equivalent
/// document, belongs to the outside release-map parser.  The premises rule
/// out a document that emits no release (its output carries no heading to
/// guard the trailing-link pop) and a preamble holding carriage returns
/// (which a render normalizes away).
pub proof fn lemma_render_render(
    d: crate::document::DocumentView,
    t: Seq<char>,
    remote: Option<(Seq<char>, Seq<char>)>,
)
    requires
        exists|j: int|
            0 <= j < d.releases.len() && !crate::text::contains_spec(
                d.releases[j].notes,
                "# Changelog"@,
            ),
        forall|i: int|
            0 <= i < crate::document::header_of(t).len() ==> crate::document::header_of(t)[i]
                != '\r',
    ensures
        render_spec(d, render_spec(d, t, remote), remote) == render_spec(d, t, remote),
{
    reveal_strlit("\n\n");
    reveal_strlit("## ");
    reveal_strlit("\n## ");
    let h = crate::document::header_of(t);
    let t2 = render_spec(d, t, remote);
    lemma_render_preserves_header(d, t, remote);
    let n = "\n## "@;
    let pfx = h + "\n\n"@ + "## "@;
    assert(t2.subrange(0, pfx.len() as int) == pfx);
    assert(forall|j: int| 0 <= j < pfx.len() ==> t2[j] == #[trigger] pfx[j]) by {
        assert(forall|j: int|
            0 <= j < pfx.len() ==> t2.subrange(0, pfx.len() as int)[j] == t2[j]);
    }
    assert(pfx[h.len() as int] == '\n' && pfx[h.len() as int + 1] == '\n' && pfx[h.len() as int
        + 2] == '#' && pfx[h.len() as int + 3] == '#' && pfx[h.len() as int + 4] == ' ') by {
        assert(pfx[h.len() as int] == (h + "\n\n"@)[h.len() as int]);
        assert((h + "\n\n"@)[h.len() as int] == "\n\n"@[0]);
        assert(pfx[h.len() as int + 1] == (h + "\n\n"@)[h.len() as int + 1]);
        assert((h + "\n\n"@)[h.len() as int + 1] == "\n\n"@[1]);
        assert(pfx[h.len() as int + 2] == "## "@[0]);
        assert(pfx[h.len() as int + 3] == "## "@[1]);
        assert(pfx[h.len() as int + 4] == "## "@[2]);
    }
    assert(t2[h.len() as int] == '\n');
    assert(t2[h.len() as int + 1] == '\n');
    assert(t2[h.len() as int + 2] == '#');
    assert(t2[h.len() as int + 3] == '#');
    assert(t2[h.len() as int + 4] == ' ');
    assert(crate::text::occurs_at(t2, n, h.len() as int + 1)) by {
        assert(t2.subrange(h.len() as int + 1, h.len() as int + 5) =~= n);
    }
    crate::document::lemma_header_no_h2(t);
    assert(forall|m: int| 0 <= m < h.len() ==> #[trigger] pfx[m] == h[m]) by {
        assert(forall|m: int| 0 <= m < h.len() ==> #[trigger] pfx[m] == (h + "\n\n"@)[m]);
        assert(forall|m: int| 0 <= m < h.len() ==> #[trigger] (h + "\n\n"@)[m] == h[m]);
    }
    assert forall|k: int| 0 <= k < h.len() as int + 1 implies !crate::text::occurs_at(t2, n, k) by {
        if crate::text::occurs_at(t2, n, k) {
            if k + 4 <= h.len() {
                assert(forall|j: int| 0 <= j < 4 ==> #[trigger] t2[k + j] == h[k + j]) by {
                    assert(forall|j: int| 0 <= j < 4 ==> #[trigger] pfx[k + j] == h[k + j]);
                    assert(forall|j: int| 0 <= j < 4 ==> #[trigger] t2[k + j] == pfx[k + j]);
                }
                assert(crate::text::occurs_at(h, n, k)) by {
                    assert(t2.subrange(k, k + n.len() as int) == n);
                    assert(forall|j: int|
                        0 <= j < 4 ==> #[trigger] t2.subrange(k, k + n.len() as int)[j] == t2[k
                            + j]);
                    assert(forall|j: int| 0 <= j < 4 ==> #[trigger] n[j] == t2[k + j]);
                    assert(h.subrange(k, k + 4) =~= n);
                }
            } else {
                assert(t2.subrange(k, k + 4) == n);
                assert(forall|j: int|
                    0 <= j < 4 ==> #[trigger] t2.subrange(k, k + 4)[j] == t2[k + j]);
                if k == h.len() as int {
                    assert(t2[k + 1] == n[1]);
                    assert(n[1] == '#');
                } else if k == h.len() as int - 1 {
                    assert(t2[k + 1] == n[1]);
                } else if k == h.len() as int - 2 {
                    assert(t2[k + 2] == n[2]);
                    assert(n[2] == '#');
                } else {
                    assert(k == h.len() as int - 3);
                    assert(t2[k + 3] == n[3]);
                    assert(n[3] == ' ');
                }
            }
        }
    }
    crate::text::lemma_find_first_at(t2, n, h.len() as int + 1);
    assert(crate::document::header_of(t2) == crate::text::trim_end_spec(t2.take(h.len() as int + 1)));
    assert(t2.take(h.len() as int + 1) =~= h + seq!['\n']);
    assert((h + seq!['\n']).last() == '\n' && crate::text::is_ws_char('\n'));
    assert((h + seq!['\n']).drop_last() =~= h);
    assert(crate::text::trim_end_spec(h + seq!['\n']) == crate::text::trim_end_spec(h));
    assert(crate::text::trim_end_spec(h) == h) by {
        match crate::text::find_first(t, n) {
            Some(i) => {
                assert(h == crate::text::trim_end_spec(t.take(i)));
                crate::text::lemma_trim_end_idem(t.take(i));
            },
            None => {
                assert(h == crate::text::trim_end_spec(t));
                crate::text::lemma_trim_end_idem(t);
            },
        }
    }
    assert(crate::document::header_of(t2) == h);
}

/// The views of an optional `(owner, repo)` pair.
pub open spec fn remote_views(rm: Option<(&str, &str)>) -> Option<(Seq<char>, Seq<char>)> {
    match rm {
        Some(p) => Some((p.0@, p.1@)),
        None => None,
    }
}

/// The rendered Markdown for a document: the trimmed preamble of the
/// original text, each emitted release's normalized heading and pruned
/// sections, trailing link-like lines discarded, fresh link definitions
/// appended when a remote is known, and exactly one final newline.
pub open spec fn render_spec(
    d: crate::document::DocumentView,
    orig: Seq<char>,
    remote: Option<(Seq<char>, Seq<char>)>,
) -> Seq<char> {
    let out0 = crate::document::header_of(orig) + "\n\n"@;
    let st = render_upto(d.releases, remote is Some, out0, d.releases.len() as int);
    let popped = join_nl(drop_trailing_links(lines_spec(st.0)));
    let with_links = if remote is Some && st.1.len() > 0 {
        let glue: Seq<char> = if crate::text::ends_with_spec(popped, "\n"@) {
            "\n"@
        } else {
            "\n\n"@
        };
        popped + glue + links_upto(st.1, remote->Some_0.0, remote->Some_0.1, st.1.len() as int)
    } else {
        popped
    };
    if !crate::text::ends_with_spec(with_links, "\n"@) {
        with_links + "\n"@
    } else {
        with_links
    }
}

/// Renders a document against the raw text it was read from.  The preamble
/// comes from `original`; `remote` decides bracketing and link generation.
#[verifier::rlimit(50)]
pub fn changelog_to_markdown(
    changelog: &crate::document::Document,
    original: &str,
    remote: Option<(&str, &str)>,
) -> (r: String)
    ensures
        r@ == render_spec(changelog@, original@, remote_views(remote)),
{
    let ghost rs = changelog@.releases;
    let has_remote = remote.is_some();
    proof {
        assert(has_remote == (remote_views(remote) is Some));
    }
    let header = match crate::document::extract_header(original) {
        Some(h) => h,
        None => {
            proof {
                assert(false);
            }
            String::new()
        },
    };
    let mut out = str_to_vec(header.as_str());
    crate::text::push_str(&mut out, "\n\n");
    let ghost out0 = crate::document::header_of(original@) + "\n\n"@;
    proof {
        assert(out@ =~= out0);
    }
    let mut vers: Vec<Vec<char>> = Vec::new();
    let n = changelog.releases.len();
    let mut i: usize = 0;
    while i < n
        invariant
            0 <= i <= n == changelog.releases@.len(),
            rs == changelog@.releases,
            out0 == crate::document::header_of(original@) + "\n\n"@,
            has_remote == (remote_views(remote) is Some),
            (out@, views_of(vers@)) == render_upto(rs, has_remote, out0, i as int),
        decreases n - i,
    {
        let ghost pre_out = out@;
        let ghost pre_vers = views_of(vers@);
        let marker = str_to_vec("# Changelog");
        let skip = contains_sub(&changelog.releases[i].notes, &marker);
        if !skip {
            let cleaned = remove_links_vec(&changelog.releases[i].notes, &vers);
            let ls0 = split_lines(&cleaned);
            let ls = strip_title_exec(ls0);
            if !crate::text::ends_with_str(&out, "\n\n") {
                crate::text::push_str(&mut out, "\n");
            }
            let ghost out1 = out@;
            crate::text::push_str(&mut out, "## ");
            let nt = normalize_title(&changelog.releases[i].title, has_remote);
            crate::text::push_vec(&mut out, &nt);
            crate::text::push_str(&mut out, "\n\n");
            let ghost out2 = out@;
            proof {
                assert(out2 =~= out1 + "## "@ + normalize_title_spec(
                    rs[i as int].title,
                    has_remote,
                ) + "\n\n"@);
            }
            let flat = prune_sections_exec(&ls);
            if flat.len() > 0 {
                let joined = join_lines(&flat);
                crate::text::push_vec(&mut out, &joined);
                crate::text::push_str(&mut out, "\n");
                proof {
                    assert(out@ =~= out2 + join_nl(prune_sections(strip_title_spec(lines_spec(
                        remove_links_spec(rs[i as int].notes, pre_vers),
                    )))) + "\n"@);
                }
            }
            match crate::text::take_first_token(&changelog.releases[i].title) {
                Some(tok) => {
                    let tb = crate::text::trim_brackets(&tok);
                    vers.push(tb);
                    proof {
                        assert(views_of(vers@) =~~= pre_vers.push(
                            crate::text::trim_brackets_spec(
                                crate::text::first_token(rs[i as int].title)->Some_0,
                            ),
                        ));
                    }
                },
                None => {},
            }
        }
        proof {
            assert(render_upto(rs, has_remote, out0, i + 1) == render_step(
                rs[i as int],
                has_remote,
                pre_out,
                pre_vers,
            ));
            assert((out@, views_of(vers@)) == render_step(rs[i as int], has_remote, pre_out, pre_vers));
        }
        i += 1;
    }
    proof {
        assert((out@, views_of(vers@)) == render_upto(rs, has_remote, out0, rs.len() as int));
    }
    let mut ls = split_lines(&out);
    let ghost full_lines = lines_spec(out@);
    proof {
        assert(drop_trailing_links(full_lines) == drop_trailing_links(views_of(ls@)));
    }
    loop
        invariant
            drop_trailing_links(full_lines) == drop_trailing_links(views_of(ls@)),
        ensures
            views_of(ls@) == drop_trailing_links(full_lines),
        decreases ls.len(),
    {
        let ln = ls.len();
        if ln == 0 {
            proof {
                assert(drop_trailing_links(views_of(ls@)) =~~= views_of(ls@));
            }
            break;
        }
        let t = crate::text::trim_of(&ls[ln - 1]);
        let lb = str_to_vec("[");
        if starts_with(&t, &lb) {
            proof {
                assert(is_link_like(views_of(ls@).last()));
                assert(drop_trailing_links(views_of(ls@)) == drop_trailing_links(
                    views_of(ls@).drop_last(),
                ));
            }
            let ghost prev_views = views_of(ls@);
            ls.pop();
            proof {
                assert(views_of(ls@) =~~= prev_views.drop_last());
            }
        } else {
            proof {
                assert(!is_link_like(views_of(ls@).last()));
                assert(drop_trailing_links(views_of(ls@)) == views_of(ls@));
            }
            break;
        }
    }
    proof {
        assert(views_of(ls@).len() == ls@.len());
    }
    let popped = join_lines(&ls);
    let mut res = popped;
    let ghost popped0 = res@;
    let vn = vers.len();
    if has_remote && vn > 0 {
        let (owner, repo) = match remote {
            Some(p) => p,
            None => {
                proof {
                    assert(false);
                }
                ("", "")
            },
        };
        if crate::text::ends_with_str(&res, "\n") {
            crate::text::push_str(&mut res, "\n");
        } else {
            crate::text::push_str(&mut res, "\n\n");
        }
        let ghost glue_done = res@;
        let ghost vsv = views_of(vers@);
        let mut k: usize = 0;
        while k < vn
            invariant
                0 <= k <= vn == vers@.len(),
                vsv == views_of(vers@),
                res@ == glue_done + links_upto(vsv, owner@, repo@, k as int),
            decreases vn - k,
        {
            let ghost before = res@;
            crate::text::push_str(&mut res, "[");
            crate::text::push_vec(&mut res, &vers[k]);
            crate::text::push_str(&mut res, "]: ");
            crate::text::push_str(&mut res, "https://github.com/");
            crate::text::push_str(&mut res, owner);
            crate::text::push_str(&mut res, "/");
            crate::text::push_str(&mut res, repo);
            if k + 1 >= vn {
                crate::text::push_str(&mut res, "/releases/tag/v");
                crate::text::push_vec(&mut res, &vers[k]);
            } else if crate::text::vec_eq_str(&vers[k], "Unreleased") {
                crate::text::push_str(&mut res, "/compare/v");
                crate::text::push_vec(&mut res, &vers[k + 1]);
                crate::text::push_str(&mut res, "...HEAD");
            } else {
                crate::text::push_str(&mut res, "/compare/v");
                crate::text::push_vec(&mut res, &vers[k + 1]);
                crate::text::push_str(&mut res, "...v");
                crate::text::push_vec(&mut res, &vers[k]);
            }
            crate::text::push_str(&mut res, "\n");
            proof {
                assert(res@ =~= before + link_line(vsv, k as int, owner@, repo@));
                assert(res@ =~= glue_done + links_upto(vsv, owner@, repo@, k + 1));
            }
            k += 1;
        }
    }
    if !crate::text::ends_with_str(&res, "\n") {
        crate::text::push_str(&mut res, "\n");
    }
    proof {
        assert(res@ =~= render_spec(changelog@, original@, remote_views(remote)));
    }
    chars_to_string(&res)
}

} // verus!
