//! The entry inserter: adds one bullet line to a category section of a
//! release's notes, creating the section when it is missing.

use vstd::prelude::*;
use crate::category::{marker_of, marker_spec, Category};
use crate::render::{blank_line, lemma_scan_while_at, scan_while};
use crate::text::{
    clone_vec, join_lines, join_nl, lines_spec, push_str, split_lines, starts_with,
    starts_with_spec, str_to_vec, trim_of, trim_spec, vec_eq, views_of,
};

verus! {

/// The bullet line for a description, as inserted into an existing section:
/// it carries an embedded newline so that, once the lines are rejoined, the
/// new bullet is followed by a blank line.
pub open spec fn bullet_nl(desc: Seq<char>) -> Seq<char> {
    "- "@ + desc + "\n"@
}

/// The bullet line for a description in a freshly created section.
pub open spec fn bullet_plain(desc: Seq<char>) -> Seq<char> {
    "- "@ + desc
}

/// A line the insertion-point walk steps over: blank, or a bullet (its
/// trimmed text starts with `-`).
pub open spec fn ins_walk_line(l: Seq<char>) -> bool {
    trim_spec(l).len() == 0 || trim_spec(l)[0] == '-'
}

/// Decides whether a line's trimmed text equals `marker`.
fn line_trim_eq(l: &Vec<char>, marker: &Vec<char>) -> (r: bool)
    ensures
        r == (trim_spec(l@) == marker@),
{
    let t = trim_of(l);
    vec_eq(&t, marker)
}

/// Decides `ins_walk_line`.
fn check_ins_walk(l: &Vec<char>) -> (r: bool)
    ensures
        r == ins_walk_line(l@),
{
    let t = trim_of(l);
    t.len() == 0 || t[0] == '-'
}

/// The length of the run of blank lines ending just before `j`, never
/// reaching below `lo`: how many blank lines the inserter collapses.
pub open spec fn blanks_run(ls: Seq<Seq<char>>, j: int, lo: int) -> int
    decreases j - lo when 0 <= lo <= j <= ls.len()
{
    if j > lo && blank_line(ls[j - 1]) {
        1 + blanks_run(ls, j - 1, lo)
    } else {
        0
    }
}

/// The converse scan: `b` blank lines right before `j` and a stop below
/// them pin `blanks_run` to `b`.
pub proof fn lemma_blanks_run_at(ls: Seq<Seq<char>>, j: int, lo: int, b: int)
    requires
        0 <= lo <= j - b,
        0 <= b <= j <= ls.len(),
        forall|m: int| j - b <= m < j ==> blank_line(#[trigger] ls[m]),
        j - b > lo ==> !blank_line(ls[j - b - 1]),
    ensures
        blanks_run(ls, j, lo) == b,
    decreases b,
{
    if b == 0 {
    } else {
        assert(blank_line(ls[j - 1]));
        lemma_blanks_run_at(ls, j - 1, lo, b - 1);
    }
}

/// Entry insertion on a release's notes lines.  With an existing section
/// marker: walk past its bullets and blanks, collapse the blank run right
/// before the insertion point, and insert the bullet (with its embedded
/// newline).  Without one: insert a fresh section of four lines before the
/// first `### ` line.
pub open spec fn insert_entry_lines(
    ls: Seq<Seq<char>>,
    marker: Seq<char>,
    desc: Seq<char>,
) -> Seq<Seq<char>> {
    let si = scan_while(ls, |l: Seq<char>| trim_spec(l) != marker, 0);
    if si < ls.len() {
        let j = scan_while(ls, |l: Seq<char>| ins_walk_line(l), si + 1);
        let b = blanks_run(ls, j, si + 1);
        ls.subrange(0, j - b) + seq![bullet_nl(desc)] + ls.subrange(j, ls.len() as int)
    } else {
        let p = scan_while(ls, |l: Seq<char>| !starts_with_spec(l, "### "@), 0);
        ls.subrange(0, p) + seq![marker, Seq::<char>::empty(), bullet_plain(desc), Seq::<char>::empty()]
            + ls.subrange(p, ls.len() as int)
    }
}

/// Entry insertion on a release's raw notes text.
pub open spec fn insert_entry_notes(notes: Seq<char>, cat: Category, desc: Seq<char>) -> Seq<char> {
    join_nl(insert_entry_lines(lines_spec(notes), marker_spec(cat), desc))
}

/// Inserts one bullet for `desc` under the section for `cat` in `notes`.
pub fn insert_entry(notes: &Vec<char>, cat: Category, desc: &str) -> (r: Vec<char>)
    ensures
        r@ == insert_entry_notes(notes@, cat, desc@),
{
    let ls = split_lines(notes);
    let ghost lsv = views_of(ls@);
    let marker = marker_of(cat);
    let n = ls.len();
    let mut si: usize = 0;
    while si < n && !line_trim_eq(&ls[si], &marker)
        invariant
            0 <= si <= n == ls@.len(),
            marker@ == marker_spec(cat),
            lsv == views_of(ls@),
            forall|m: int| 0 <= m < si ==> trim_spec(#[trigger] lsv[m]) != marker_spec(cat),
        decreases n - si,
    {
        si += 1;
    }
    proof {
        lemma_scan_while_at(lsv, |l: Seq<char>| trim_spec(l) != marker_spec(cat), 0, si as int);
    }
    let mut out: Vec<Vec<char>> = Vec::new();
    if si < n {
        let mut j: usize = si + 1;
        while j < n && check_ins_walk(&ls[j])
            invariant
                si + 1 <= j <= n == ls@.len(),
                lsv == views_of(ls@),
                forall|m: int| si + 1 <= m < j ==> ins_walk_line(#[trigger] lsv[m]),
            decreases n - j,
        {
            j += 1;
        }
        proof {
            lemma_scan_while_at(lsv, |l: Seq<char>| ins_walk_line(l), si + 1, j as int);
        }
        let mut b: usize = 0;
        while j - b > si + 1 && crate::text::is_blank(&ls[j - b - 1])
            invariant
                0 <= b <= j - (si + 1),
                si + 1 <= j <= n == ls@.len(),
                lsv == views_of(ls@),
                forall|m: int| j - b <= m < j ==> blank_line(#[trigger] lsv[m]),
            decreases j - b,
        {
            b += 1;
        }
        proof {
            lemma_blanks_run_at(lsv, j as int, si + 1, b as int);
        }
        let cut = j - b;
        let mut i: usize = 0;
        while i < cut
            invariant
                0 <= i <= cut <= n == ls@.len(),
                lsv == views_of(ls@),
                views_of(out@) =~~= lsv.subrange(0, i as int),
            decreases cut - i,
        {
            let ghost pre = views_of(out@);
            let line = clone_vec(&ls[i]);
            out.push(line);
            proof {
                assert(views_of(out@) =~~= pre.push(lsv[i as int]));
            }
            i += 1;
        }
        let mut bl: Vec<char> = Vec::new();
        push_str(&mut bl, "- ");
        push_str(&mut bl, desc);
        push_str(&mut bl, "\n");
        proof {
            assert(bl@ =~= bullet_nl(desc@));
        }
        let ghost pre2 = views_of(out@);
        out.push(bl);
        proof {
            assert(views_of(out@) =~~= pre2.push(bullet_nl(desc@)));
        }
        let mut k: usize = j;
        while k < n
            invariant
                j <= k <= n == ls@.len(),
                lsv == views_of(ls@),
                views_of(out@) =~~= lsv.subrange(0, (j - b) as int) + seq![bullet_nl(desc@)]
                    + lsv.subrange(j as int, k as int),
            decreases n - k,
        {
            let ghost pre3 = views_of(out@);
            let line = clone_vec(&ls[k]);
            out.push(line);
            proof {
                assert(views_of(out@) =~~= pre3.push(lsv[k as int]));
                assert(lsv.subrange(j as int, k + 1) =~~= lsv.subrange(j as int, k as int).push(
                    lsv[k as int],
                ));
            }
            k += 1;
        }
        proof {
            assert(views_of(out@) =~~= insert_entry_lines(lsv, marker_spec(cat), desc@));
        }
    } else {
        let sec = str_to_vec("### ");
        let mut p: usize = 0;
        while p < n && !starts_with(&ls[p], &sec)
            invariant
                0 <= p <= n == ls@.len(),
                sec@ == "### "@,
                lsv == views_of(ls@),
                forall|m: int| 0 <= m < p ==> !starts_with_spec(#[trigger] lsv[m], "### "@),
            decreases n - p,
        {
            p += 1;
        }
        proof {
            lemma_scan_while_at(lsv, |l: Seq<char>| !starts_with_spec(l, "### "@), 0, p as int);
        }
        let mut i: usize = 0;
        while i < p
            invariant
                0 <= i <= p <= n == ls@.len(),
                lsv == views_of(ls@),
                views_of(out@) =~~= lsv.subrange(0, i as int),
            decreases p - i,
        {
            let ghost pre = views_of(out@);
            let line = clone_vec(&ls[i]);
            out.push(line);
            proof {
                assert(views_of(out@) =~~= pre.push(lsv[i as int]));
            }
            i += 1;
        }
        let mut bl: Vec<char> = Vec::new();
        push_str(&mut bl, "- ");
        push_str(&mut bl, desc);
        proof {
            assert(bl@ =~= bullet_plain(desc@));
        }
        let ghost pre2 = views_of(out@);
        out.push(marker);
        out.push(Vec::new());
        out.push(bl);
        out.push(Vec::new());
        proof {
            assert(views_of(out@) =~~= pre2 + seq![
                marker_spec(cat),
                Seq::<char>::empty(),
                bullet_plain(desc@),
                Seq::<char>::empty(),
            ]);
        }
        let mut k: usize = p;
        while k < n
            invariant
                p <= k <= n == ls@.len(),
                lsv == views_of(ls@),
                views_of(out@) =~~= lsv.subrange(0, p as int) + seq![
                    marker_spec(cat),
                    Seq::<char>::empty(),
                    bullet_plain(desc@),
                    Seq::<char>::empty(),
                ] + lsv.subrange(p as int, k as int),
            decreases n - k,
        {
            let ghost pre3 = views_of(out@);
            let line = clone_vec(&ls[k]);
            out.push(line);
            proof {
                assert(views_of(out@) =~~= pre3.push(lsv[k as int]));
                assert(lsv.subrange(p as int, k + 1) =~~= lsv.subrange(p as int, k as int).push(
                    lsv[k as int],
                ));
            }
            k += 1;
        }
        proof {
            assert(views_of(out@) =~~= insert_entry_lines(lsv, marker_spec(cat), desc@));
        }
    }
    join_lines(&out)
}

} // verus!
