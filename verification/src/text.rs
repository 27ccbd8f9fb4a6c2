//! Character-sequence primitives: whitespace, trimming, searching, splitting
//! into lines and joining them again.  Everything in this module is verified;
//! the specification functions here are the vocabulary in which the rest of
//! the library states its contracts.

use vstd::prelude::*;

verus! {

/// The Unicode `White_Space` property, the set of characters that
/// `str::trim` and friends remove.
pub open spec fn is_ws_char(c: char) -> bool {
    ||| c == ' '
    ||| c == '\t'
    ||| c == '\n'
    ||| c == '\r'
    ||| c == '\u{b}'
    ||| c == '\u{c}'
    ||| c == '\u{85}'
    ||| c == '\u{a0}'
    ||| c == '\u{1680}'
    ||| (0x2000 <= c as u32 && c as u32 <= 0x200a)
    ||| c == '\u{2028}'
    ||| c == '\u{2029}'
    ||| c == '\u{202f}'
    ||| c == '\u{205f}'
    ||| c == '\u{3000}'
}

/// Decides `is_ws_char`.
pub fn char_is_ws(c: char) -> (r: bool)
    ensures
        r == is_ws_char(c),
{
    c == ' ' || c == '\t' || c == '\n' || c == '\r' || c == '\u{b}' || c == '\u{c}'
        || c == '\u{85}' || c == '\u{a0}' || c == '\u{1680}'
        || ('\u{2000}' <= c && c <= '\u{200a}') || c == '\u{2028}' || c == '\u{2029}'
        || c == '\u{202f}' || c == '\u{205f}' || c == '\u{3000}'
}

/// `s` with leading whitespace removed.
pub open spec fn trim_start_spec(s: Seq<char>) -> Seq<char>
    decreases s.len(),
{
    if s.len() > 0 && is_ws_char(s[0]) {
        trim_start_spec(s.drop_first())
    } else {
        s
    }
}

/// `s` with trailing whitespace removed.
pub open spec fn trim_end_spec(s: Seq<char>) -> Seq<char>
    decreases s.len(),
{
    if s.len() > 0 && is_ws_char(s.last()) {
        trim_end_spec(s.drop_last())
    } else {
        s
    }
}

/// `s` with both leading and trailing whitespace removed.
pub open spec fn trim_spec(s: Seq<char>) -> Seq<char> {
    trim_end_spec(trim_start_spec(s))
}

/// If everything before `a` is whitespace and position `a` is not (or is the
/// end), trimming the start keeps exactly the suffix from `a` on.
proof fn lemma_trim_start_at(s: Seq<char>, a: int)
    requires
        0 <= a <= s.len(),
        forall|j: int| 0 <= j < a ==> is_ws_char(#[trigger] s[j]),
        a < s.len() ==> !is_ws_char(s[a]),
    ensures
        trim_start_spec(s) =~= s.subrange(a, s.len() as int),
    decreases a,
{
    if a == 0 {
        if s.len() > 0 && is_ws_char(s[0]) {
            assert(false);
        }
        assert(trim_start_spec(s) == s);
    } else {
        assert(is_ws_char(s[0]));
        assert(trim_start_spec(s) == trim_start_spec(s.drop_first()));
        lemma_trim_start_at(s.drop_first(), a - 1);
    }
}

/// If everything from `b` on is whitespace and position `b - 1` is not (or
/// `b` is 0), trimming the end keeps exactly the prefix up to `b`.
proof fn lemma_trim_end_at(s: Seq<char>, b: int)
    requires
        0 <= b <= s.len(),
        forall|j: int| b <= j < s.len() ==> is_ws_char(#[trigger] s[j]),
        b > 0 ==> !is_ws_char(s[b - 1]),
    ensures
        trim_end_spec(s) =~= s.subrange(0, b),
    decreases s.len() - b,
{
    if b == s.len() {
        if s.len() > 0 && is_ws_char(s.last()) {
            assert(false);
        }
    } else {
        assert(is_ws_char(s.last()));
        assert(trim_end_spec(s) == trim_end_spec(s.drop_last()));
        lemma_trim_end_at(s.drop_last(), b);
    }
}

/// Trimming the end of a sequence whose head survives the trim commutes with
/// dropping that head; helper for relating `trim_spec` to index scans.
proof fn lemma_trim_end_subrange(s: Seq<char>, a: int, b: int)
    requires
        0 <= a <= b <= s.len(),
        forall|j: int| b <= j < s.len() ==> is_ws_char(#[trigger] s[j]),
        b > a ==> !is_ws_char(s[b - 1]),
    ensures
        trim_end_spec(s.subrange(a, s.len() as int)) =~= s.subrange(a, b),
{
    let t = s.subrange(a, s.len() as int);
    assert(forall|j: int| b - a <= j < t.len() ==> is_ws_char(#[trigger] t[j]));
    lemma_trim_end_at(t, b - a);
}

/// The trimmed form of `v`, as a fresh vector.
pub fn trim_of(v: &Vec<char>) -> (r: Vec<char>)
    ensures
        r@ == trim_spec(v@),
{
    let n = v.len();
    let mut a: usize = 0;
    while a < n && char_is_ws(v[a])
        invariant
            0 <= a <= n == v@.len(),
            forall|j: int| 0 <= j < a ==> is_ws_char(#[trigger] v@[j]),
        decreases n - a,
    {
        a += 1;
    }
    proof {
        lemma_trim_start_at(v@, a as int);
    }
    if a == n {
        proof {
            lemma_trim_end_at(v@.subrange(a as int, n as int), 0);
        }
        return Vec::new();
    }
    let mut b: usize = n;
    while b > a && char_is_ws(v[b - 1])
        invariant
            a <= b <= n == v@.len(),
            forall|j: int| b <= j < n ==> is_ws_char(#[trigger] v@[j]),
        decreases b,
    {
        b -= 1;
    }
    proof {
        lemma_trim_end_subrange(v@, a as int, b as int);
    }
    let mut r: Vec<char> = Vec::new();
    let mut i: usize = a;
    while i < b
        invariant
            a <= i <= b <= v@.len(),
            r@ =~= v@.subrange(a as int, i as int),
        decreases b - i,
    {
        r.push(v[i]);
        i += 1;
    }
    r
}

/// The start-trimmed form of `v`, as a fresh vector.
pub fn trim_start_of(v: &Vec<char>) -> (r: Vec<char>)
    ensures
        r@ == trim_start_spec(v@),
{
    let n = v.len();
    let mut a: usize = 0;
    while a < n && char_is_ws(v[a])
        invariant
            0 <= a <= n == v@.len(),
            forall|j: int| 0 <= j < a ==> is_ws_char(#[trigger] v@[j]),
        decreases n - a,
    {
        a += 1;
    }
    proof {
        lemma_trim_start_at(v@, a as int);
    }
    let mut r: Vec<char> = Vec::new();
    let mut i: usize = a;
    while i < n
        invariant
            a <= i <= n == v@.len(),
            r@ =~= v@.subrange(a as int, i as int),
        decreases n - i,
    {
        r.push(v[i]);
        i += 1;
    }
    r
}

/// The end-trimmed form of `v`, as a fresh vector.
pub fn trim_end_of(v: &Vec<char>) -> (r: Vec<char>)
    ensures
        r@ == trim_end_spec(v@),
{
    let n = v.len();
    let mut b: usize = n;
    while b > 0 && char_is_ws(v[b - 1])
        invariant
            0 <= b <= n == v@.len(),
            forall|j: int| b <= j < n ==> is_ws_char(#[trigger] v@[j]),
        decreases b,
    {
        b -= 1;
    }
    proof {
        lemma_trim_end_at(v@, b as int);
    }
    let mut r: Vec<char> = Vec::new();
    let mut i: usize = 0;
    while i < b
        invariant
            0 <= i <= b <= v@.len(),
            r@ =~= v@.subrange(0, i as int),
        decreases b - i,
    {
        r.push(v[i]);
        i += 1;
    }
    r
}

/// Relies on `String: FromIterator<char>`: collecting characters yields the
/// string of exactly those characters in order.
#[verifier::external_body]
pub fn chars_to_string(v: &Vec<char>) -> (r: String)
    ensures
        r@ == v@,
{
    v.iter().collect()
}

/// The trimmed content of `v` is empty, i.e. `v` is all whitespace.
pub fn is_blank(v: &Vec<char>) -> (r: bool)
    ensures
        r == (trim_spec(v@).len() == 0),
{
    let t = trim_of(v);
    t.len() == 0
}

/// The characters of `s`, as a vector.
pub fn str_to_vec(s: &str) -> (r: Vec<char>)
    ensures
        r@ == s@,
{
    let n = s.unicode_len();
    let mut r: Vec<char> = Vec::new();
    let mut i: usize = 0;
    while i < n
        invariant
            0 <= i <= n == s@.len(),
            r@ =~= s@.subrange(0, i as int),
        decreases n - i,
    {
        let c = s.get_char(i);
        r.push(c);
        i += 1;
    }
    assert(r@ =~= s@);
    r
}

/// Appends the characters of `s` to `v`.
pub fn push_str(v: &mut Vec<char>, s: &str)
    ensures
        final(v)@ == old(v)@ + s@,
{
    let n = s.unicode_len();
    let mut i: usize = 0;
    while i < n
        invariant
            0 <= i <= n == s@.len(),
            v@ =~= old(v)@ + s@.subrange(0, i as int),
        decreases n - i,
    {
        let c = s.get_char(i);
        v.push(c);
        i += 1;
    }
    assert(v@ =~= old(v)@ + s@);
}

/// Appends the characters of `w` to `v`.
pub fn push_vec(v: &mut Vec<char>, w: &Vec<char>)
    ensures
        final(v)@ == old(v)@ + w@,
{
    let n = w.len();
    let mut i: usize = 0;
    while i < n
        invariant
            0 <= i <= n == w@.len(),
            v@ =~= old(v)@ + w@.subrange(0, i as int),
        decreases n - i,
    {
        let c = w[i];
        v.push(c);
        i += 1;
    }
    assert(v@ =~= old(v)@ + w@);
}

/// Decides equality of two character vectors.
pub fn vec_eq(a: &Vec<char>, b: &Vec<char>) -> (r: bool)
    ensures
        r == (a@ == b@),
{
    if a.len() != b.len() {
        return false;
    }
    let n = a.len();
    let mut i: usize = 0;
    while i < n
        invariant
            0 <= i <= n == a@.len() == b@.len(),
            forall|j: int| 0 <= j < i ==> a@[j] == b@[j],
        decreases n - i,
    {
        if a[i] != b[i] {
            return false;
        }
        i += 1;
    }
    assert(a@ =~= b@);
    true
}

/// Decides whether the characters of `v` equal those of the string `s`.
pub fn vec_eq_str(v: &Vec<char>, s: &str) -> (r: bool)
    ensures
        r == (v@ == s@),
{
    let w = str_to_vec(s);
    vec_eq(v, &w)
}

/// The needle `n` occurs in `s` at position `i`.
pub open spec fn occurs_at(s: Seq<char>, n: Seq<char>, i: int) -> bool {
    0 <= i && i + n.len() <= s.len() && s.subrange(i, i + n.len() as int) == n
}

/// The first position at or after `i` where `n` occurs in `s`, if any.
pub open spec fn find_from(s: Seq<char>, n: Seq<char>, i: int) -> Option<int>
    decreases s.len() - i + 1 when 0 <= i <= s.len()
{
    if i + n.len() > s.len() {
        None
    } else if occurs_at(s, n, i) {
        Some(i)
    } else {
        find_from(s, n, i + 1)
    }
}

/// The first position where `n` occurs in `s`, if any.
pub open spec fn find_first(s: Seq<char>, n: Seq<char>) -> Option<int> {
    find_from(s, n, 0)
}

/// `n` occurs somewhere in `s`.
pub open spec fn contains_spec(s: Seq<char>, n: Seq<char>) -> bool {
    find_first(s, n) is Some
}

/// What `find_from` returns: the least occurrence position at or after `i`,
/// or `None` exactly when there is no occurrence at or after `i`.
pub proof fn lemma_find_from(s: Seq<char>, n: Seq<char>, i: int)
    requires
        0 <= i <= s.len(),
    ensures
        match find_from(s, n, i) {
            Some(j) => i <= j && occurs_at(s, n, j) && forall|k: int|
                i <= k < j ==> !occurs_at(s, n, k),
            None => forall|k: int| i <= k ==> !occurs_at(s, n, k),
        },
    decreases s.len() - i,
{
    if i + n.len() > s.len() {
        assert(forall|k: int| i <= k ==> !occurs_at(s, n, k));
    } else if occurs_at(s, n, i) {
    } else {
        assert(n.len() > 0) by {
            if n.len() == 0 {
                assert(s.subrange(i, i) =~= n);
            }
        }
        lemma_find_from(s, n, i + 1);
    }
}

/// Checks whether `n` occurs in `s` at position `i`.
pub fn occurs_check(s: &Vec<char>, n: &Vec<char>, i: usize) -> (r: bool)
    requires
        i + n@.len() <= s@.len(),
    ensures
        r == occurs_at(s@, n@, i as int),
{
    let m = n.len();
    let slen = s.len();
    let mut j: usize = 0;
    while j < m
        invariant
            0 <= j <= m == n@.len(),
            slen == s@.len(),
            i + m <= slen,
            forall|k: int| 0 <= k < j ==> s@[i + k] == n@[k],
        decreases m - j,
    {
        if s[i + j] != n[j] {
            assert(s@.subrange(i as int, i + m as int)[j as int] != n@[j as int]);
            return false;
        }
        j += 1;
    }
    assert(s@.subrange(i as int, i + m as int) =~= n@);
    true
}

/// Finds the first occurrence of `n` in `s`.
pub fn find_sub(s: &Vec<char>, n: &Vec<char>) -> (r: Option<usize>)
    ensures
        match r {
            Some(u) => find_first(s@, n@) == Some(u as int),
            None => find_first(s@, n@) is None,
        },
{
    let len = s.len();
    let m = n.len();
    if m == 0 {
        proof {
            assert(s@.subrange(0, 0) =~= n@);
        }
        return Some(0);
    }
    if m > len {
        return None;
    }
    let mut i: usize = 0;
    while i <= len - m
        invariant
            0 < m <= len,
            m == n@.len(),
            len == s@.len(),
            0 <= i <= len - m + 1,
            find_first(s@, n@) == find_from(s@, n@, i as int),
        decreases len - i,
    {
        if occurs_check(s, n, i) {
            return Some(i);
        }
        assert(find_from(s@, n@, i as int) == find_from(s@, n@, i + 1 as int));
        i += 1;
    }
    assert(find_from(s@, n@, i as int) is None);
    None
}

/// `n` occurs somewhere in `s`.
pub fn contains_sub(s: &Vec<char>, n: &Vec<char>) -> (r: bool)
    ensures
        r == contains_spec(s@, n@),
{
    match find_sub(s, n) {
        Some(_) => true,
        None => false,
    }
}

/// The converse scan for `find_first`: no occurrence before `k` and one at
/// `k` pin the first occurrence to `k`.
pub proof fn lemma_find_first_at(s: Seq<char>, n: Seq<char>, k: int)
    requires
        0 <= k,
        forall|j: int| 0 <= j < k ==> !occurs_at(s, n, j),
        occurs_at(s, n, k),
    ensures
        find_first(s, n) == Some(k),
{
    lemma_find_from_at(s, n, 0, k);
}

proof fn lemma_find_from_at(s: Seq<char>, n: Seq<char>, i: int, k: int)
    requires
        0 <= i <= k,
        forall|j: int| i <= j < k ==> !occurs_at(s, n, j),
        occurs_at(s, n, k),
    ensures
        find_from(s, n, i) == Some(k),
    decreases k - i,
{
    if i < k {
        lemma_find_from_at(s, n, i + 1, k);
    }
}

/// An end-trim yields a prefix of its argument.
pub proof fn lemma_trim_end_is_prefix(s: Seq<char>)
    ensures
        trim_end_spec(s).len() <= s.len(),
        trim_end_spec(s) == s.take(trim_end_spec(s).len() as int),
    decreases s.len(),
{
    if s.len() > 0 && is_ws_char(s.last()) {
        lemma_trim_end_is_prefix(s.drop_last());
        assert(s.drop_last().take(trim_end_spec(s).len() as int) =~= s.take(
            trim_end_spec(s).len() as int,
        ));
    } else {
        assert(s.take(s.len() as int) =~= s);
    }
}

/// A non-empty end-trim does not end in whitespace; hence trimming is
/// idempotent.
pub proof fn lemma_trim_end_idem(s: Seq<char>)
    ensures
        trim_end_spec(s).len() > 0 ==> !is_ws_char(trim_end_spec(s).last()),
        trim_end_spec(trim_end_spec(s)) == trim_end_spec(s),
    decreases s.len(),
{
    if s.len() > 0 && is_ws_char(s.last()) {
        lemma_trim_end_idem(s.drop_last());
    }
}

/// `p` is a prefix of `s`.
pub open spec fn starts_with_spec(s: Seq<char>, p: Seq<char>) -> bool {
    occurs_at(s, p, 0)
}

/// Decides `starts_with_spec`.
pub fn starts_with(s: &Vec<char>, p: &Vec<char>) -> (r: bool)
    ensures
        r == starts_with_spec(s@, p@),
{
    if p.len() > s.len() {
        return false;
    }
    occurs_check(s, p, 0)
}

/// The views of a sequence of character vectors.
pub open spec fn views_of(vs: Seq<Vec<char>>) -> Seq<Seq<char>> {
    vs.map_values(|x: Vec<char>| x@)
}

/// The views of a sequence of strings.
pub open spec fn string_views(vs: Seq<String>) -> Seq<Seq<char>> {
    vs.map_values(|x: String| x@)
}

/// Whether some element of `vs` has the same characters as `x`.
pub fn vecs_contain(vs: &Vec<Vec<char>>, x: &Vec<char>) -> (r: bool)
    ensures
        r == views_of(vs@).contains(x@),
{
    let n = vs.len();
    let mut i: usize = 0;
    while i < n
        invariant
            0 <= i <= n == vs@.len(),
            forall|j: int| 0 <= j < i ==> views_of(vs@)[j] != x@,
        decreases n - i,
    {
        if vec_eq(&vs[i], x) {
            assert(views_of(vs@)[i as int] == x@);
            return true;
        }
        i += 1;
    }
    assert(forall|j: int| 0 <= j < views_of(vs@).len() ==> views_of(vs@)[j] != x@);
    false
}

/// The pieces of `s` between `'\n'` separators, keeping every piece: a text
/// with `k` newlines has `k + 1` pieces, empty ones included.
pub open spec fn split_lines_raw(s: Seq<char>) -> Seq<Seq<char>>
    decreases s.len(),
{
    if s.len() == 0 {
        seq![Seq::<char>::empty()]
    } else if s[0] == '\n' {
        seq![Seq::<char>::empty()] + split_lines_raw(s.drop_first())
    } else {
        let rest = split_lines_raw(s.drop_first());
        seq![seq![s[0]] + rest[0]] + rest.skip(1)
    }
}

/// A raw split always has at least one piece.
pub proof fn lemma_raw_len(s: Seq<char>)
    ensures
        split_lines_raw(s).len() >= 1,
    decreases s.len(),
{
    if s.len() == 0 {
    } else {
        lemma_raw_len(s.drop_first());
    }
}

/// Appending one character to the text either appends a fresh empty piece
/// (for `'\n'`) or extends the last piece (for any other character).
pub proof fn lemma_raw_snoc(s: Seq<char>, c: char)
    ensures
        c == '\n' ==> split_lines_raw(s.push(c)) =~~= split_lines_raw(s).push(
            Seq::<char>::empty(),
        ),
        c != '\n' ==> split_lines_raw(s.push(c)) =~~= split_lines_raw(s).drop_last().push(
            split_lines_raw(s).last().push(c),
        ),
    decreases s.len(),
{
    lemma_raw_len(s);
    if s.len() == 0 {
        assert(s =~= Seq::<char>::empty());
        assert(s.push(c).len() == 1);
        assert(s.push(c)[0] == c);
        assert(s.push(c).drop_first() =~= Seq::<char>::empty());
        assert(split_lines_raw(Seq::<char>::empty()) == seq![Seq::<char>::empty()]);
        if c == '\n' {
            assert(split_lines_raw(s.push(c)) =~~= split_lines_raw(s).push(Seq::<char>::empty()));
        } else {
            assert(split_lines_raw(s.push(c)) =~~= split_lines_raw(s).drop_last().push(
                split_lines_raw(s).last().push(c),
            ));
        }
    } else {
        let t = s.drop_first();
        assert(s.push(c)[0] == s[0]);
        assert(s.push(c).drop_first() =~= t.push(c));
        lemma_raw_snoc(t, c);
        lemma_raw_len(t);
        let r = split_lines_raw(t);
        if s[0] == '\n' {
            if c == '\n' {
                assert(split_lines_raw(s.push(c)) =~~= (seq![Seq::<char>::empty()] + r).push(
                    Seq::<char>::empty(),
                ));
            } else {
                assert(split_lines_raw(s.push(c)) =~~= seq![Seq::<char>::empty()] + r.drop_last().push(
                    r.last().push(c),
                ));
                assert((seq![Seq::<char>::empty()] + r).drop_last() =~~= seq![Seq::<char>::empty()]
                    + r.drop_last());
                assert((seq![Seq::<char>::empty()] + r).last() == r.last());
                assert(split_lines_raw(s.push(c)) =~~= (seq![Seq::<char>::empty()]
                    + r).drop_last().push((seq![Seq::<char>::empty()] + r).last().push(c)));
            }
        } else {
            let raw_s = seq![seq![s[0]] + r[0]] + r.skip(1);
            assert(split_lines_raw(s) =~~= raw_s);
            if c == '\n' {
                let r2 = r.push(Seq::<char>::empty());
                assert(split_lines_raw(t.push(c)) =~~= r2);
                assert(r2[0] == r[0]);
                assert(r2.skip(1) =~~= r.skip(1).push(Seq::<char>::empty()));
                assert(split_lines_raw(s.push(c)) =~~= seq![seq![s[0]] + r[0]] + r.skip(1).push(
                    Seq::<char>::empty(),
                ));
                assert(split_lines_raw(s.push(c)) =~~= raw_s.push(Seq::<char>::empty()));
            } else {
                let r2 = r.drop_last().push(r.last().push(c));
                assert(split_lines_raw(t.push(c)) =~~= r2);
                if r.len() == 1 {
                    assert(r2[0] == r[0].push(c));
                    assert(r2.skip(1) =~~= Seq::<Seq<char>>::empty());
                    assert(seq![s[0]] + r[0].push(c) =~= (seq![s[0]] + r[0]).push(c));
                    assert(split_lines_raw(s.push(c)) =~~= seq![(seq![s[0]] + r[0]).push(c)]);
                    assert(raw_s.len() == 1);
                    assert(raw_s.last() == seq![s[0]] + r[0]);
                    assert(split_lines_raw(s.push(c)) =~~= raw_s.drop_last().push(
                        raw_s.last().push(c),
                    ));
                } else {
                    assert(r2[0] == r[0]);
                    assert(r2.skip(1) =~~= r.skip(1).drop_last().push(r.last().push(c)));
                    assert(raw_s.last() == r.last());
                    assert(raw_s.drop_last() =~~= seq![seq![s[0]] + r[0]] + r.skip(1).drop_last());
                    assert(split_lines_raw(s.push(c)) =~~= seq![seq![s[0]] + r[0]] + r.skip(
                        1,
                    ).drop_last().push(r.last().push(c)));
                    assert(split_lines_raw(s.push(c)) =~~= raw_s.drop_last().push(
                        raw_s.last().push(c),
                    ));
                }
            }
        }
    }
}

/// A line with one trailing carriage return removed, as `str::lines` does to
/// a line that ended in `"\r\n"`.
pub open spec fn chop_cr(l: Seq<char>) -> Seq<char> {
    if l.len() > 0 && l.last() == '\r' {
        l.drop_last()
    } else {
        l
    }
}

/// The lines of `s`, exactly as `str::lines` yields them: pieces between
/// newlines, one `'\r'` chopped from a piece that a newline terminated, and
/// no final empty piece when the text ends with a newline.
pub open spec fn lines_spec(s: Seq<char>) -> Seq<Seq<char>> {
    let raw = split_lines_raw(s);
    let done = raw.drop_last().map_values(|l: Seq<char>| chop_cr(l));
    if raw.last().len() == 0 {
        done
    } else {
        done.push(raw.last())
    }
}

/// Splits `v` into its lines.
pub fn split_lines(v: &Vec<char>) -> (r: Vec<Vec<char>>)
    ensures
        views_of(r@) == lines_spec(v@),
{
    let n = v.len();
    let mut done: Vec<Vec<char>> = Vec::new();
    let mut cur: Vec<char> = Vec::new();
    let mut i: usize = 0;
    proof {
        assert(v@.take(0) =~= Seq::<char>::empty());
    }
    while i < n
        invariant
            0 <= i <= n == v@.len(),
            views_of(done@) =~~= split_lines_raw(v@.take(i as int)).drop_last().map_values(
                |l: Seq<char>| chop_cr(l),
            ),
            cur@ == split_lines_raw(v@.take(i as int)).last(),
        decreases n - i,
    {
        let c = v[i];
        proof {
            assert(v@.take(i + 1) =~= v@.take(i as int).push(v@[i as int]));
            lemma_raw_snoc(v@.take(i as int), v@[i as int]);
            lemma_raw_len(v@.take(i as int));
        }
        if c == '\n' {
            if cur.len() > 0 && cur[cur.len() - 1] == '\r' {
                cur.pop();
            }
            proof {
                assert(cur@ == chop_cr(split_lines_raw(v@.take(i as int)).last()));
            }
            done.push(cur);
            cur = Vec::new();
            proof {
                let raw2 = split_lines_raw(v@.take(i + 1));
                assert(raw2.drop_last() =~~= split_lines_raw(v@.take(i as int)));
                assert(raw2.drop_last().map_values(|l: Seq<char>| chop_cr(l)) =~~= split_lines_raw(
                    v@.take(i as int),
                ).drop_last().map_values(|l: Seq<char>| chop_cr(l)).push(
                    chop_cr(split_lines_raw(v@.take(i as int)).last()),
                ));
                assert(views_of(done@) =~~= raw2.drop_last().map_values(
                    |l: Seq<char>| chop_cr(l),
                ));
            }
        } else {
            cur.push(c);
            proof {
                let raw2 = split_lines_raw(v@.take(i + 1));
                assert(raw2.drop_last() =~~= split_lines_raw(v@.take(i as int)).drop_last());
                assert(raw2.last() == split_lines_raw(v@.take(i as int)).last().push(
                    v@[i as int],
                ));
            }
        }
        i += 1;
    }
    proof {
        assert(v@.take(n as int) =~= v@);
        lemma_raw_len(v@);
    }
    if cur.len() > 0 {
        done.push(cur);
        proof {
            assert(views_of(done@) =~~= lines_spec(v@));
        }
    } else {
        proof {
            assert(views_of(done@) =~~= lines_spec(v@));
        }
    }
    done
}

/// Splitting distributes over a newline: the pieces of `s1 + '\n' + s2`
/// are the pieces of `s1` followed by the pieces of `s2`.
pub proof fn lemma_raw_concat_nl(s1: Seq<char>, s2: Seq<char>)
    ensures
        split_lines_raw(s1 + seq!['\n'] + s2) =~~= split_lines_raw(s1) + split_lines_raw(s2),
    decreases s1.len(),
{
    lemma_raw_len(s1);
    lemma_raw_len(s2);
    if s1.len() == 0 {
        let w = s1 + seq!['\n'] + s2;
        assert(w[0] == '\n');
        assert(w.drop_first() =~= s2);
        assert(split_lines_raw(w) =~~= seq![Seq::<char>::empty()] + split_lines_raw(s2));
        assert(s1 =~= Seq::<char>::empty());
        assert(split_lines_raw(s1) == seq![Seq::<char>::empty()]);
    } else {
        let t = s1.drop_first();
        let w = s1 + seq!['\n'] + s2;
        assert(w[0] == s1[0]);
        assert(w.drop_first() =~= t + seq!['\n'] + s2);
        lemma_raw_concat_nl(t, s2);
        lemma_raw_len(t);
        let rt = split_lines_raw(t);
        if s1[0] == '\n' {
            assert(split_lines_raw(w) =~~= seq![Seq::<char>::empty()] + (rt + split_lines_raw(
                s2,
            )));
            assert(split_lines_raw(s1) =~~= seq![Seq::<char>::empty()] + rt);
        } else {
            let rw = rt + split_lines_raw(s2);
            assert(rw[0] == rt[0]);
            assert(rw.skip(1) =~~= rt.skip(1) + split_lines_raw(s2));
            assert(split_lines_raw(w) =~~= seq![seq![s1[0]] + rt[0]] + (rt.skip(1)
                + split_lines_raw(s2)));
            assert(split_lines_raw(s1) =~~= seq![seq![s1[0]] + rt[0]] + rt.skip(1));
        }
    }
}

/// Joining the raw pieces back with newlines recovers the text.
pub proof fn lemma_join_raw_id(s: Seq<char>)
    ensures
        join_nl(split_lines_raw(s)) =~= s,
    decreases s.len(),
{
    lemma_raw_len(s);
    if s.len() == 0 {
    } else {
        let t = s.drop_first();
        lemma_join_raw_id(t);
        lemma_raw_len(t);
        let rt = split_lines_raw(t);
        if s[0] == '\n' {
            let r = seq![Seq::<char>::empty()] + rt;
            assert(r.drop_first() =~~= rt);
            if r.len() == 1 {
                assert(rt.len() == 0);
                assert(false);
            }
            assert(join_nl(r) =~= r[0] + seq!['\n'] + join_nl(rt));
            assert(join_nl(r) =~= seq!['\n'] + t);
            assert(s =~= seq!['\n'] + t);
        } else {
            let r = seq![seq![s[0]] + rt[0]] + rt.skip(1);
            if rt.len() == 1 {
                assert(r.len() == 1);
                assert(join_nl(r) == r[0]);
                assert(join_nl(rt) == rt[0]);
                assert(r[0] =~= seq![s[0]] + join_nl(rt));
            } else {
                assert(r.drop_first() =~~= rt.skip(1));
                assert(rt.skip(1) =~~= rt.drop_first());
                assert(join_nl(r) =~= (seq![s[0]] + rt[0]) + seq!['\n'] + join_nl(rt.drop_first()));
                assert(join_nl(rt) =~= rt[0] + seq!['\n'] + join_nl(rt.drop_first()));
                assert(join_nl(r) =~= seq![s[0]] + join_nl(rt));
            }
            assert(s =~= seq![s[0]] + t);
        }
    }
}

/// A character absent from the text is absent from every piece.
pub proof fn lemma_raw_no_char(s: Seq<char>, c: char)
    requires
        forall|i: int| 0 <= i < s.len() ==> s[i] != c,
    ensures
        forall|k: int, j: int|
            0 <= k < split_lines_raw(s).len() && 0 <= j < split_lines_raw(s)[k].len()
                ==> #[trigger] split_lines_raw(s)[k][j] != c,
    decreases s.len(),
{
    lemma_raw_len(s);
    if s.len() == 0 {
    } else {
        let t = s.drop_first();
        assert(forall|i: int| 0 <= i < t.len() ==> t[i] != c) by {
            assert(forall|i: int| 0 <= i < t.len() ==> t[i] == s[i + 1]);
        }
        lemma_raw_no_char(t, c);
        lemma_raw_len(t);
        let rt = split_lines_raw(t);
        if s[0] == '\n' {
            let r = seq![Seq::<char>::empty()] + rt;
            assert forall|k: int, j: int|
                0 <= k < r.len() && 0 <= j < r[k].len() implies #[trigger] r[k][j] != c by {
                if k > 0 {
                    assert(r[k] == rt[k - 1]);
                }
            }
        } else {
            let r = seq![seq![s[0]] + rt[0]] + rt.skip(1);
            assert(s[0] != c);
            assert forall|k: int, j: int|
                0 <= k < r.len() && 0 <= j < r[k].len() implies #[trigger] r[k][j] != c by {
                if k == 0 {
                    assert(r[0] == seq![s[0]] + rt[0]);
                    if j == 0 {
                        assert(r[0][0] == s[0]);
                    } else {
                        assert(r[0][j] == rt[0][j - 1]);
                    }
                } else {
                    assert(r[k] == rt[k]);
                }
            }
        }
    }
}

/// Dropping a trailing whitespace character does not change the trim.
pub proof fn lemma_trim_ws_last(l: Seq<char>)
    requires
        l.len() > 0,
        is_ws_char(l.last()),
    ensures
        trim_spec(l.drop_last()) == trim_spec(l),
    decreases l.len(),
{
    if l.len() == 1 {
        assert(l[0] == l.last());
        assert(l.drop_last() =~= Seq::<char>::empty());
        assert(l.drop_first() =~= Seq::<char>::empty());
        assert(trim_start_spec(l) == trim_start_spec(l.drop_first()));
        assert(trim_spec(l) == trim_spec(l.drop_last()));
    } else if is_ws_char(l[0]) {
        assert(trim_start_spec(l) == trim_start_spec(l.drop_first()));
        assert(trim_spec(l) == trim_spec(l.drop_first()));
        assert(l.drop_last().len() > 0 && l.drop_last()[0] == l[0]);
        assert(trim_start_spec(l.drop_last()) == trim_start_spec(l.drop_last().drop_first()));
        assert(trim_spec(l.drop_last()) == trim_spec(l.drop_last().drop_first()));
        assert(l.drop_last().drop_first() =~= l.drop_first().drop_last());
        assert(l.drop_first().last() == l.last());
        lemma_trim_ws_last(l.drop_first());
    } else {
        assert(trim_start_spec(l) == l);
        assert(trim_spec(l) == trim_end_spec(l));
        assert(trim_end_spec(l) == trim_end_spec(l.drop_last()));
        assert(l.drop_last().len() > 0 && !is_ws_char(l.drop_last()[0]));
        assert(trim_start_spec(l.drop_last()) == l.drop_last());
    }
}

/// A property of every element survives filtering.
pub proof fn lemma_filter_all(
    s: Seq<Seq<char>>,
    p: spec_fn(Seq<char>) -> bool,
    q: spec_fn(Seq<char>) -> bool,
)
    requires
        forall|k: int| 0 <= k < s.len() ==> q(#[trigger] s[k]),
    ensures
        forall|k: int| 0 <= k < s.filter(p).len() ==> q(#[trigger] s.filter(p)[k]),
    decreases s.len(),
{
    reveal_with_fuel(Seq::filter, 2);
    if s.len() > 0 {
        assert(forall|k: int| 0 <= k < s.drop_last().len() ==> q(#[trigger] s.drop_last()[k]));
        lemma_filter_all(s.drop_last(), p, q);
        if p(s.last()) {
            assert(s.filter(p) == s.drop_last().filter(p).push(s.last()));
        } else {
            assert(s.filter(p) == s.drop_last().filter(p));
        }
    }
}

/// A newline-free text is a single piece.
pub proof fn lemma_raw_single(x: Seq<char>)
    requires
        forall|j: int| 0 <= j < x.len() ==> x[j] != '\n',
    ensures
        split_lines_raw(x) =~~= seq![x],
    decreases x.len(),
{
    if x.len() == 0 {
        assert(x =~= Seq::<char>::empty());
    } else {
        assert(x[0] != '\n');
        let t = x.drop_first();
        assert(forall|j: int| 0 <= j < t.len() ==> t[j] != '\n') by {
            assert(forall|j: int| 0 <= j < t.len() ==> t[j] == x[j + 1]);
        }
        lemma_raw_single(t);
        assert(split_lines_raw(x) =~~= seq![seq![x[0]] + t]);
        assert(seq![x[0]] + t =~= x);
    }
}

/// No piece of a raw split contains a newline.
pub proof fn lemma_raw_pieces_nl_free(s: Seq<char>)
    ensures
        forall|k: int, j: int|
            0 <= k < split_lines_raw(s).len() && 0 <= j < split_lines_raw(s)[k].len()
                ==> #[trigger] split_lines_raw(s)[k][j] != '\n',
    decreases s.len(),
{
    lemma_raw_len(s);
    if s.len() == 0 {
    } else {
        let t = s.drop_first();
        lemma_raw_pieces_nl_free(t);
        lemma_raw_len(t);
        let rt = split_lines_raw(t);
        if s[0] == '\n' {
            let r = seq![Seq::<char>::empty()] + rt;
            assert forall|k: int, j: int|
                0 <= k < r.len() && 0 <= j < r[k].len() implies #[trigger] r[k][j] != '\n' by {
                if k > 0 {
                    assert(r[k] == rt[k - 1]);
                }
            }
        } else {
            let r = seq![seq![s[0]] + rt[0]] + rt.skip(1);
            assert forall|k: int, j: int|
                0 <= k < r.len() && 0 <= j < r[k].len() implies #[trigger] r[k][j] != '\n' by {
                if k == 0 {
                    assert(r[0] == seq![s[0]] + rt[0]);
                    if j == 0 {
                        assert(r[0][0] == s[0]);
                    } else {
                        assert(r[0][j] == rt[0][j - 1]);
                    }
                } else {
                    assert(r[k] == rt[k]);
                }
            }
        }
    }
}

/// Splitting a join of newline-free pieces recovers exactly the pieces.
pub proof fn lemma_raw_of_join(ls: Seq<Seq<char>>)
    requires
        ls.len() > 0,
        forall|k: int, j: int|
            0 <= k < ls.len() && 0 <= j < ls[k].len() ==> #[trigger] ls[k][j] != '\n',
    ensures
        split_lines_raw(join_nl(ls)) =~~= ls,
    decreases ls.len(),
{
    if ls.len() == 1 {
        assert(join_nl(ls) == ls[0]);
        assert(forall|j: int| 0 <= j < ls[0].len() ==> ls[0][j] != '\n');
        lemma_raw_single(ls[0]);
    } else {
        let rest = ls.drop_first();
        assert(forall|k: int, j: int|
            0 <= k < rest.len() && 0 <= j < rest[k].len() ==> #[trigger] rest[k][j] != '\n') by {
            assert(forall|k: int| 0 <= k < rest.len() ==> rest[k] == ls[k + 1]);
        }
        lemma_raw_of_join(rest);
        assert(join_nl(ls) == ls[0] + seq!['\n'] + join_nl(rest));
        lemma_raw_concat_nl(ls[0], join_nl(rest));
        assert(forall|j: int| 0 <= j < ls[0].len() ==> ls[0][j] != '\n');
        lemma_raw_single(ls[0]);
        assert(split_lines_raw(join_nl(ls)) =~~= seq![ls[0]] + rest);
        assert(seq![ls[0]] + rest =~~= ls);
    }
}

/// Joining distributes over concatenation of non-empty line lists.
pub proof fn lemma_join_concat(a: Seq<Seq<char>>, b: Seq<Seq<char>>)
    requires
        a.len() > 0,
        b.len() > 0,
    ensures
        join_nl(a + b) =~= join_nl(a) + seq!['\n'] + join_nl(b),
    decreases a.len(),
{
    if a.len() == 1 {
        let w = a + b;
        assert(w[0] == a[0]);
        assert(w.drop_first() =~~= b);
        if w.len() == 1 {
            assert(false);
        }
        assert(join_nl(w) =~= a[0] + seq!['\n'] + join_nl(b));
        assert(join_nl(a) == a[0]);
    } else {
        let w = a + b;
        assert(w[0] == a[0]);
        assert(w.drop_first() =~~= a.drop_first() + b);
        lemma_join_concat(a.drop_first(), b);
        assert(join_nl(w) =~= a[0] + seq!['\n'] + (join_nl(a.drop_first()) + seq!['\n'] + join_nl(
            b,
        )));
        assert(join_nl(a) + seq!['\n'] + join_nl(b) =~= a[0] + seq!['\n'] + (join_nl(
            a.drop_first(),
        ) + seq!['\n'] + join_nl(b)));
    }
}

/// A line whose first character is not whitespace keeps it through a trim.
pub proof fn lemma_trim_first_char(l: Seq<char>)
    requires
        l.len() > 0,
        !is_ws_char(l[0]),
    ensures
        trim_spec(l).len() > 0,
        trim_spec(l)[0] == l[0],
{
    assert(trim_start_spec(l) == l);
    lemma_trim_end_first(l);
}

proof fn lemma_trim_end_first(l: Seq<char>)
    requires
        l.len() > 0,
        !is_ws_char(l[0]),
    ensures
        trim_end_spec(l).len() > 0,
        trim_end_spec(l)[0] == l[0],
    decreases l.len(),
{
    if l.len() > 0 && is_ws_char(l.last()) {
        assert(l.drop_last().len() > 0) by {
            if l.len() == 1 {
                assert(l.last() == l[0]);
            }
        }
        assert(l.drop_last()[0] == l[0]);
        lemma_trim_end_first(l.drop_last());
    }
}

/// The lines joined with single `'\n'` separators; no trailing newline.
pub open spec fn join_nl(ls: Seq<Seq<char>>) -> Seq<char>
    decreases ls.len(),
{
    if ls.len() == 0 {
        Seq::empty()
    } else if ls.len() == 1 {
        ls[0]
    } else {
        ls[0] + seq!['\n'] + join_nl(ls.drop_first())
    }
}

/// Joining after appending one more line appends a separator and that line.
pub proof fn lemma_join_snoc(ls: Seq<Seq<char>>, x: Seq<char>)
    ensures
        ls.len() == 0 ==> join_nl(ls.push(x)) == x,
        ls.len() > 0 ==> join_nl(ls.push(x)) =~= join_nl(ls) + seq!['\n'] + x,
    decreases ls.len(),
{
    if ls.len() == 0 {
        assert(join_nl(ls.push(x)) == ls.push(x)[0]);
    } else if ls.len() == 1 {
        assert(ls.push(x).drop_first() =~~= seq![x]);
        assert(ls.push(x)[0] == ls[0]);
        assert(join_nl(seq![x]) == seq![x][0]);
        assert(seq![x][0] == x);
        assert(join_nl(ls.push(x)) == ls[0] + seq!['\n'] + x);
    } else {
        assert(ls.push(x).drop_first() =~~= ls.drop_first().push(x));
        lemma_join_snoc(ls.drop_first(), x);
        assert(join_nl(ls.push(x)) =~= ls[0] + seq!['\n'] + (join_nl(ls.drop_first()) + seq!['\n']
            + x));
        assert(join_nl(ls) + seq!['\n'] + x =~= ls[0] + seq!['\n'] + (join_nl(ls.drop_first())
            + seq!['\n'] + x));
    }
}

/// Joins lines with `'\n'` separators.
pub fn join_lines(ls: &Vec<Vec<char>>) -> (r: Vec<char>)
    ensures
        r@ == join_nl(views_of(ls@)),
{
    let n = ls.len();
    let mut out: Vec<char> = Vec::new();
    let mut i: usize = 0;
    proof {
        assert(views_of(ls@).take(0) =~~= Seq::<Seq<char>>::empty());
    }
    while i < n
        invariant
            0 <= i <= n == ls@.len(),
            out@ == join_nl(views_of(ls@).take(i as int)),
        decreases n - i,
    {
        if i > 0 {
            out.push('\n');
        }
        push_vec(&mut out, &ls[i]);
        proof {
            let vs = views_of(ls@);
            assert(vs.take(i + 1) =~~= vs.take(i as int).push(vs[i as int]));
            lemma_join_snoc(vs.take(i as int), vs[i as int]);
        }
        i += 1;
    }
    proof {
        assert(views_of(ls@).take(n as int) =~~= views_of(ls@));
    }
    out
}

/// The decimal digit `d` (below ten) as a character.
pub open spec fn digit_char(d: nat) -> char {
    ((0x30 + d) as u8) as char
}

/// The decimal representation of `n`, most significant digit first.
pub open spec fn dec_of(n: nat) -> Seq<char>
    decreases n,
{
    if n < 10 {
        seq![digit_char(n)]
    } else {
        dec_of(n / 10).push(digit_char(n % 10))
    }
}

/// Renders `x` in decimal.
pub fn u64_to_vec(x: u64) -> (r: Vec<char>)
    ensures
        r@ == dec_of(x as nat),
    decreases x,
{
    if x < 10 {
        let mut r: Vec<char> = Vec::new();
        r.push((0x30u8 + (x as u8)) as char);
        assert(r@ =~= seq![digit_char(x as nat)]);
        r
    } else {
        let mut r = u64_to_vec(x / 10);
        r.push((0x30u8 + ((x % 10) as u8)) as char);
        r
    }
}

/// The length of the leading run of non-whitespace characters.
pub open spec fn nonws_len(t: Seq<char>) -> int
    decreases t.len(),
{
    if t.len() > 0 && !is_ws_char(t[0]) {
        1 + nonws_len(t.drop_first())
    } else {
        0
    }
}

proof fn lemma_nonws_at(t: Seq<char>, k: int)
    requires
        0 <= k <= t.len(),
        forall|j: int| 0 <= j < k ==> !is_ws_char(#[trigger] t[j]),
        k < t.len() ==> is_ws_char(t[k]),
    ensures
        nonws_len(t) == k,
    decreases k,
{
    if k == 0 {
    } else {
        lemma_nonws_at(t.drop_first(), k - 1);
    }
}

/// The first whitespace-separated token of `s`, what
/// `split_whitespace().next()` yields.
pub open spec fn first_token(s: Seq<char>) -> Option<Seq<char>> {
    let t = trim_start_spec(s);
    if t.len() == 0 {
        None
    } else {
        Some(t.take(nonws_len(t)))
    }
}

/// Extracts the first whitespace-separated token of `v`.
pub fn take_first_token(v: &Vec<char>) -> (r: Option<Vec<char>>)
    ensures
        match r {
            Some(t) => first_token(v@) == Some(t@),
            None => first_token(v@) is None,
        },
{
    let n = v.len();
    let mut a: usize = 0;
    while a < n && char_is_ws(v[a])
        invariant
            0 <= a <= n == v@.len(),
            forall|j: int| 0 <= j < a ==> is_ws_char(#[trigger] v@[j]),
        decreases n - a,
    {
        a += 1;
    }
    proof {
        lemma_trim_start_at(v@, a as int);
    }
    if a == n {
        return None;
    }
    let mut b: usize = a;
    while b < n && !char_is_ws(v[b])
        invariant
            a <= b <= n == v@.len(),
            forall|j: int| a <= j < b ==> !is_ws_char(#[trigger] v@[j]),
        decreases n - b,
    {
        b += 1;
    }
    proof {
        let t = v@.subrange(a as int, n as int);
        assert(forall|j: int| 0 <= j < b - a ==> !is_ws_char(#[trigger] t[j]));
        lemma_nonws_at(t, b - a);
        assert(t.take(b - a) =~= v@.subrange(a as int, b as int));
    }
    let mut r: Vec<char> = Vec::new();
    let mut i: usize = a;
    while i < b
        invariant
            a <= i <= b <= v@.len(),
            r@ =~= v@.subrange(a as int, i as int),
        decreases b - i,
    {
        r.push(v[i]);
        i += 1;
    }
    assert(b > a);
    Some(r)
}

/// The text before the first occurrence of `sep`, or all of `s` when `sep`
/// does not occur: what `split(sep).next()` yields.
pub open spec fn before_sep(s: Seq<char>, sep: Seq<char>) -> Seq<char> {
    match find_first(s, sep) {
        Some(i) => s.take(i),
        None => s,
    }
}

/// The second piece of splitting `s` on `sep`: what `split(sep).nth(1)`
/// yields when `sep` occurs in `s`.
pub open spec fn second_piece(s: Seq<char>, sep: Seq<char>) -> Seq<char> {
    match find_first(s, sep) {
        Some(i) => before_sep(s.skip(i + sep.len() as int), sep),
        None => Seq::empty(),
    }
}

/// Extracts the text before the first occurrence of `sep`, with a flag that
/// tells whether `sep` occurred, and the remainder after that occurrence.
pub fn split_once_at(v: &Vec<char>, sep: &Vec<char>) -> (r: (Vec<char>, Option<Vec<char>>))
    ensures
        r.0@ == before_sep(v@, sep@),
        match r.1 {
            Some(rest) => find_first(v@, sep@) matches Some(i) && rest@ == v@.skip(
                i + sep@.len() as int,
            ),
            None => find_first(v@, sep@) is None,
        },
{
    let n = v.len();
    match find_sub(v, sep) {
        Some(i) => {
            proof {
                lemma_find_from(v@, sep@, 0);
            }
            let mut head: Vec<char> = Vec::new();
            let mut j: usize = 0;
            while j < i
                invariant
                    0 <= j <= i,
                    i + sep@.len() <= v@.len(),
                    head@ =~= v@.subrange(0, j as int),
                decreases i - j,
            {
                head.push(v[j]);
                j += 1;
            }
            let start = i + sep.len();
            let mut rest: Vec<char> = Vec::new();
            let mut k: usize = start;
            while k < n
                invariant
                    start <= k <= n == v@.len(),
                    rest@ =~= v@.subrange(start as int, k as int),
                decreases n - k,
            {
                rest.push(v[k]);
                k += 1;
            }
            proof {
                assert(head@ =~= v@.take(i as int));
                assert(rest@ =~= v@.skip(i + sep@.len() as int));
            }
            (head, Some(rest))
        },
        None => {
            let head = clone_vec(v);
            (head, None)
        },
    }
}

/// A copy of `v`.
pub fn clone_vec(v: &Vec<char>) -> (r: Vec<char>)
    ensures
        r@ == v@,
{
    let n = v.len();
    let mut r: Vec<char> = Vec::new();
    let mut i: usize = 0;
    while i < n
        invariant
            0 <= i <= n == v@.len(),
            r@ =~= v@.subrange(0, i as int),
        decreases n - i,
    {
        r.push(v[i]);
        i += 1;
    }
    assert(r@ =~= v@);
    r
}

/// A copy of `v[a..b]`.
pub fn sub_vec(v: &Vec<char>, a: usize, b: usize) -> (r: Vec<char>)
    requires
        0 <= a <= b <= v@.len(),
    ensures
        r@ == v@.subrange(a as int, b as int),
{
    let mut r: Vec<char> = Vec::new();
    let mut i: usize = a;
    while i < b
        invariant
            a <= i <= b <= v@.len(),
            r@ =~= v@.subrange(a as int, i as int),
        decreases b - i,
    {
        r.push(v[i]);
        i += 1;
    }
    r
}

/// A square bracket, the characters `trim_matches` strips from titles.
pub open spec fn is_bracket_char(c: char) -> bool {
    c == '[' || c == ']'
}

/// `s` with leading brackets removed.
pub open spec fn trim_brackets_start(s: Seq<char>) -> Seq<char>
    decreases s.len(),
{
    if s.len() > 0 && is_bracket_char(s[0]) {
        trim_brackets_start(s.drop_first())
    } else {
        s
    }
}

/// `s` with trailing brackets removed.
pub open spec fn trim_brackets_end(s: Seq<char>) -> Seq<char>
    decreases s.len(),
{
    if s.len() > 0 && is_bracket_char(s.last()) {
        trim_brackets_end(s.drop_last())
    } else {
        s
    }
}

/// `s` with leading and trailing brackets removed, as
/// `trim_matches(|c| c == '[' || c == ']')` leaves it.
pub open spec fn trim_brackets_spec(s: Seq<char>) -> Seq<char> {
    trim_brackets_end(trim_brackets_start(s))
}

proof fn lemma_trim_brackets_start_at(s: Seq<char>, a: int)
    requires
        0 <= a <= s.len(),
        forall|j: int| 0 <= j < a ==> is_bracket_char(#[trigger] s[j]),
        a < s.len() ==> !is_bracket_char(s[a]),
    ensures
        trim_brackets_start(s) =~= s.subrange(a, s.len() as int),
    decreases a,
{
    if a == 0 {
        if s.len() > 0 && is_bracket_char(s[0]) {
            assert(false);
        }
    } else {
        lemma_trim_brackets_start_at(s.drop_first(), a - 1);
    }
}

proof fn lemma_trim_brackets_end_at(s: Seq<char>, b: int)
    requires
        0 <= b <= s.len(),
        forall|j: int| b <= j < s.len() ==> is_bracket_char(#[trigger] s[j]),
        b > 0 ==> !is_bracket_char(s[b - 1]),
    ensures
        trim_brackets_end(s) =~= s.subrange(0, b),
    decreases s.len() - b,
{
    if b == s.len() {
        if s.len() > 0 && is_bracket_char(s.last()) {
            assert(false);
        }
    } else {
        lemma_trim_brackets_end_at(s.drop_last(), b);
    }
}

/// Strips leading and trailing brackets from `v`.
pub fn trim_brackets(v: &Vec<char>) -> (r: Vec<char>)
    ensures
        r@ == trim_brackets_spec(v@),
{
    let n = v.len();
    let mut a: usize = 0;
    while a < n && (v[a] == '[' || v[a] == ']')
        invariant
            0 <= a <= n == v@.len(),
            forall|j: int| 0 <= j < a ==> is_bracket_char(#[trigger] v@[j]),
        decreases n - a,
    {
        a += 1;
    }
    proof {
        lemma_trim_brackets_start_at(v@, a as int);
    }
    if a == n {
        proof {
            lemma_trim_brackets_end_at(v@.subrange(a as int, n as int), 0);
        }
        return Vec::new();
    }
    let mut b: usize = n;
    while b > a && (v[b - 1] == '[' || v[b - 1] == ']')
        invariant
            a <= b <= n == v@.len(),
            forall|j: int| b <= j < n ==> is_bracket_char(#[trigger] v@[j]),
        decreases b,
    {
        b -= 1;
    }
    proof {
        let t = v@.subrange(a as int, n as int);
        assert(forall|j: int| b - a <= j < t.len() ==> is_bracket_char(#[trigger] t[j]));
        lemma_trim_brackets_end_at(t, b - a);
        assert(t.subrange(0, b - a) =~= v@.subrange(a as int, b as int));
    }
    let mut r: Vec<char> = Vec::new();
    let mut i: usize = a;
    while i < b
        invariant
            a <= i <= b <= v@.len(),
            r@ =~= v@.subrange(a as int, i as int),
        decreases b - i,
    {
        r.push(v[i]);
        i += 1;
    }
    r
}

/// `s` with every bracket character removed, as
/// `replace("[", "").replace("]", "")` leaves it.
pub open spec fn strip_brackets_spec(s: Seq<char>) -> Seq<char> {
    s.filter(|c: char| !is_bracket_char(c))
}

/// Removes every bracket character from `v`.
pub fn strip_brackets(v: &Vec<char>) -> (r: Vec<char>)
    ensures
        r@ == strip_brackets_spec(v@),
{
    let n = v.len();
    let mut r: Vec<char> = Vec::new();
    proof {
        assert(v@.take(0) =~= Seq::<char>::empty());
        reveal_with_fuel(Seq::filter, 2);
    }
    let mut i: usize = 0;
    while i < n
        invariant
            0 <= i <= n == v@.len(),
            r@ == v@.take(i as int).filter(|c: char| !is_bracket_char(c)),
        decreases n - i,
    {
        let c = v[i];
        proof {
            assert(v@.take(i + 1) =~= v@.take(i as int).push(v@[i as int]));
            assert(v@.take(i + 1).drop_last() =~= v@.take(i as int));
            reveal_with_fuel(Seq::filter, 2);
        }
        if !(c == '[' || c == ']') {
            r.push(c);
        }
        i += 1;
    }
    proof {
        assert(v@.take(n as int) =~= v@);
    }
    r
}

/// `suffix` ends `s`.
pub open spec fn ends_with_spec(s: Seq<char>, suffix: Seq<char>) -> bool {
    occurs_at(s, suffix, s.len() - suffix.len())
}

/// Decides whether `v` ends with the string `s`.
pub fn ends_with_str(v: &Vec<char>, s: &str) -> (r: bool)
    ensures
        r == ends_with_spec(v@, s@),
{
    let w = str_to_vec(s);
    if w.len() > v.len() {
        return false;
    }
    occurs_check(v, &w, v.len() - w.len())
}

/// ASCII lowercasing of a single character.
pub open spec fn lower_char(c: char) -> char {
    if 'A' <= c && c <= 'Z' {
        ((c as u8) + 32) as char
    } else {
        c
    }
}

/// ASCII lowercasing of a sequence.
pub open spec fn lower_spec(s: Seq<char>) -> Seq<char> {
    s.map_values(|c: char| lower_char(c))
}

/// The ASCII-lowercased copy of `v`.
pub fn to_lower(v: &Vec<char>) -> (r: Vec<char>)
    ensures
        r@ == lower_spec(v@),
{
    let n = v.len();
    let mut r: Vec<char> = Vec::new();
    let mut i: usize = 0;
    while i < n
        invariant
            0 <= i <= n == v@.len(),
            r@ =~= v@.subrange(0, i as int).map_values(|c: char| lower_char(c)),
        decreases n - i,
    {
        let c = v[i];
        if 'A' <= c && c <= 'Z' {
            r.push(((c as u8) + 32) as char);
        } else {
            r.push(c);
        }
        i += 1;
    }
    assert(v@.subrange(0, n as int) =~= v@);
    r
}

} // verus!
