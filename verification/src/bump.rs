//! Semantic-version bumping: the arithmetic of `major`, `minor` and `patch`
//! increments, and the rendering of the resulting version string.

use vstd::prelude::*;
use crate::errors::ChangelogError;
use crate::outside::semver_of;
use crate::text::{chars_to_string, dec_of, lower_spec, push_str, push_vec, str_to_vec, to_lower,
    u64_to_vec, vec_eq_str};

verus! {

/// Which component a bump keyword increments.
#[derive(Clone, Copy, Debug, PartialEq, Eq, Structural)]
pub enum BumpKind {
    Major,
    Minor,
    Patch,
}

/// The bump kind a keyword selects, compared after ASCII lowercasing.
pub open spec fn bump_kind_of(s: Seq<char>) -> Option<BumpKind> {
    let l = lower_spec(s);
    if l == "major"@ {
        Some(BumpKind::Major)
    } else if l == "minor"@ {
        Some(BumpKind::Minor)
    } else if l == "patch"@ {
        Some(BumpKind::Patch)
    } else {
        None
    }
}

/// Resolves a bump keyword.
pub fn parse_bump_kind(s: &str) -> (r: Option<BumpKind>)
    ensures
        r == bump_kind_of(s@),
{
    let v = str_to_vec(s);
    let l = to_lower(&v);
    if vec_eq_str(&l, "major") {
        Some(BumpKind::Major)
    } else if vec_eq_str(&l, "minor") {
        Some(BumpKind::Minor)
    } else if vec_eq_str(&l, "patch") {
        Some(BumpKind::Patch)
    } else {
        None
    }
}

/// The bumped components: `major` yields `(M+1, 0, 0)`, `minor` yields
/// `(M, m+1, 0)`, and `patch` yields `(M, m, p+1)`.
pub open spec fn bumped(ma: nat, mi: nat, pa: nat, k: BumpKind) -> (nat, nat, nat) {
    match k {
        BumpKind::Major => ((ma + 1) as nat, 0 as nat, 0 as nat),
        BumpKind::Minor => (ma, (mi + 1) as nat, 0 as nat),
        BumpKind::Patch => (ma, mi, (pa + 1) as nat),
    }
}

/// The dotted decimal rendering of version components.
pub open spec fn ver_string(ma: nat, mi: nat, pa: nat) -> Seq<char> {
    dec_of(ma) + "."@ + dec_of(mi) + "."@ + dec_of(pa)
}

/// Computes the bumped components.  The bounds only rule out integer
/// wrap-around at the limits of `u64`.
pub fn bump_version(ma: u64, mi: u64, pa: u64, kind: BumpKind) -> (r: (u64, u64, u64))
    requires
        kind is Major ==> ma < u64::MAX,
        kind is Minor ==> mi < u64::MAX,
        kind is Patch ==> pa < u64::MAX,
    ensures
        (r.0 as nat, r.1 as nat, r.2 as nat) == bumped(ma as nat, mi as nat, pa as nat, kind),
{
    match kind {
        BumpKind::Major => (ma + 1, 0, 0),
        BumpKind::Minor => (ma, mi + 1, 0),
        BumpKind::Patch => (ma, mi, pa + 1),
    }
}

/// Renders version components as `M.m.p`.
pub fn version_string(ma: u64, mi: u64, pa: u64) -> (r: Vec<char>)
    ensures
        r@ == ver_string(ma as nat, mi as nat, pa as nat),
{
    let mut r = u64_to_vec(ma);
    push_str(&mut r, ".");
    let w = u64_to_vec(mi);
    push_vec(&mut r, &w);
    push_str(&mut r, ".");
    let w2 = u64_to_vec(pa);
    push_vec(&mut r, &w2);
    proof {
        assert(r@ =~= ver_string(ma as nat, mi as nat, pa as nat));
    }
    r
}

/// What the next version is for a latest-version string and a bump keyword:
/// an unparseable latest version is invalid data; an unknown keyword is
/// invalid input; components at the very top of the `u64` range cannot be
/// bumped.
pub open spec fn next_version_spec(latest: Seq<char>, change_type: Seq<char>) -> Result<
    Seq<char>,
    ChangelogError,
> {
    match semver_of(latest) {
        None => Err(ChangelogError::InvalidData),
        Some(parts) => match bump_kind_of(change_type) {
            None => Err(ChangelogError::InvalidInput),
            Some(k) => {
                if (k is Major && parts.0 == u64::MAX) || (k is Minor && parts.1 == u64::MAX) || (
                k is Patch && parts.2 == u64::MAX) {
                    Err(ChangelogError::Other)
                } else {
                    let b = bumped(parts.0 as nat, parts.1 as nat, parts.2 as nat, k);
                    Ok(ver_string(b.0, b.1, b.2))
                }
            },
        },
    }
}

/// The result views of a string-or-error result.
pub open spec fn res_views(r: Result<String, ChangelogError>) -> Result<Seq<char>, ChangelogError> {
    match r {
        Ok(s) => Ok(s@),
        Err(e) => Err(e),
    }
}

/// Computes the next version from the latest released version and a bump
/// keyword.
pub fn get_next_version(latest_version: &str, change_type: &str) -> (r: Result<
    String,
    ChangelogError,
>)
    ensures
        res_views(r) == next_version_spec(latest_version@, change_type@),
{
    let parts = match crate::outside::parse_semver(latest_version) {
        Some(p) => p,
        None => {
            return Err(ChangelogError::InvalidData);
        },
    };
    let kind = match parse_bump_kind(change_type) {
        Some(k) => k,
        None => {
            return Err(ChangelogError::InvalidInput);
        },
    };
    let hit_limit = match kind {
        BumpKind::Major => parts.0 == u64::MAX,
        BumpKind::Minor => parts.1 == u64::MAX,
        BumpKind::Patch => parts.2 == u64::MAX,
    };
    if hit_limit {
        return Err(ChangelogError::Other);
    }
    let b = bump_version(parts.0, parts.1, parts.2, kind);
    let v = version_string(b.0, b.1, b.2);
    Ok(chars_to_string(&v))
}

} // verus!
