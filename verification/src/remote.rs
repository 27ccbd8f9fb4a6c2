//! Extracting a GitHub `owner/repo` pair from a remote URL.  Only the text
//! analysis lives here; discovering the repository and reading the remote's
//! URL is the caller's business.

use vstd::prelude::*;
use crate::text::{
    before_sep, chars_to_string, clone_vec, contains_spec, contains_sub, ends_with_spec,
    ends_with_str, second_piece, split_once_at, starts_with, starts_with_spec,
    str_to_vec, sub_vec,
};

verus! {

/// `s` with every copy of the prefix `p` peeled off the front, as
/// `trim_start_matches` leaves it.
pub open spec fn trim_prefix_rec(s: Seq<char>, p: Seq<char>) -> Seq<char>
    decreases s.len() when p.len() > 0
{
    if starts_with_spec(s, p) && p.len() > 0 {
        trim_prefix_rec(s.skip(p.len() as int), p)
    } else {
        s
    }
}

/// `s` with every copy of the suffix `p` peeled off the end, as
/// `trim_end_matches` leaves it.
pub open spec fn trim_suffix_rec(s: Seq<char>, p: Seq<char>) -> Seq<char>
    decreases s.len() when p.len() > 0
{
    if ends_with_spec(s, p) && p.len() > 0 {
        trim_suffix_rec(s.take(s.len() - p.len()), p)
    } else {
        s
    }
}

/// Peels every copy of the prefix `p` off the front of `s`.
fn trim_prefix_exec(s: &Vec<char>, p: &Vec<char>) -> (r: Vec<char>)
    requires
        p@.len() > 0,
    ensures
        r@ == trim_prefix_rec(s@, p@),
    decreases s@.len(),
{
    if starts_with(s, p) {
        let rest = sub_vec(s, p.len(), s.len());
        proof {
            assert(rest@ =~= s@.skip(p@.len() as int));
        }
        trim_prefix_exec(&rest, p)
    } else {
        clone_vec(s)
    }
}

/// Peels every copy of the suffix `p` off the end of `s`.
fn trim_suffix_exec(s: &Vec<char>, p: &str) -> (r: Vec<char>)
    requires
        p@.len() > 0,
    ensures
        r@ == trim_suffix_rec(s@, p@),
    decreases s@.len(),
{
    if ends_with_str(s, p) {
        let plen = p.unicode_len();
        let head = sub_vec(s, 0, s.len() - plen);
        proof {
            assert(head@ =~= s@.take(s@.len() - p@.len()));
        }
        trim_suffix_exec(&head, p)
    } else {
        clone_vec(s)
    }
}

/// The `owner/repo` pair a GitHub remote URL names, if it names one: an
/// SSH URL is stripped of its `git@github.com:` prefix, an HTTPS-style URL
/// is cut after the first `github.com/`; either way a trailing `.git` is
/// removed and the first two `/`-separated fields are the owner and the
/// repository.
pub open spec fn github_owner_repo(url: Seq<char>) -> Option<(Seq<char>, Seq<char>)> {
    let body: Option<Seq<char>> = if starts_with_spec(url, "git@github.com:"@) {
        Some(trim_suffix_rec(trim_prefix_rec(url, "git@github.com:"@), ".git"@))
    } else if contains_spec(url, "github.com"@) {
        if contains_spec(url, "github.com/"@) {
            Some(trim_suffix_rec(second_piece(url, "github.com/"@), ".git"@))
        } else {
            None
        }
    } else {
        None
    };
    match body {
        None => None,
        Some(b) => if contains_spec(b, "/"@) {
            Some((before_sep(b, "/"@), second_piece(b, "/"@)))
        } else {
            None
        },
    }
}

/// Extracts the GitHub `owner/repo` pair from a remote URL.
pub fn parse_github_url(url: &str) -> (r: Option<(String, String)>)
    ensures
        match r {
            Some(p) => github_owner_repo(url@) == Some((p.0@, p.1@)),
            None => github_owner_repo(url@) is None,
        },
{
    proof {
        reveal_strlit("git@github.com:");
        reveal_strlit(".git");
    }
    let u = str_to_vec(url);
    let ssh_prefix = str_to_vec("git@github.com:");
    let body: Vec<char>;
    if starts_with(&u, &ssh_prefix) {
        let stripped = trim_prefix_exec(&u, &ssh_prefix);
        body = trim_suffix_exec(&stripped, ".git");
    } else {
        let site = str_to_vec("github.com");
        if !contains_sub(&u, &site) {
            return None;
        }
        let site_slash = str_to_vec("github.com/");
        match split_once_at(&u, &site_slash) {
            (_head, Some(rest)) => {
                let (second, _tail) = split_once_at(&rest, &site_slash);
                proof {
                    assert(second@ == second_piece(u@, "github.com/"@));
                }
                body = trim_suffix_exec(&second, ".git");
            },
            (_head, None) => {
                return None;
            },
        }
    }
    let slash = str_to_vec("/");
    if !contains_sub(&body, &slash) {
        return None;
    }
    let (owner, rest) = split_once_at(&body, &slash);
    let repo = match rest {
        Some(rv) => {
            let (second, _tail) = split_once_at(&rv, &slash);
            proof {
                reveal_strlit("/");
                assert(second@ == second_piece(body@, "/"@));
            }
            second
        },
        None => {
            proof {
                assert(false);
            }
            Vec::new()
        },
    };
    Some((chars_to_string(&owner), chars_to_string(&repo)))
}

} // verus!
