//! The six standard change categories and the keywords that select them.

use vstd::prelude::*;
use crate::text::{lower_spec, push_str, str_to_vec, to_lower, vec_eq_str};

verus! {

/// One of the six standard change classifications.
#[derive(Clone, Copy, Debug, PartialEq, Eq, Structural)]
pub enum Category {
    Added,
    Changed,
    Deprecated,
    Removed,
    Fixed,
    Security,
}

/// The Title-case name of a category, as it appears in a section heading.
pub open spec fn cat_title(c: Category) -> Seq<char> {
    match c {
        Category::Added => "Added"@,
        Category::Changed => "Changed"@,
        Category::Deprecated => "Deprecated"@,
        Category::Removed => "Removed"@,
        Category::Fixed => "Fixed"@,
        Category::Security => "Security"@,
    }
}

/// The canonical section marker line for a category: `### <Name>`.
pub open spec fn marker_spec(c: Category) -> Seq<char> {
    "### "@ + cat_title(c)
}

/// Builds the canonical `### <Name>` marker for `c`.
pub fn marker_of(c: Category) -> (r: Vec<char>)
    ensures
        r@ == marker_spec(c),
{
    let mut r: Vec<char> = Vec::new();
    push_str(&mut r, "### ");
    match c {
        Category::Added => push_str(&mut r, "Added"),
        Category::Changed => push_str(&mut r, "Changed"),
        Category::Deprecated => push_str(&mut r, "Deprecated"),
        Category::Removed => push_str(&mut r, "Removed"),
        Category::Fixed => push_str(&mut r, "Fixed"),
        Category::Security => push_str(&mut r, "Security"),
    }
    r
}

/// The category a caller-supplied keyword selects: each full name and its
/// single-letter alias, compared after ASCII lowercasing.
pub open spec fn keyword_cat(s: Seq<char>) -> Option<Category> {
    let l = lower_spec(s);
    if l == "added"@ || l == "a"@ {
        Some(Category::Added)
    } else if l == "changed"@ || l == "c"@ {
        Some(Category::Changed)
    } else if l == "deprecated"@ || l == "d"@ {
        Some(Category::Deprecated)
    } else if l == "removed"@ || l == "r"@ {
        Some(Category::Removed)
    } else if l == "fixed"@ || l == "f"@ {
        Some(Category::Fixed)
    } else if l == "security"@ || l == "s"@ {
        Some(Category::Security)
    } else {
        None
    }
}

/// Resolves a caller-supplied change-type keyword to its category.
pub fn parse_category(type_: &str) -> (r: Option<Category>)
    ensures
        r == keyword_cat(type_@),
{
    let v = str_to_vec(type_);
    let l = to_lower(&v);
    if vec_eq_str(&l, "added") || vec_eq_str(&l, "a") {
        Some(Category::Added)
    } else if vec_eq_str(&l, "changed") || vec_eq_str(&l, "c") {
        Some(Category::Changed)
    } else if vec_eq_str(&l, "deprecated") || vec_eq_str(&l, "d") {
        Some(Category::Deprecated)
    } else if vec_eq_str(&l, "removed") || vec_eq_str(&l, "r") {
        Some(Category::Removed)
    } else if vec_eq_str(&l, "fixed") || vec_eq_str(&l, "f") {
        Some(Category::Fixed)
    } else if vec_eq_str(&l, "security") || vec_eq_str(&l, "s") {
        Some(Category::Security)
    } else {
        None
    }
}

} // verus!
