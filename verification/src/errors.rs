//! The library's error kinds.  Every operation reports failure through one of
//! these four kinds; the caller decides how to word them.

use vstd::prelude::*;

verus! {

/// Why a changelog operation failed.
#[derive(Clone, Copy, Debug, PartialEq, Eq, Structural)]
pub enum ChangelogError {
    /// A file, version key, section or prior release was missing.
    NotFound,
    /// A caller-supplied category, version or keyword was not recognized.
    InvalidInput,
    /// The changelog text could not be parsed.
    InvalidData,
    /// An external step (subprocess, repository access) failed.
    Other,
}

} // verus!
