//! The typed failure signals of the store.

use vstd::prelude::*;

verus! {

/// Why a call on the store failed.
#[derive(Clone, Copy, Debug, PartialEq, Eq, Structural)]
pub enum FsError {
    /// The identifier names no entry, names an entry of the wrong kind for
    /// the call, the name is not bound in the directory, or a directory
    /// refers to an identifier that the store does not hold.
    NotFound,
    /// The offset lies beyond the end of the file (read), or the span that
    /// the call addresses ends beyond what a buffer can hold (write).
    InvalidOffset,
    /// Every identifier has been handed out.
    NoSpace,
}

} // verus!
