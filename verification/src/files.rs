//! What the permission bits of a file say.

use vstd::prelude::*;

verus! {

/// Whether permission bits allow anyone to execute the file: the owner, the
/// group or the others.
pub open spec fn is_executable(mode: u32) -> bool {
    mode & 0o111 != 0
}

/// Decides [`is_executable`].
pub fn can_execute(mode: u32) -> (r: bool)
    ensures
        r == is_executable(mode),
{
    mode & 0o111 != 0
}

} // verus!
