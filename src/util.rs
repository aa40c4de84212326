use vstd::prelude::*;

use crate::error::{Error, ErrorView};
use crate::fs_path::{FsPath, absolute};

verus! {

/// Fails with `PathIsAbsolute` where `path` is absolute.
pub fn assert_relative_path(path: &FsPath) -> (r: Result<(), Error>)
    ensures
        r is Ok <==> !absolute(path@),
        r matches Err(e) ==> e@ == ErrorView::PathIsAbsolute(path@),
{
    if path.is_absolute() {
        return Err(Error::path_is_absolute(path));
    }
    Ok(())
}

} // verus!
