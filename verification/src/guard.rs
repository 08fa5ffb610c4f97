//! The safety guard: a scaffold never touches a destination that exists.

use vstd::prelude::*;
use crate::error::{ErrorModel, ScaffoldError};

verus! {

/// Decides whether the scaffold may go on, given whether anything, file or
/// directory, is found at the destination path.  The guard itself changes
/// nothing.
pub fn check_destination(exists: bool) -> (verdict: Result<(), ScaffoldError>)
    ensures
        verdict is Ok <==> !exists,
        verdict matches Err(e) ==> e@ == ErrorModel::AlreadyExists,
{
    if exists {
        Err(ScaffoldError::AlreadyExists)
    } else {
        Ok(())
    }
}

} // verus!
