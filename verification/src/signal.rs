//! The signals that end the program.

use vstd::prelude::*;
use vstd::string::*;

use crate::error::AppError;

verus! {

/// What installing a handler for the signal called `name` comes to. `previous` is the return
/// value of the call: all ones if it failed.
pub fn register_signal(name: &str, previous: usize) -> (r: Result<(), AppError>)
    ensures
        previous != usize::MAX ==> r == Ok::<(), AppError>(()),
        previous == usize::MAX ==> (r matches Err(AppError::Signal(s)) && s@ == name@),
{
    if previous == usize::MAX {
        Err(AppError::Signal(String::from_str(name)))
    } else {
        Ok(())
    }
}

} // verus!
