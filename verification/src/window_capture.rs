//! The window-capture test entry point.
use vstd::prelude::*;
use crate::error::{CustomError, Error};

verus! {

/// Finishes the window-capture test run whose capture step reported
/// `capture_outcome` (an error code on failure): the run succeeds once the
/// capture did; a failed capture is not accepted, as the run stops on it.
pub fn test_window_capture_main(capture_outcome: Result<(), i32>) -> (r: Result<(), CustomError>)
    requires
        capture_outcome is Ok,
    ensures
        r is Ok,
{
    match capture_outcome {
        Ok(()) => Ok(()),
        Err(_) => Err(CustomError::CUSTOM(Error::Unknown)),
    }
}

} // verus!
