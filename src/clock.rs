use vstd::prelude::*;

use std::time::{SystemTime, UNIX_EPOCH};

use crate::error::{Operation, TransferError};

verus! {

/// Relies on std's SystemTime::now and duration_since(UNIX_EPOCH): the
/// milliseconds since the epoch, or `None` for a clock set before it.
#[verifier::external_body]
fn now_millis() -> Option<u128> {
    SystemTime::now().duration_since(UNIX_EPOCH).ok().map(|d| d.as_millis())
}

/// The current time in milliseconds since the Unix epoch, used to name
/// archive files. A clock that reads before the epoch is a read failure.
pub fn get_timestamps() -> (r: Result<u128, TransferError>)
    ensures
        r is Err ==> r->Err_0 == (TransferError::Io { operation: Operation::Read }),
{
    match now_millis() {
        Some(ms) => Ok(ms),
        None => Err(TransferError::Io { operation: Operation::Read }),
    }
}

} // verus!
