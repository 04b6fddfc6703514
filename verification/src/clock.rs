//! Timestamps of workflow records.

use vstd::prelude::*;

use crate::failure;
use crate::failure::Failure;

verus! {

pub open spec fn unix_millis(since_epoch: Result<u128, Failure>) -> Result<u64, Seq<char>> {
    match since_epoch {
        Err(cause) => Err(failure::because("system clock precedes Unix epoch"@, cause@)),
        Ok(millis) => if millis > u64::MAX {
            Err("current Unix timestamp does not fit in u64"@)
        } else {
            Ok(millis as u64)
        },
    }
}

/// The current timestamp from the milliseconds that the clock is past the Unix
/// epoch, or from why it is not past it.
pub fn unix_millis_now(since_epoch: Result<u128, Failure>) -> (millis: Result<u64, Failure>)
    ensures
        failure::outcome(millis) == unix_millis(since_epoch),
{
    match since_epoch {
        Err(cause) => Err(
            Failure::caused("system clock precedes Unix epoch".to_owned(), &cause),
        ),
        Ok(millis) => {
            if millis > u64::MAX as u128 {
                Err(Failure::from_text("current Unix timestamp does not fit in u64"))
            } else {
                Ok(millis as u64)
            }
        },
    }
}

} // verus!
