//! Screening of candidate addresses: no request is spent on an address
//! that cannot be reached from outside.

use vstd::prelude::*;
use crate::ip::IpLiteral;
use crate::ndhcp::address::{is_public, spec_kind};
use crate::ndhcp::manager::{ObserverError, Outcome};

verus! {

/// What screening makes of a candidate: the candidate itself where it is
/// public, and else the failure that stands in for the observer's.
pub open spec fn spec_screen(candidate: IpLiteral) -> Outcome {
    if spec_kind(candidate) is Public {
        Ok(candidate)
    } else {
        Err(ObserverError::NonPublic(candidate))
    }
}

/// Screens a candidate address before an observer is asked about it. A
/// candidate that is not public is turned into a failure, which is recorded
/// like the failure of an observer and adds to no tally.
pub fn screen(candidate: IpLiteral) -> (outcome: Outcome)
    ensures
        outcome == spec_screen(candidate),
{
    if is_public(candidate) {
        Ok(candidate)
    } else {
        Err(ObserverError::NonPublic(candidate))
    }
}

} // verus!
