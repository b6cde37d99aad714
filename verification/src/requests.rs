//! Numbers that tell requests apart. An answer is taken only where its request is the one still
//! awaited, so that a superseded request never lands.

use vstd::prelude::*;

verus! {

/// The number behind `number`.
pub open spec fn following(number: u64) -> u64 {
    if number == u64::MAX {
        0
    } else {
        (number + 1) as u64
    }
}

/// Take the next number.
pub(crate) fn take_number(next: &mut u64) -> (r: u64)
    ensures
        r == *old(next),
        *final(next) == following(*old(next)),
{
    let r = *next;
    *next = if r == u64::MAX {
        0
    } else {
        r + 1
    };
    r
}

/// How requests are told apart: one that was made carries the next number and is the one awaited
/// from now on; where none was made, `kept` is still awaited.
pub open spec fn numbered(
    next_before: u64,
    next_after: u64,
    made: Option<u64>,
    awaited: Option<u64>,
    kept: Option<u64>,
) -> bool {
    match made {
        Some(number) => {
            &&& number == next_before
            &&& awaited == made
            &&& next_after == following(next_before)
        },
        None => awaited == kept && next_after == next_before,
    }
}

/// Once another request is made, or its own is given up, an earlier request is never awaited again.
/// Numbers run on until they are used up.
pub proof fn law_superseded_requests_are_not_awaited(
    next_before: u64,
    next_after: u64,
    made: Option<u64>,
    awaited: Option<u64>,
    number: u64,
)
    requires
        number < next_before,
        numbered(next_before, next_after, made, awaited, None),
    ensures
        awaited != Some(number),
        next_before < u64::MAX ==> number < next_after,
{
}

} // verus!
