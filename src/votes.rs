use vstd::prelude::*;
use crate::error::StoreError;

verus! {

/// The tally change when a voter casts `is_upvote` over the vote `existing`
/// they hold on the same target (none, up or down).
pub open spec fn vote_delta_spec(existing: Option<bool>, is_upvote: bool) -> Result<i32, StoreError> {
    match existing {
        None => Ok(if is_upvote { 1i32 } else { -1i32 }),
        Some(up) => if up == is_upvote {
            Err(StoreError::Conflict)
        } else if is_upvote {
            Ok(2i32)
        } else {
            Ok(-2i32)
        },
    }
}

/// The vote state machine: a first vote moves the tally by one, a changed
/// vote by two, and repeating the stored vote is refused.
pub fn vote_delta(existing: Option<bool>, is_upvote: bool) -> (r: Result<i32, StoreError>)
    ensures
        r == vote_delta_spec(existing, is_upvote),
{
    match existing {
        None => if is_upvote {
            Ok(1)
        } else {
            Ok(-1)
        },
        Some(up) => if up == is_upvote {
            Err(StoreError::Conflict)
        } else if is_upvote {
            Ok(2)
        } else {
            Ok(-2)
        },
    }
}

/// Casting the direction already stored is refused with a conflict.
pub proof fn lemma_repeat_vote_refused(existing: bool)
    ensures
        vote_delta_spec(Some(existing), existing) == Err::<i32, StoreError>(StoreError::Conflict),
{
}

/// Casting up and then down on one target: the tally goes from `t0` to
/// `t0 + 1` and then to `t0 - 1`.
pub proof fn lemma_up_then_down(t0: int)
    ensures
        vote_delta_spec(None, true) matches Ok(d1) && vote_delta_spec(Some(true), false) matches Ok(
            d2,
        ) && t0 + d1 == t0 + 1 && t0 + d1 + d2 == t0 - 1,
{
}

} // verus!
