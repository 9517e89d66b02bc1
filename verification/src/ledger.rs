//! The penalty ledger: one bucket per validator and epoch, and the compound
//! of the buckets over a range of epochs.

use crate::keys::{IdentityKey, PenaltyKey};
use crate::penalty::Penalty;
use vstd::prelude::*;

verus! {

/// The key of the bucket of `validator` in the epoch `epoch`.
pub open spec fn bucket(validator: IdentityKey, epoch: int) -> PenaltyKey {
    PenaltyKey { validator, epoch_index: epoch as u64 }
}

/// The penalties recorded for `validator` in the epochs from `start` up to,
/// but not including, `end`, compounded in the order of the epochs. An epoch
/// without a bucket adds nothing, and so does an empty range.
pub open spec fn compounded_over(
    penalties: Map<PenaltyKey, Penalty>,
    validator: IdentityKey,
    start: int,
    end: int,
) -> Penalty
    decreases end - start,
{
    if end <= start {
        Penalty(0)
    } else {
        let earlier = compounded_over(penalties, validator, start, end - 1);
        let key = bucket(validator, end - 1);
        if penalties.dom().contains(key) {
            earlier.spec_compound(penalties[key])
        } else {
            earlier
        }
    }
}

/// Epochs without a bucket can be left out of the range.
pub proof fn lemma_compounded_over_gap(
    penalties: Map<PenaltyKey, Penalty>,
    validator: IdentityKey,
    start: int,
    middle: int,
    end: int,
)
    requires
        start <= middle <= end,
        forall|e: int| middle <= e < end ==> !penalties.dom().contains(#[trigger] bucket(validator, e)),
    ensures
        compounded_over(penalties, validator, start, end) == compounded_over(
            penalties,
            validator,
            start,
            middle,
        ),
    decreases end - middle,
{
    if middle < end {
        lemma_compounded_over_gap(penalties, validator, start, middle, end - 1);
        assert(!penalties.dom().contains(bucket(validator, end - 1)));
    }
}

} // verus!
