//! Delegations and undelegations, recorded block by block and consumed at
//! the end of the epoch.

use crate::keys::IdentityKey;
use vstd::prelude::*;

verus! {

/// A delegation of stake to a validator.
#[derive(Clone, Copy, Debug)]
pub struct Delegate {
    pub validator_identity: IdentityKey,
    pub epoch_index: u64,
    pub unbonded_amount: u64,
    pub delegation_amount: u64,
}

/// A withdrawal of stake from a validator.
#[derive(Clone, Copy, Debug)]
pub struct Undelegate {
    pub validator_identity: IdentityKey,
    pub epoch_index: u64,
    pub unbonded_amount: u64,
    pub delegation_amount: u64,
}

/// What was delegated and undelegated in one block.
#[derive(Debug)]
pub struct DelegationChanges {
    pub delegations: Vec<Delegate>,
    pub undelegations: Vec<Undelegate>,
}

/// The mathematical value of the changes of one block.
pub struct DelegationChangesView {
    pub delegations: Seq<Delegate>,
    pub undelegations: Seq<Undelegate>,
}

impl DelegationChangesView {
    /// No changes at all.
    pub open spec fn empty() -> DelegationChangesView {
        DelegationChangesView { delegations: Seq::empty(), undelegations: Seq::empty() }
    }
}

impl View for DelegationChanges {
    type V = DelegationChangesView;

    open spec fn view(&self) -> DelegationChangesView {
        DelegationChangesView {
            delegations: self.delegations@,
            undelegations: self.undelegations@,
        }
    }
}

impl DelegationChanges {
    /// No changes at all.
    pub fn new() -> (r: DelegationChanges)
        ensures
            r@ == DelegationChangesView::empty(),
    {
        DelegationChanges { delegations: Vec::new(), undelegations: Vec::new() }
    }
}

impl Clone for DelegationChanges {
    fn clone(&self) -> (r: DelegationChanges)
        ensures
            r@ == self@,
    {
        let mut delegations: Vec<Delegate> = Vec::new();
        let mut i: usize = 0;
        while i < self.delegations.len()
            invariant
                i <= self.delegations@.len(),
                delegations@ == self.delegations@.take(i as int),
            decreases self.delegations@.len() - i,
        {
            delegations.push(self.delegations[i]);
            assert(self.delegations@.take(i as int).push(self.delegations@[i as int])
                =~= self.delegations@.take(i as int + 1));
            i = i + 1;
        }
        assert(self.delegations@.take(i as int) =~= self.delegations@);
        let mut undelegations: Vec<Undelegate> = Vec::new();
        let mut j: usize = 0;
        while j < self.undelegations.len()
            invariant
                j <= self.undelegations@.len(),
                undelegations@ == self.undelegations@.take(j as int),
            decreases self.undelegations@.len() - j,
        {
            undelegations.push(self.undelegations[j]);
            assert(self.undelegations@.take(j as int).push(self.undelegations@[j as int])
                =~= self.undelegations@.take(j as int + 1));
            j = j + 1;
        }
        assert(self.undelegations@.take(j as int) =~= self.undelegations@);
        DelegationChanges { delegations, undelegations }
    }
}

/// The delegation tokens that the listed delegations give to `validator`.
pub open spec fn delegated_to(delegations: Seq<Delegate>, validator: IdentityKey) -> nat
    decreases delegations.len(),
{
    if delegations.len() == 0 {
        0
    } else {
        delegated_to(delegations.drop_last(), validator) + if delegations.last().validator_identity
            == validator {
            delegations.last().delegation_amount as nat
        } else {
            0nat
        }
    }
}

/// The delegation tokens that the listed undelegations take from
/// `validator`.
pub open spec fn undelegated_from(undelegations: Seq<Undelegate>, validator: IdentityKey) -> nat
    decreases undelegations.len(),
{
    if undelegations.len() == 0 {
        0
    } else {
        undelegated_from(undelegations.drop_last(), validator) + if undelegations.last().validator_identity
            == validator {
            undelegations.last().delegation_amount as nat
        } else {
            0nat
        }
    }
}

/// A part of a list of delegations gives no more than the whole list.
pub proof fn lemma_delegated_prefix(delegations: Seq<Delegate>, validator: IdentityKey, n: int)
    requires
        0 <= n <= delegations.len(),
    ensures
        delegated_to(delegations.take(n), validator) <= delegated_to(delegations, validator),
    decreases delegations.len(),
{
    if n < delegations.len() {
        lemma_delegated_prefix(delegations.drop_last(), validator, n);
        assert(delegations.drop_last().take(n) =~= delegations.take(n));
    } else {
        assert(delegations.take(n) =~= delegations);
    }
}

/// A part of a list of undelegations takes no more than the whole list.
pub proof fn lemma_undelegated_prefix(
    undelegations: Seq<Undelegate>,
    validator: IdentityKey,
    n: int,
)
    requires
        0 <= n <= undelegations.len(),
    ensures
        undelegated_from(undelegations.take(n), validator) <= undelegated_from(
            undelegations,
            validator,
        ),
    decreases undelegations.len(),
{
    if n < undelegations.len() {
        lemma_undelegated_prefix(undelegations.drop_last(), validator, n);
        assert(undelegations.drop_last().take(n) =~= undelegations.take(n));
    } else {
        assert(undelegations.take(n) =~= undelegations);
    }
}

/// Adds up what the delegations give to `validator`; `None` where the total
/// is more than `i64::MAX`.
pub fn total_delegated(delegations: &Vec<Delegate>, validator: &IdentityKey) -> (r: Option<u64>)
    ensures
        r == if delegated_to(delegations@, *validator) <= i64::MAX {
            Some(delegated_to(delegations@, *validator) as u64)
        } else {
            None
        },
{
    let mut total: u64 = 0;
    let mut i: usize = 0;
    while i < delegations.len()
        invariant
            i <= delegations@.len(),
            total == delegated_to(delegations@.take(i as int), *validator),
            total <= i64::MAX,
        decreases delegations@.len() - i,
    {
        assert(delegations@.take(i as int + 1).drop_last() =~= delegations@.take(i as int));
        if crate::keys::array_same(&delegations[i].validator_identity.0, &validator.0) {
            let amount: u64 = delegations[i].delegation_amount;
            if amount > 0x7fff_ffff_ffff_ffff - total {
                proof {
                    lemma_delegated_prefix(delegations@, *validator, i as int + 1);
                }
                return None;
            }
            total = total + amount;
        }
        i = i + 1;
    }
    assert(delegations@.take(i as int) =~= delegations@);
    Some(total)
}

/// Adds up what the undelegations take from `validator`; `None` where the
/// total is more than `i64::MAX`.
pub fn total_undelegated(undelegations: &Vec<Undelegate>, validator: &IdentityKey) -> (r: Option<
    u64,
>)
    ensures
        r == if undelegated_from(undelegations@, *validator) <= i64::MAX {
            Some(undelegated_from(undelegations@, *validator) as u64)
        } else {
            None
        },
{
    let mut total: u64 = 0;
    let mut i: usize = 0;
    while i < undelegations.len()
        invariant
            i <= undelegations@.len(),
            total == undelegated_from(undelegations@.take(i as int), *validator),
            total <= i64::MAX,
        decreases undelegations@.len() - i,
    {
        assert(undelegations@.take(i as int + 1).drop_last() =~= undelegations@.take(i as int));
        if crate::keys::array_same(&undelegations[i].validator_identity.0, &validator.0) {
            let amount: u64 = undelegations[i].delegation_amount;
            if amount > 0x7fff_ffff_ffff_ffff - total {
                proof {
                    lemma_undelegated_prefix(undelegations@, *validator, i as int + 1);
                }
                return None;
            }
            total = total + amount;
        }
        i = i + 1;
    }
    assert(undelegations@.take(i as int) =~= undelegations@);
    Some(total)
}

} // verus!
