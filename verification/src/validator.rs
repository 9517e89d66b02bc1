//! Validators: their definition, operational state and bonding state.

use crate::keys::{ConsensusKey, IdentityKey};
use crate::rate::RateData;
use vstd::prelude::*;

verus! {

/// One hundred percent in basis points.
pub const BPS_WHOLE: u64 = 10_000;

/// The operational state of a validator.
#[derive(Clone, Copy, Debug, PartialEq, Eq, Structural)]
pub enum State {
    /// Registered, but not in the active set.
    Inactive,
    /// In the active set: it votes, earns rewards and is tracked for uptime.
    Active,
    /// Switched off by its operator.
    Disabled,
    /// Removed from the active set for missing too many blocks.
    Jailed,
    /// Permanently removed for misbehaviour.
    Tombstoned,
}

/// Whether the delegation pool of a validator can be withdrawn.
#[derive(Clone, Copy, Debug, PartialEq, Eq, Structural)]
pub enum BondingState {
    /// The pool is locked.
    Bonded,
    /// The pool is draining and is released at `unbonding_epoch`.
    Unbonding { unbonding_epoch: u64 },
    /// The pool is free.
    Unbonded,
}

/// The address that receives the payments of a funding stream.
#[derive(Clone, Copy, Debug)]
pub struct Address(pub [u8; 80]);

/// A share of a validator's rewards, in basis points, paid to an address.
#[derive(Clone, Copy, Debug)]
pub struct FundingStream {
    pub address: Address,
    pub rate_bps: u16,
}

/// The commission that a list of funding streams takes in total, in basis
/// points.
pub open spec fn commission_bps(streams: Seq<FundingStream>) -> nat
    decreases streams.len(),
{
    if streams.len() == 0 {
        0
    } else {
        commission_bps(streams.drop_last()) + streams.last().rate_bps as nat
    }
}

/// A part of a list of funding streams takes no more than the whole list.
pub proof fn lemma_commission_prefix(streams: Seq<FundingStream>, n: int)
    requires
        0 <= n <= streams.len(),
    ensures
        commission_bps(streams.take(n)) <= commission_bps(streams),
    decreases streams.len(),
{
    if n < streams.len() {
        lemma_commission_prefix(streams.drop_last(), n);
        assert(streams.drop_last().take(n) =~= streams.take(n));
    } else {
        assert(streams.take(n) =~= streams);
    }
}

/// Whether the funding streams take no more than the whole reward.
pub fn commission_within_whole(streams: &Vec<FundingStream>) -> (r: bool)
    ensures
        r == (commission_bps(streams@) <= BPS_WHOLE),
{
    let mut total: u64 = 0;
    let mut i: usize = 0;
    while i < streams.len()
        invariant
            i <= streams@.len(),
            total == commission_bps(streams@.take(i as int)),
            total <= BPS_WHOLE,
        decreases streams@.len() - i,
    {
        assert(streams@.take(i as int + 1).drop_last() =~= streams@.take(i as int));
        total = total + streams[i].rate_bps as u64;
        i = i + 1;
        if total > BPS_WHOLE {
            proof {
                lemma_commission_prefix(streams@, i as int);
            }
            return false;
        }
    }
    assert(streams@.take(i as int) =~= streams@);
    true
}

/// The total commission of funding streams that take no more than the
/// whole reward.
pub fn total_commission_bps(streams: &Vec<FundingStream>) -> (total: u64)
    requires
        commission_bps(streams@) <= BPS_WHOLE,
    ensures
        total == commission_bps(streams@),
{
    let mut total: u64 = 0;
    let mut i: usize = 0;
    while i < streams.len()
        invariant
            i <= streams@.len(),
            commission_bps(streams@) <= BPS_WHOLE,
            total == commission_bps(streams@.take(i as int)),
            total <= BPS_WHOLE,
        decreases streams@.len() - i,
    {
        assert(streams@.take(i as int + 1).drop_last() =~= streams@.take(i as int));
        proof {
            lemma_commission_prefix(streams@, i as int + 1);
        }
        total = total + streams[i].rate_bps as u64;
        i = i + 1;
    }
    assert(streams@.take(i as int) =~= streams@);
    total
}

/// The definition of a validator, as its operator publishes it.
#[derive(Debug)]
pub struct Validator {
    pub identity_key: IdentityKey,
    pub consensus_key: ConsensusKey,
    pub funding_streams: Vec<FundingStream>,
    pub enabled: bool,
}

/// The mathematical value of a validator definition.
pub struct ValidatorView {
    pub identity_key: IdentityKey,
    pub consensus_key: ConsensusKey,
    pub funding_streams: Seq<FundingStream>,
    pub enabled: bool,
}

impl ValidatorView {
    /// The funding streams take no more than the whole reward.
    pub open spec fn wf(self) -> bool {
        commission_bps(self.funding_streams) <= BPS_WHOLE
    }
}

impl View for Validator {
    type V = ValidatorView;

    open spec fn view(&self) -> ValidatorView {
        ValidatorView {
            identity_key: self.identity_key,
            consensus_key: self.consensus_key,
            funding_streams: self.funding_streams@,
            enabled: self.enabled,
        }
    }
}

/// Copies a list of funding streams.
pub fn copy_streams(streams: &Vec<FundingStream>) -> (copy: Vec<FundingStream>)
    ensures
        copy@ == streams@,
{
    let mut copy: Vec<FundingStream> = Vec::new();
    let mut i: usize = 0;
    while i < streams.len()
        invariant
            i <= streams@.len(),
            copy@ == streams@.take(i as int),
        decreases streams@.len() - i,
    {
        copy.push(streams[i]);
        assert(streams@.take(i as int).push(streams@[i as int]) =~= streams@.take(i as int + 1));
        i = i + 1;
    }
    assert(streams@.take(i as int) =~= streams@);
    copy
}

impl Validator {
    /// The funding streams take no more than the whole reward.
    pub open spec fn wf(&self) -> bool {
        self@.wf()
    }

    /// A validator definition, unless its funding streams would take more
    /// than the whole reward.
    pub fn new(
        identity_key: IdentityKey,
        consensus_key: ConsensusKey,
        funding_streams: Vec<FundingStream>,
        enabled: bool,
    ) -> (r: Option<Validator>)
        ensures
            match r {
                Some(v) => v@ == (ValidatorView {
                    identity_key,
                    consensus_key,
                    funding_streams: funding_streams@,
                    enabled,
                }) && v.wf(),
                None => commission_bps(funding_streams@) > BPS_WHOLE,
            },
    {
        if commission_within_whole(&funding_streams) {
            Some(Validator { identity_key, consensus_key, funding_streams, enabled })
        } else {
            None
        }
    }
}

impl Clone for Validator {
    fn clone(&self) -> (r: Validator)
        ensures
            r@ == self@,
    {
        Validator {
            identity_key: self.identity_key,
            consensus_key: self.consensus_key,
            funding_streams: copy_streams(&self.funding_streams),
            enabled: self.enabled,
        }
    }
}

/// The state, power and bonding state of a validator, read together.
#[derive(Clone, Copy, Debug)]
pub struct Status {
    pub identity_key: IdentityKey,
    pub state: State,
    pub voting_power: u64,
    pub bonding_state: BondingState,
}

/// Everything the chain records about a validator, read together.
#[derive(Debug)]
pub struct Info {
    pub validator: Validator,
    pub status: Status,
    pub rate_data: RateData,
}

} // verus!
