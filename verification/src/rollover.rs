//! The end of an epoch for one validator: its rates roll forward, the token
//! supplies follow the delegations of the epoch, its voting power is
//! measured anew and its commission is paid.

use crate::chain::MAX_VOTING_POWER;
use crate::changes::{
    delegated_to, total_delegated, total_undelegated, undelegated_from, Delegate, Undelegate,
};
use crate::error::StakingError;
use crate::keys::IdentityKey;
use crate::ledger::bucket;
use crate::penalty::Penalty;
use crate::rate::{BaseRateData, RateData};
use crate::read::StateReadExt;
use crate::state::{MintRequest, StakeView, StakingState};
use crate::validator::{copy_streams, FundingStream, State};
use crate::write::{supply_after, StateWriteExt};
use vstd::prelude::*;

verus! {

/// The mint requests that pay the commission of an epoch to the funding
/// streams of a validator, in the order of the streams; `None` where a
/// payment cannot be computed.
pub open spec fn commission_notes(
    streams: Seq<FundingStream>,
    supply: u64,
    next_base_rate: BaseRateData,
    current_base_rate: BaseRateData,
    epoch_index: u64,
) -> Option<Seq<MintRequest>>
    decreases streams.len(),
{
    if streams.len() == 0 {
        Some(Seq::empty())
    } else {
        match (
            commission_notes(
                streams.drop_last(),
                supply,
                next_base_rate,
                current_base_rate,
                epoch_index,
            ),
            streams.last().spec_reward_amount(supply, next_base_rate, current_base_rate),
        ) {
            (Some(notes), Some(amount)) => Some(
                notes.push(
                    MintRequest { amount, destination: streams.last().address, epoch_index },
                ),
            ),
            _ => None,
        }
    }
}

/// Where a part of the funding streams cannot be paid, the whole cannot.
pub proof fn lemma_commission_notes_prefix(
    streams: Seq<FundingStream>,
    supply: u64,
    next_base_rate: BaseRateData,
    current_base_rate: BaseRateData,
    epoch_index: u64,
    n: int,
)
    requires
        0 <= n <= streams.len(),
        commission_notes(streams.take(n), supply, next_base_rate, current_base_rate, epoch_index)
            is None,
    ensures
        commission_notes(streams, supply, next_base_rate, current_base_rate, epoch_index) is None,
    decreases streams.len(),
{
    if n < streams.len() {
        assert(streams.drop_last().take(n) =~= streams.take(n));
        lemma_commission_notes_prefix(
            streams.drop_last(),
            supply,
            next_base_rate,
            current_base_rate,
            epoch_index,
            n,
        );
    } else {
        assert(streams.take(n) =~= streams);
    }
}

/// Computes the mint requests for the commission of an epoch.
pub fn commission_for(
    streams: &Vec<FundingStream>,
    supply: u64,
    next_base_rate: &BaseRateData,
    current_base_rate: &BaseRateData,
    epoch_index: u64,
) -> (r: Option<Vec<MintRequest>>)
    requires
        current_base_rate.epoch_index + 1 == next_base_rate.epoch_index,
    ensures
        crate::state::optional_seq(r) == commission_notes(
            streams@,
            supply,
            *next_base_rate,
            *current_base_rate,
            epoch_index,
        ),
{
    let mut notes: Vec<MintRequest> = Vec::new();
    let mut i: usize = 0;
    while i < streams.len()
        invariant
            i <= streams@.len(),
            current_base_rate.epoch_index + 1 == next_base_rate.epoch_index,
            commission_notes(
                streams@.take(i as int),
                supply,
                *next_base_rate,
                *current_base_rate,
                epoch_index,
            ) == Some(notes@),
        decreases streams@.len() - i,
    {
        assert(streams@.take(i as int + 1).drop_last() =~= streams@.take(i as int));
        match streams[i].reward_amount(supply, next_base_rate, current_base_rate) {
            Some(amount) => {
                notes.push(MintRequest { amount, destination: streams[i].address, epoch_index });
            },
            None => {
                proof {
                    lemma_commission_notes_prefix(
                        streams@,
                        supply,
                        *next_base_rate,
                        *current_base_rate,
                        epoch_index,
                        i as int + 1,
                    );
                }
                return None;
            },
        }
        i = i + 1;
    }
    assert(streams@.take(i as int) =~= streams@);
    Some(notes)
}

/// What the end of an epoch changes for one validator.
pub struct EpochOutcome {
    pub current_rate: RateData,
    pub next_rate: RateData,
    pub delegation_supply: u64,
    pub staking_supply: u64,
    pub power: u64,
    pub notes: Seq<MintRequest>,
}

/// The net delegation of an epoch in staking tokens at an exchange rate, as
/// a change of the staking token supply: delegated stake leaves the supply,
/// undelegated stake returns to it. `None` where it does not fit 64 signed
/// bits.
pub open spec fn staking_change(rate: RateData, delegated: int, undelegated: int) -> Option<i64> {
    let delta = delegated - undelegated;
    let size = if delta >= 0 {
        delta
    } else {
        -delta
    };
    if 0 <= delegated <= i64::MAX && 0 <= undelegated <= i64::MAX {
        match rate.spec_unbonded_amount(size as u64) {
            Some(amount) => if amount <= i64::MAX {
                Some(
                    if delta >= 0 {
                        (-amount) as i64
                    } else {
                        amount as i64
                    },
                )
            } else {
                None
            },
            None => None,
        }
    } else {
        None
    }
}

impl StakeView {
    /// What the end of the epoch `epoch_index` changes for the validator
    /// `id`, given the base rates of the two epochs that follow and the
    /// delegations and undelegations of the epoch.
    ///
    /// The rates recorded for the next epoch, less the penalty of the ending
    /// epoch, become the current rates; the next rates follow from them, and
    /// must be those of the epoch after next. The supply of the validator's
    /// delegation token changes by the net delegation, that of the staking
    /// token by its worth at the new current rate, in the other direction.
    /// The voting power is that of the new supply; an active validator's
    /// funding streams are paid.
    pub open spec fn epoch_outcome(
        self,
        id: IdentityKey,
        epoch_index: u64,
        current_base_rate: BaseRateData,
        next_base_rate: BaseRateData,
        delegations: Seq<Delegate>,
        undelegations: Seq<Undelegate>,
    ) -> Result<EpochOutcome, StakingError> {
        if !self.next_rates.dom().contains(id) || !self.states.dom().contains(id)
            || !self.validators.dom().contains(id) {
            Err(StakingError::MissingInvariantRecord)
        } else {
            let penalty = match self.penalties.get(bucket(id, epoch_index as int)) {
                Some(p) => p,
                None => Penalty(0),
            };
            let current_rate = self.next_rates[id].spec_slash(penalty);
            let state = self.states[id];
            let streams = self.validators[id].funding_streams;
            let delegated = delegated_to(delegations, id);
            let undelegated = undelegated_from(undelegations, id);
            match current_rate.spec_next(next_base_rate, streams, state) {
                None => Err(StakingError::ArithmeticOverflow),
                Some(next_rate) => if next_rate.epoch_index != epoch_index + 2 {
                    Err(StakingError::EpochMismatch)
                } else {
                    match staking_change(current_rate, delegated as int, undelegated as int) {
                        None => Err(StakingError::ArithmeticOverflow),
                        Some(change) => match (
                            supply_after(
                                self.delegation_supply_of(id),
                                (delegated - undelegated) as i64,
                            ),
                            supply_after(self.staking_supply, change),
                        ) {
                            (Some(delegation_supply), Some(staking_supply)) => {
                                match current_rate.spec_voting_power(
                                    delegation_supply,
                                    current_base_rate,
                                ) {
                                    None => Err(StakingError::ArithmeticOverflow),
                                    Some(power) => if power > MAX_VOTING_POWER {
                                        Err(StakingError::OutOfBoundsVotingPower)
                                    } else if state is Active {
                                        match commission_notes(
                                            streams,
                                            delegation_supply,
                                            next_base_rate,
                                            current_base_rate,
                                            epoch_index,
                                        ) {
                                            None => Err(StakingError::ArithmeticOverflow),
                                            Some(notes) => Ok(
                                                EpochOutcome {
                                                    current_rate,
                                                    next_rate,
                                                    delegation_supply,
                                                    staking_supply,
                                                    power,
                                                    notes,
                                                },
                                            ),
                                        }
                                    } else {
                                        Ok(
                                            EpochOutcome {
                                                current_rate,
                                                next_rate,
                                                delegation_supply,
                                                staking_supply,
                                                power,
                                                notes: Seq::empty(),
                                            },
                                        )
                                    },
                                }
                            },
                            _ => Err(StakingError::ArithmeticOverflow),
                        },
                    }
                },
            }
        }
    }

    /// The staking data after the end of an epoch was processed for one
    /// validator.
    pub open spec fn after_validator_epoch(
        self,
        id: IdentityKey,
        epoch_index: u64,
        current_base_rate: BaseRateData,
        next_base_rate: BaseRateData,
        delegations: Seq<Delegate>,
        undelegations: Seq<Undelegate>,
    ) -> Result<StakeView, StakingError> {
        match self.epoch_outcome(
            id,
            epoch_index,
            current_base_rate,
            next_base_rate,
            delegations,
            undelegations,
        ) {
            Ok(outcome) => Ok(
                StakeView {
                    delegation_supplies: self.delegation_supplies.insert(
                        id,
                        outcome.delegation_supply,
                    ),
                    staking_supply: outcome.staking_supply,
                    current_rates: self.current_rates.insert(id, outcome.current_rate),
                    next_rates: self.next_rates.insert(id, outcome.next_rate),
                    powers: self.powers.insert(id, outcome.power),
                    minted: self.minted + outcome.notes,
                    ..self
                },
            ),
            Err(e) => Err(e),
        }
    }
}

impl StakingState {
    /// Adds mint requests to those made so far.
    pub fn mint_all(&mut self, notes: Vec<MintRequest>)
        requires
            old(self).wf(),
        ensures
            final(self).wf(),
            final(self)@ == (StakeView { minted: old(self)@.minted + notes@, ..old(self)@ }),
    {
        let mut notes = notes;
        self.minted.append(&mut notes);
    }

    /// Processes the end of the epoch `epoch_index` for one validator.
    /// Fails, and changes nothing, where a record of the validator is
    /// missing, its next rates are not those of the epoch after next, or a
    /// result leaves its range.
    pub fn roll_validator(
        &mut self,
        id: &IdentityKey,
        epoch_index: u64,
        current_base_rate: &BaseRateData,
        next_base_rate: &BaseRateData,
        delegations: &Vec<Delegate>,
        undelegations: &Vec<Undelegate>,
    ) -> (r: Result<(), StakingError>)
        requires
            old(self).wf(),
            current_base_rate.epoch_index + 1 == next_base_rate.epoch_index,
        ensures
            final(self).wf(),
            match r {
                Ok(()) => old(self)@.after_validator_epoch(
                    *id,
                    epoch_index,
                    *current_base_rate,
                    *next_base_rate,
                    delegations@,
                    undelegations@,
                ) == Ok::<StakeView, StakingError>(final(self)@),
                Err(e) => old(self)@.after_validator_epoch(
                    *id,
                    epoch_index,
                    *current_base_rate,
                    *next_base_rate,
                    delegations@,
                    undelegations@,
                ) == Err::<StakeView, StakingError>(e) && final(self)@ == old(self)@,
            },
    {
        // The old epoch's "next rate" is now the "current rate"...
        let old_next_rate = match self.next_validator_rate(id) {
            Some(rate) => rate,
            None => { return Err(StakingError::MissingInvariantRecord); },
        };
        let validator_state = match self.validator_state(id) {
            Some(state) => state,
            None => { return Err(StakingError::MissingInvariantRecord); },
        };
        let funding_streams = match self.validators.get(id) {
            Some(validator) => copy_streams(&validator.funding_streams),
            None => { return Err(StakingError::MissingInvariantRecord); },
        };
        // ... as soon as we apply any penalties recorded in the previous
        // epoch.
        let penalty = match self.penalty_in_epoch(id, epoch_index) {
            Some(penalty) => penalty,
            None => Penalty(0),
        };
        let current_rate = old_next_rate.slash(penalty);
        let next_rate = match current_rate.next(next_base_rate, &funding_streams, validator_state) {
            Some(rate) => rate,
            None => { return Err(StakingError::ArithmeticOverflow); },
        };
        if epoch_index > u64::MAX - 2 || next_rate.epoch_index != epoch_index + 2 {
            return Err(StakingError::EpochMismatch);
        }
        let total_delegations = match total_delegated(delegations, id) {
            Some(total) => total,
            None => { return Err(StakingError::ArithmeticOverflow); },
        };
        let total_undelegations = match total_undelegated(undelegations, id) {
            Some(total) => total,
            None => { return Err(StakingError::ArithmeticOverflow); },
        };
        let delegation_delta: i64 = (total_delegations as i64) - (total_undelegations as i64);
        let delta_size: u64 = if total_delegations >= total_undelegations {
            total_delegations - total_undelegations
        } else {
            total_undelegations - total_delegations
        };
        let abs_unbonded_amount = match current_rate.unbonded_amount(delta_size) {
            Some(amount) => amount,
            None => { return Err(StakingError::ArithmeticOverflow); },
        };
        if abs_unbonded_amount > 0x7fff_ffff_ffff_ffff {
            return Err(StakingError::ArithmeticOverflow);
        }
        let staking_delta: i64 = if delegation_delta >= 0 {
            // Net delegation: the unbonded amount leaves the staking token
            // supply.
            -(abs_unbonded_amount as i64)
        } else {
            // Net undelegation: the unbonded amount returns to it.
            abs_unbonded_amount as i64
        };
        let current_delegation_supply: u64 = match self.delegation_token_supply(id) {
            Some(supply) => supply,
            None => 0,
        };
        let delegation_token_supply = match current_delegation_supply.checked_add_signed(
            delegation_delta,
        ) {
            Some(supply) => supply,
            None => { return Err(StakingError::ArithmeticOverflow); },
        };
        if self.staking_token_supply().checked_add_signed(staking_delta).is_none() {
            return Err(StakingError::ArithmeticOverflow);
        }
        // Calculate the voting power in the newly beginning epoch.
        let voting_power = match current_rate.voting_power(
            delegation_token_supply,
            current_base_rate,
        ) {
            Some(power) => power,
            None => { return Err(StakingError::ArithmeticOverflow); },
        };
        if voting_power > MAX_VOTING_POWER {
            return Err(StakingError::OutOfBoundsVotingPower);
        }
        // Only Active validators produce commission rewards. The validator
        // may drop out of the active set in the next epoch, but the
        // commission for the ending epoch, in which it was active, is still
        // paid.
        let notes: Vec<MintRequest> = if validator_state == State::Active {
            match commission_for(
                &funding_streams,
                delegation_token_supply,
                next_base_rate,
                current_base_rate,
                epoch_index,
            ) {
                Some(notes) => notes,
                None => { return Err(StakingError::ArithmeticOverflow); },
            }
        } else {
            Vec::new()
        };
        // Everything is known: update the supplies, the rates and the power,
        // and ask for the commission to be minted.
        match self.update_delegation_token_supply(id, delegation_delta) {
            Ok(()) => {},
            Err(e) => { return Err(e); },
        }
        match self.update_staking_token_supply(staking_delta) {
            Ok(()) => {},
            Err(e) => { return Err(e); },
        }
        self.set_validator_rates(id, current_rate, next_rate);
        match self.set_validator_power(id, voting_power) {
            Ok(()) => {},
            Err(e) => { return Err(e); },
        }
        self.mint_all(notes);
        Ok(())
    }
}

} // verus!
