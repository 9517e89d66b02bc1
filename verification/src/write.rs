//! Write access to the staking data.

use crate::address::{spec_validator_address, validator_address};
use crate::chain::MAX_VOTING_POWER;
use crate::changes::{Delegate, DelegationChanges, DelegationChangesView, Undelegate};
use crate::error::StakingError;
use crate::keys::{ConsensusKey, IdentityKey, PenaltyKey};
use crate::penalty::Penalty;
use crate::rate::{BaseRateData, RateData};
use crate::read::StateReadExt;
use crate::state::{lemma_viewed_insert, MintRequest, StakeView, StakingState};
use crate::uptime::Uptime;
use crate::validator::{Address, BondingState, State, Validator, ValidatorView};
use vstd::prelude::*;

verus! {

/// A token supply after a signed change, if it stays within 64 unsigned
/// bits.
pub open spec fn supply_after(current: u64, change: i64) -> Option<u64> {
    if 0 <= current + change <= u64::MAX {
        Some((current + change) as u64)
    } else {
        None
    }
}

impl StakeView {
    /// The model with a consensus key registered for a validator: the key
    /// leads to the validator, and the key's address leads to the key.
    pub open spec fn registering(self, id: IdentityKey, ck: ConsensusKey) -> StakeView {
        StakeView {
            consensus_key_by_address: self.consensus_key_by_address.insert(
                spec_validator_address(ck),
                ck,
            ),
            identity_by_consensus_key: self.identity_by_consensus_key.insert(ck, id),
            ..self
        }
    }

    /// The penalty bucket of a validator in the current epoch after another
    /// penalty was compounded into it.
    pub open spec fn compounded_bucket(self, id: IdentityKey, penalty: Penalty) -> Penalty {
        let key = PenaltyKey { validator: id, epoch_index: self.current_epoch().index };
        match self.penalties.get(key) {
            Some(recorded) => recorded.spec_compound(penalty),
            None => Penalty(0).spec_compound(penalty),
        }
    }

    /// The model with a penalty compounded into the bucket of the current
    /// epoch.
    pub open spec fn slashing(self, id: IdentityKey, penalty: Penalty) -> StakeView {
        StakeView {
            penalties: self.penalties.insert(
                PenaltyKey { validator: id, epoch_index: self.current_epoch().index },
                self.compounded_bucket(id, penalty),
            ),
            ..self
        }
    }

    /// The model with everything recorded that makes a validator known.
    pub open spec fn with_validator(
        self,
        validator: ValidatorView,
        current_rates: RateData,
        next_rates: RateData,
        state: State,
        bonding_state: BondingState,
        power: u64,
    ) -> StakeView {
        let id = validator.identity_key;
        StakeView {
            validators: self.validators.insert(id, validator),
            current_rates: self.current_rates.insert(id, current_rates),
            next_rates: self.next_rates.insert(id, next_rates),
            states: self.states.insert(id, state),
            powers: self.powers.insert(id, power),
            bonding_states: self.bonding_states.insert(id, bonding_state),
            ..self.registering(id, validator.consensus_key)
        }
    }

    /// The supply of a validator's delegation token; nothing is in supply
    /// before the first change.
    pub open spec fn delegation_supply_of(self, id: IdentityKey) -> u64 {
        match self.delegation_supplies.get(id) {
            Some(supply) => supply,
            None => 0,
        }
    }
}

/// Write access to staking data.
pub trait StateWriteExt: StateReadExt {
    /// Replaces the delegation changes accumulated over the course of this
    /// block.
    fn put_stub_delegation_changes(&mut self, delegation_changes: DelegationChanges)
        requires
            old(self).wf(),
        ensures
            final(self).wf(),
            final(self)@ == (StakeView { pending_changes: delegation_changes@, ..old(self)@ }),
    ;

    /// Adds a delegation to the changes of this block.
    fn stub_push_delegation(&mut self, delegation: Delegate)
        requires
            old(self).wf(),
        ensures
            final(self).wf(),
            final(self)@ == (StakeView {
                pending_changes: DelegationChangesView {
                    delegations: old(self)@.pending_changes.delegations.push(delegation),
                    ..old(self)@.pending_changes
                },
                ..old(self)@
            }),
    ;

    /// Adds an undelegation to the changes of this block.
    fn stub_push_undelegation(&mut self, undelegation: Undelegate)
        requires
            old(self).wf(),
        ensures
            final(self).wf(),
            final(self)@ == (StakeView {
                pending_changes: DelegationChangesView {
                    undelegations: old(self)@.pending_changes.undelegations.push(undelegation),
                    ..old(self)@.pending_changes
                },
                ..old(self)@
            }),
    ;

    /// Records the base rates of the current epoch and of the next.
    fn set_base_rates(&mut self, current: BaseRateData, next: BaseRateData)
        requires
            old(self).wf(),
        ensures
            final(self).wf(),
            final(self)@ == (StakeView {
                current_base_rate: Some(current),
                next_base_rate: Some(next),
                ..old(self)@
            }),
    ;

    /// Records the voting power of a validator. A power above
    /// `MAX_VOTING_POWER` is rejected and nothing is written.
    fn set_validator_power(&mut self, identity_key: &IdentityKey, voting_power: u64) -> (r: Result<
        (),
        StakingError,
    >)
        requires
            old(self).wf(),
        ensures
            final(self).wf(),
            match r {
                Ok(()) => voting_power <= MAX_VOTING_POWER && final(self)@ == (StakeView {
                    powers: old(self)@.powers.insert(*identity_key, voting_power),
                    ..old(self)@
                }),
                Err(e) => e == StakingError::OutOfBoundsVotingPower && voting_power
                    > MAX_VOTING_POWER && final(self)@ == old(self)@,
            },
    ;

    /// Records the rates of a validator for the current epoch and for the
    /// one after it.
    fn set_validator_rates(
        &mut self,
        identity_key: &IdentityKey,
        current_rates: RateData,
        next_rates: RateData,
    )
        requires
            old(self).wf(),
            next_rates.epoch_index == current_rates.epoch_index + 1,
        ensures
            final(self).wf(),
            final(self)@ == (StakeView {
                current_rates: old(self)@.current_rates.insert(*identity_key, current_rates),
                next_rates: old(self)@.next_rates.insert(*identity_key, next_rates),
                ..old(self)@
            }),
    ;

    /// Registers a consensus key for a validator, so that the validator is
    /// found by the key and by the key's address.
    fn register_consensus_key(&mut self, identity_key: &IdentityKey, consensus_key: &ConsensusKey)
        requires
            old(self).wf(),
        ensures
            final(self).wf(),
            final(self)@ == old(self)@.registering(*identity_key, *consensus_key),
    ;

    /// Compounds a penalty into the validator's bucket of the current epoch.
    fn record_slashing_penalty(&mut self, identity_key: &IdentityKey, slashing_penalty: Penalty)
        requires
            old(self).wf(),
            slashing_penalty.wf(),
        ensures
            final(self).wf(),
            final(self)@ == old(self)@.slashing(*identity_key, slashing_penalty),
    ;

    /// Records a new validator, which starts active (at genesis) or
    /// inactive (later), with its rates for this epoch and the next, its
    /// state, power and bonding state. A power above `MAX_VOTING_POWER` is
    /// rejected and nothing is written.
    fn add_validator_inner(
        &mut self,
        validator: Validator,
        current_rates: RateData,
        next_rates: RateData,
        state: State,
        bonding_state: BondingState,
        power: u64,
    ) -> (r: Result<(), StakingError>)
        requires
            old(self).wf(),
            validator.wf(),
            next_rates.epoch_index == current_rates.epoch_index + 1,
            state == State::Active || state == State::Inactive,
        ensures
            final(self).wf(),
            match r {
                Ok(()) => power <= MAX_VOTING_POWER && final(self)@ == old(self)@.with_validator(
                    validator@,
                    current_rates,
                    next_rates,
                    state,
                    bonding_state,
                    power,
                ),
                Err(e) => e == StakingError::OutOfBoundsVotingPower && power > MAX_VOTING_POWER
                    && final(self)@ == old(self)@,
            },
    ;

    /// Records the delegation changes of the block at `height`.
    fn set_delegation_changes(&mut self, height: u64, changes: DelegationChanges)
        requires
            old(self).wf(),
        ensures
            final(self).wf(),
            final(self)@ == (StakeView {
                delegation_changes: old(self)@.delegation_changes.insert(height, changes@),
                ..old(self)@
            }),
    ;

    /// Records the signing record of a validator.
    fn set_validator_uptime(&mut self, identity_key: &IdentityKey, uptime: Uptime)
        requires
            old(self).wf(),
            uptime.wf(),
        ensures
            final(self).wf(),
            final(self)@ == (StakeView {
                uptimes: old(self)@.uptimes.insert(*identity_key, uptime@),
                ..old(self)@
            }),
    ;

    /// Records the bonding state of the delegation pool of a validator.
    fn set_validator_bonding_state(&mut self, identity_key: &IdentityKey, state: BondingState)
        requires
            old(self).wf(),
        ensures
            final(self).wf(),
            final(self)@ == (StakeView {
                bonding_states: old(self)@.bonding_states.insert(*identity_key, state),
                ..old(self)@
            }),
    ;
}

impl StateWriteExt for StakingState {
    fn put_stub_delegation_changes(&mut self, delegation_changes: DelegationChanges) {
        self.pending_changes = delegation_changes;
    }

    fn stub_push_delegation(&mut self, delegation: Delegate) {
        let mut changes = self.stub_delegation_changes();
        changes.delegations.push(delegation);
        self.put_stub_delegation_changes(changes);
    }

    fn stub_push_undelegation(&mut self, undelegation: Undelegate) {
        let mut changes = self.stub_delegation_changes();
        changes.undelegations.push(undelegation);
        self.put_stub_delegation_changes(changes);
    }

    fn set_base_rates(&mut self, current: BaseRateData, next: BaseRateData) {
        self.current_base_rate = Some(current);
        self.next_base_rate = Some(next);
    }

    fn set_validator_power(&mut self, identity_key: &IdentityKey, voting_power: u64) -> (r: Result<
        (),
        StakingError,
    >) {
        if voting_power > MAX_VOTING_POWER {
            return Err(StakingError::OutOfBoundsVotingPower);
        }
        self.powers.put(*identity_key, voting_power);
        Ok(())
    }

    fn set_validator_rates(
        &mut self,
        identity_key: &IdentityKey,
        current_rates: RateData,
        next_rates: RateData,
    ) {
        self.current_rates.put(*identity_key, current_rates);
        self.next_rates.put(*identity_key, next_rates);
    }

    fn register_consensus_key(&mut self, identity_key: &IdentityKey, consensus_key: &ConsensusKey) {
        let address = validator_address(consensus_key);
        self.consensus_key_by_address.put(address, *consensus_key);
        self.identity_by_consensus_key.put(*consensus_key, *identity_key);
    }

    fn record_slashing_penalty(&mut self, identity_key: &IdentityKey, slashing_penalty: Penalty) {
        let current_epoch_index = self.current_epoch().index;
        let current_penalty = match self.penalty_in_epoch(identity_key, current_epoch_index) {
            Some(recorded) => recorded,
            None => Penalty(0),
        };
        let new_penalty = current_penalty.compound(slashing_penalty);
        self.penalties.put(
            PenaltyKey { validator: *identity_key, epoch_index: current_epoch_index },
            new_penalty,
        );
    }

    fn add_validator_inner(
        &mut self,
        validator: Validator,
        current_rates: RateData,
        next_rates: RateData,
        state: State,
        bonding_state: BondingState,
        power: u64,
    ) -> (r: Result<(), StakingError>) {
        if power > MAX_VOTING_POWER {
            return Err(StakingError::OutOfBoundsVotingPower);
        }
        let id = validator.identity_key;
        let consensus_key = validator.consensus_key;
        self.put_validator(validator);
        self.register_consensus_key(&id, &consensus_key);
        self.set_validator_rates(&id, current_rates, next_rates);
        self.put_validator_state(&id, state);
        match self.set_validator_power(&id, power) {
            Ok(()) => {},
            Err(e) => { return Err(e); },
        }
        self.set_validator_bonding_state(&id, bonding_state);
        Ok(())
    }

    fn set_delegation_changes(&mut self, height: u64, changes: DelegationChanges) {
        proof {
            lemma_viewed_insert(self.delegation_changes.map(), height, changes);
        }
        self.delegation_changes.put(height, changes);
    }

    fn set_validator_uptime(&mut self, identity_key: &IdentityKey, uptime: Uptime) {
        proof {
            lemma_viewed_insert(self.uptimes.map(), *identity_key, uptime);
        }
        self.uptimes.put(*identity_key, uptime);
    }

    fn set_validator_bonding_state(&mut self, identity_key: &IdentityKey, state: BondingState) {
        self.bonding_states.put(*identity_key, state);
    }
}

impl StakingState {
    /// Files a validator definition under its identity key.
    pub fn put_validator(&mut self, validator: Validator)
        requires
            old(self).wf(),
            validator.wf(),
        ensures
            final(self).wf(),
            final(self)@ == (StakeView {
                validators: old(self)@.validators.insert(validator.identity_key, validator@),
                ..old(self)@
            }),
    {
        proof {
            lemma_viewed_insert(self.validators.map(), validator.identity_key, validator);
        }
        self.validators.put(validator.identity_key, validator);
        proof {
            self.lemma_roster();
        }
    }

    /// Records the state of a validator as it is given, with none of the
    /// effects of a transition.
    pub fn put_validator_state(&mut self, identity_key: &IdentityKey, state: State)
        requires
            old(self).wf(),
        ensures
            final(self).wf(),
            final(self)@ == (StakeView {
                states: old(self)@.states.insert(*identity_key, state),
                ..old(self)@
            }),
    {
        self.states.put(*identity_key, state);
    }

    /// The supply of the staking token.
    pub fn staking_token_supply(&self) -> (supply: u64)
        ensures
            supply == self@.staking_supply,
    {
        self.staking_supply
    }

    /// The supply of a validator's delegation token, if it ever changed.
    pub fn delegation_token_supply(&self, identity_key: &IdentityKey) -> (supply: Option<u64>)
        requires
            self.wf(),
        ensures
            supply == self@.delegation_supplies.get(*identity_key),
    {
        match self.delegation_supplies.get(identity_key) {
            Some(supply) => Some(*supply),
            None => None,
        }
    }

    /// Changes the supply of the staking token by a signed amount. Fails,
    /// and changes nothing, where the supply would leave its range.
    pub fn update_staking_token_supply(&mut self, change: i64) -> (r: Result<(), StakingError>)
        requires
            old(self).wf(),
        ensures
            final(self).wf(),
            match r {
                Ok(()) => supply_after(old(self)@.staking_supply, change) == Some(
                    final(self)@.staking_supply,
                ) && final(self)@ == (StakeView {
                    staking_supply: final(self)@.staking_supply,
                    ..old(self)@
                }),
                Err(e) => e == StakingError::ArithmeticOverflow && supply_after(
                    old(self)@.staking_supply,
                    change,
                ) is None && final(self)@ == old(self)@,
            },
    {
        match self.staking_supply.checked_add_signed(change) {
            Some(supply) => {
                self.staking_supply = supply;
                Ok(())
            },
            None => Err(StakingError::ArithmeticOverflow),
        }
    }

    /// Changes the supply of a validator's delegation token by a signed
    /// amount. Fails, and changes nothing, where the supply would leave its
    /// range.
    pub fn update_delegation_token_supply(&mut self, identity_key: &IdentityKey, change: i64) -> (r:
        Result<(), StakingError>)
        requires
            old(self).wf(),
        ensures
            final(self).wf(),
            match r {
                Ok(()) => supply_after(old(self)@.delegation_supply_of(*identity_key), change)
                    is Some && final(self)@ == (StakeView {
                    delegation_supplies: old(self)@.delegation_supplies.insert(
                        *identity_key,
                        supply_after(old(self)@.delegation_supply_of(*identity_key), change)->0,
                    ),
                    ..old(self)@
                }),
                Err(e) => e == StakingError::ArithmeticOverflow && supply_after(
                    old(self)@.delegation_supply_of(*identity_key),
                    change,
                ) is None && final(self)@ == old(self)@,
            },
    {
        let current: u64 = match self.delegation_supplies.get(identity_key) {
            Some(supply) => *supply,
            None => 0,
        };
        match current.checked_add_signed(change) {
            Some(supply) => {
                self.delegation_supplies.put(*identity_key, supply);
                Ok(())
            },
            None => Err(StakingError::ArithmeticOverflow),
        }
    }

    /// Asks for `amount` staking tokens to be minted to `destination` as
    /// the commission of a funding stream for the epoch `epoch_index`.
    pub fn mint_note(&mut self, amount: u64, destination: Address, epoch_index: u64)
        requires
            old(self).wf(),
        ensures
            final(self).wf(),
            final(self)@ == (StakeView {
                minted: old(self)@.minted.push(MintRequest { amount, destination, epoch_index }),
                ..old(self)@
            }),
    {
        self.minted.push(MintRequest { amount, destination, epoch_index });
    }

    /// Hands out the mint requests made so far and forgets them.
    pub fn take_minted(&mut self) -> (requests: Vec<MintRequest>)
        requires
            old(self).wf(),
        ensures
            final(self).wf(),
            requests@ == old(self)@.minted,
            final(self)@ == (StakeView { minted: Seq::empty(), ..old(self)@ }),
    {
        let mut requests: Vec<MintRequest> = Vec::new();
        std::mem::swap(&mut self.minted, &mut requests);
        requests
    }
}

} // verus!
