//! The validator state machine: which changes of state are allowed, and
//! what each of them does to the rest of the staking data.

use crate::chain::MAX_VOTING_POWER;
use crate::error::StakingError;
use crate::keys::{ConsensusAddress, IdentityKey};
use crate::rate::{BaseRateData, RateData, RATE_SCALE};
use crate::read::StateReadExt;
use crate::state::{StakeView, StakingState};
use crate::table::Table;
use crate::uptime::{Uptime, UptimeView};
use crate::validator::{BondingState, State, Validator, ValidatorView};
use crate::write::StateWriteExt;
use vstd::prelude::*;

verus! {

/// What a change from one validator state to another amounts to.
#[derive(Clone, Copy, Debug, PartialEq, Eq, Structural)]
pub enum Transition {
    /// Nothing changes.
    NoOp,
    /// The validator enters the active set: its pool becomes bonded and its
    /// uptime is tracked from a fresh window.
    Activate,
    /// The validator leaves the active set of its own accord or by
    /// reselection: its pool begins to unbond.
    BeginUnbonding,
    /// Only the new state is recorded.
    RecordOnly,
    /// The validator is jailed for downtime: it is slashed and its pool
    /// begins to unbond.
    Jail,
    /// The validator is tombstoned for misbehaviour: it is slashed and its
    /// pool is unbonded at once.
    Tombstone,
    /// The change is not allowed.
    Illegal,
}

/// The transition table. Nothing leaves `Tombstoned`; only an inactive
/// validator may become active and only an active one may be jailed; every
/// other validator may be tombstoned; staying inactive, active or disabled
/// is no change.
pub open spec fn spec_transition(cur: State, new: State) -> Transition {
    if cur is Tombstoned {
        Transition::Illegal
    } else if new is Tombstoned {
        Transition::Tombstone
    } else if new is Jailed {
        if cur is Active {
            Transition::Jail
        } else {
            Transition::Illegal
        }
    } else if new is Active {
        if cur is Active {
            Transition::NoOp
        } else if cur is Inactive {
            Transition::Activate
        } else {
            Transition::Illegal
        }
    } else if cur is Active {
        Transition::BeginUnbonding
    } else if cur == new {
        Transition::NoOp
    } else {
        Transition::RecordOnly
    }
}

/// Looks a pair of states up in the transition table.
pub fn transition(cur: State, new: State) -> (t: Transition)
    ensures
        t == spec_transition(cur, new),
{
    match (cur, new) {
        (State::Inactive, State::Inactive) => Transition::NoOp,
        (State::Disabled, State::Disabled) => Transition::NoOp,
        (State::Active, State::Active) => Transition::NoOp,
        (State::Inactive, State::Active) => Transition::Activate,
        (State::Active, State::Inactive) => Transition::BeginUnbonding,
        (State::Active, State::Disabled) => Transition::BeginUnbonding,
        (State::Jailed, State::Inactive) => Transition::RecordOnly,
        (State::Disabled, State::Inactive) => Transition::RecordOnly,
        (State::Inactive, State::Disabled) => Transition::RecordOnly,
        (State::Jailed, State::Disabled) => Transition::RecordOnly,
        (State::Active, State::Jailed) => Transition::Jail,
        (State::Active, State::Tombstoned) => Transition::Tombstone,
        (State::Inactive, State::Tombstoned) => Transition::Tombstone,
        (State::Disabled, State::Tombstoned) => Transition::Tombstone,
        (State::Jailed, State::Tombstoned) => Transition::Tombstone,
        (State::Jailed, State::Active) => Transition::Illegal,
        (State::Disabled, State::Active) => Transition::Illegal,
        (State::Inactive, State::Jailed) => Transition::Illegal,
        (State::Jailed, State::Jailed) => Transition::Illegal,
        (State::Disabled, State::Jailed) => Transition::Illegal,
        (State::Tombstoned, _) => Transition::Illegal,
    }
}

impl StakeView {
    /// The model with the state and the bonding state of a validator set.
    pub open spec fn with_state(self, id: IdentityKey, state: State, bonding_state: BondingState) -> StakeView {
        StakeView {
            bonding_states: self.bonding_states.insert(id, bonding_state),
            states: self.states.insert(id, state),
            ..self
        }
    }

    /// The uptime tracker that a validator gets on entering the active set.
    pub open spec fn fresh_uptime(self) -> UptimeView {
        UptimeView::fresh(self.block_height, self.chain_params.signed_blocks_window_len as nat)
    }

    /// The staking data after a validator recorded in state `cur` was asked
    /// to change to state `new`, or the reason why it cannot.
    pub open spec fn after_transition(self, id: IdentityKey, cur: State, new: State) -> Result<
        StakeView,
        StakingError,
    > {
        match spec_transition(cur, new) {
            Transition::NoOp => Ok(self),
            Transition::Activate => {
                if self.powers.dom().contains(id) {
                    Ok(
                        StakeView {
                            uptimes: self.uptimes.insert(id, self.fresh_uptime()),
                            ..self.with_state(id, State::Active, BondingState::Bonded)
                        },
                    )
                } else {
                    Err(StakingError::MissingInvariantRecord)
                }
            },
            Transition::BeginUnbonding => match self.unbonding_end_epoch_for(id) {
                Ok(unbonding_epoch) => Ok(
                    self.with_state(id, new, BondingState::Unbonding { unbonding_epoch }),
                ),
                Err(e) => Err(e),
            },
            Transition::RecordOnly => Ok(
                StakeView { states: self.states.insert(id, new), ..self },
            ),
            Transition::Jail => match self.full_unbonding_epoch() {
                Ok(unbonding_epoch) => Ok(
                    self.slashing(id, self.chain_params.slashing_penalty_downtime).with_state(
                        id,
                        State::Jailed,
                        BondingState::Unbonding { unbonding_epoch },
                    ),
                ),
                Err(e) => Err(e),
            },
            Transition::Tombstone => Ok(
                self.slashing(id, self.chain_params.slashing_penalty_misbehavior).with_state(
                    id,
                    State::Tombstoned,
                    BondingState::Unbonded,
                ),
            ),
            Transition::Illegal => Err(StakingError::IllegalTransition),
        }
    }

    /// The staking data after a validator was asked to change to state
    /// `new`, whatever state it is recorded in.
    pub open spec fn after_state_change(self, id: IdentityKey, new: State) -> Result<
        StakeView,
        StakingError,
    > {
        match self.states.get(id) {
            Some(cur) => self.after_transition(id, cur, new),
            None => Err(StakingError::MissingInvariantRecord),
        }
    }

    /// The state that a new definition asks a validator in state `cur` to
    /// change to, if any: enabling releases a disabled or jailed validator,
    /// disabling disables any but a tombstoned one.
    pub open spec fn requested_state(cur: State, enabled: bool) -> Option<State> {
        if cur is Tombstoned {
            None
        } else if !enabled {
            Some(State::Disabled)
        } else if cur is Disabled || cur is Jailed {
            Some(State::Inactive)
        } else {
            None
        }
    }

    /// The staking data after the operator of a known validator published a
    /// new definition of it.
    pub open spec fn after_update(self, validator: ValidatorView) -> Result<
        StakeView,
        StakingError,
    > {
        let id = validator.identity_key;
        match self.states.get(id) {
            None => Err(StakingError::MissingInvariantRecord),
            Some(cur) => {
                let changed = match StakeView::requested_state(cur, validator.enabled) {
                    Some(new) => self.after_transition(id, cur, new),
                    None => Ok(self),
                };
                match changed {
                    Ok(s) => Ok(
                        StakeView {
                            validators: s.validators.insert(id, validator),
                            ..s.registering(id, validator.consensus_key)
                        },
                    ),
                    Err(e) => Err(e),
                }
            },
        }
    }

    /// The staking data after evidence of misbehaviour at a consensus
    /// address was processed.
    pub open spec fn after_evidence(self, address: ConsensusAddress) -> Result<
        StakeView,
        StakingError,
    > {
        match self.validator_of_address(address) {
            Some(validator) => self.after_state_change(validator.identity_key, State::Tombstoned),
            None => Err(StakingError::UnknownValidatorEvidence),
        }
    }

    /// The rates that a validator starts with at the epoch `epoch_index`: no
    /// reward yet, and an exchange rate of 1.
    pub open spec fn starting_rate(id: IdentityKey, epoch_index: u64) -> RateData {
        RateData {
            identity_key: id,
            epoch_index,
            validator_reward_rate: 0,
            validator_exchange_rate: RATE_SCALE,
        }
    }

    /// The staking data after a validator was added at genesis: it starts
    /// active and bonded, with the power that its share of the genesis
    /// allocations carries, and with an uptime tracker that starts at height
    /// 0.
    pub open spec fn after_genesis_validator(
        self,
        genesis_allocations: Map<IdentityKey, u64>,
        genesis_base_rate: BaseRateData,
        validator: ValidatorView,
    ) -> Result<StakeView, StakingError> {
        let id = validator.identity_key;
        let tokens = match genesis_allocations.get(id) {
            Some(total) => total,
            None => 0,
        };
        let current = StakeView::starting_rate(id, genesis_base_rate.epoch_index);
        if genesis_base_rate.epoch_index == u64::MAX {
            Err(StakingError::ArithmeticOverflow)
        } else {
            match current.spec_voting_power(tokens, genesis_base_rate) {
                None => Err(StakingError::ArithmeticOverflow),
                Some(power) => if power > MAX_VOTING_POWER {
                    Err(StakingError::OutOfBoundsVotingPower)
                } else {
                    let added = self.with_validator(
                        validator,
                        current,
                        StakeView::starting_rate(id, (genesis_base_rate.epoch_index + 1) as u64),
                        State::Active,
                        BondingState::Bonded,
                        power,
                    );
                    Ok(
                        StakeView {
                            uptimes: added.uptimes.insert(
                                id,
                                UptimeView::fresh(
                                    0,
                                    self.chain_params.signed_blocks_window_len as nat,
                                ),
                            ),
                            ..added
                        },
                    )
                },
            }
        }
    }
}

/// A report of misbehaviour by the validator at a consensus address.
#[derive(Clone, Copy, Debug)]
pub struct Evidence {
    pub address: ConsensusAddress,
    pub height: u64,
}

impl StakingState {
    /// Updates the state of the given validator, performing all necessary
    /// state transitions. Fails, and changes nothing, where the validator
    /// has no recorded state or the transition cannot be made.
    pub fn set_validator_state(&mut self, identity_key: &IdentityKey, new_state: State) -> (r:
        Result<(), StakingError>)
        requires
            old(self).wf(),
        ensures
            final(self).wf(),
            match r {
                Ok(()) => old(self)@.after_state_change(*identity_key, new_state) == Ok::<
                    StakeView,
                    StakingError,
                >(final(self)@),
                Err(e) => old(self)@.after_state_change(*identity_key, new_state) == Err::<
                    StakeView,
                    StakingError,
                >(e) && final(self)@ == old(self)@,
            },
    {
        match self.validator_state(identity_key) {
            Some(cur_state) => self.set_validator_state_inner(identity_key, cur_state, new_state),
            None => Err(StakingError::MissingInvariantRecord),
        }
    }

    /// Makes the transition from `cur_state` to `new_state` for a validator,
    /// with all its effects. Fails, and changes nothing, where the
    /// transition is illegal or a record it needs is missing.
    pub fn set_validator_state_inner(
        &mut self,
        identity_key: &IdentityKey,
        cur_state: State,
        new_state: State,
    ) -> (r: Result<(), StakingError>)
        requires
            old(self).wf(),
        ensures
            final(self).wf(),
            match r {
                Ok(()) => old(self)@.after_transition(*identity_key, cur_state, new_state) == Ok::<
                    StakeView,
                    StakingError,
                >(final(self)@),
                Err(e) => old(self)@.after_transition(*identity_key, cur_state, new_state) == Err::<
                    StakeView,
                    StakingError,
                >(e) && final(self)@ == old(self)@,
            },
    {
        match transition(cur_state, new_state) {
            Transition::NoOp => Ok(()),
            Transition::Activate => {
                // The validator must have a power recorded before it can be
                // announced to the consensus engine.
                if self.validator_power(identity_key).is_none() {
                    return Err(StakingError::MissingInvariantRecord);
                }
                // The validator's delegation pool becomes bonded.
                self.set_validator_bonding_state(identity_key, BondingState::Bonded);
                // Start tracking the validator's uptime with a new uptime
                // tracker, whatever was tracked before.
                let window_len = self.signed_blocks_window_len() as usize;
                let uptime = Uptime::new(self.block_height(), window_len);
                self.set_validator_uptime(identity_key, uptime);
                self.put_validator_state(identity_key, State::Active);
                Ok(())
            },
            Transition::BeginUnbonding => {
                // The validator's delegation pool begins unbonding.
                let unbonding_epoch = match self.current_unbonding_end_epoch_for(identity_key) {
                    Ok(epoch) => epoch,
                    Err(e) => { return Err(e); },
                };
                self.set_validator_bonding_state(
                    identity_key,
                    BondingState::Unbonding { unbonding_epoch },
                );
                self.put_validator_state(identity_key, new_state);
                Ok(())
            },
            Transition::RecordOnly => {
                self.put_validator_state(identity_key, new_state);
                Ok(())
            },
            Transition::Jail => {
                let unbonding_epoch = match self.current_epoch().index.checked_add(
                    self.chain_params().unbonding_epochs,
                ) {
                    Some(epoch) => epoch,
                    None => { return Err(StakingError::ArithmeticOverflow); },
                };
                let penalty = self.chain_params().slashing_penalty_downtime;
                // Record the slashing penalty on this validator.
                self.record_slashing_penalty(identity_key, penalty);
                // The pool begins unbonding. A jailed validator is not
                // unbonded at once, nor at an earlier epoch that its pool
                // may have been due at: it stays accountable for the whole
                // unbonding period.
                self.set_validator_bonding_state(
                    identity_key,
                    BondingState::Unbonding { unbonding_epoch },
                );
                self.put_validator_state(identity_key, State::Jailed);
                Ok(())
            },
            Transition::Tombstone => {
                let penalty = self.chain_params().slashing_penalty_misbehavior;
                // Record the slashing penalty on this validator.
                self.record_slashing_penalty(identity_key, penalty);
                // Whatever its bonding state, the pool is unbonded at once:
                // the largest penalty has already been applied.
                self.set_validator_bonding_state(identity_key, BondingState::Unbonded);
                self.put_validator_state(identity_key, State::Tombstoned);
                Ok(())
            },
            Transition::Illegal => Err(StakingError::IllegalTransition),
        }
    }

    /// Add a validator during genesis, which will start in Active state with
    /// power assigned. `genesis_allocations` holds, for each validator, the
    /// total of the genesis allocations of its delegation token.
    pub fn add_genesis_validator(
        &mut self,
        genesis_allocations: &Table<IdentityKey, u64>,
        genesis_base_rate: &BaseRateData,
        validator: Validator,
    ) -> (r: Result<(), StakingError>)
        requires
            old(self).wf(),
            genesis_allocations.wf(),
            validator.wf(),
        ensures
            final(self).wf(),
            match r {
                Ok(()) => old(self)@.after_genesis_validator(
                    genesis_allocations.map(),
                    *genesis_base_rate,
                    validator@,
                ) == Ok::<StakeView, StakingError>(final(self)@),
                Err(e) => old(self)@.after_genesis_validator(
                    genesis_allocations.map(),
                    *genesis_base_rate,
                    validator@,
                ) == Err::<StakeView, StakingError>(e) && final(self)@ == old(self)@,
            },
    {
        let id = validator.identity_key;
        if genesis_base_rate.epoch_index == u64::MAX {
            return Err(StakingError::ArithmeticOverflow);
        }
        // Delegations need the rates of the next epoch, so both epochs start
        // with no reward and an exchange rate of 1.
        let cur_rate_data = RateData {
            identity_key: id,
            epoch_index: genesis_base_rate.epoch_index,
            validator_reward_rate: 0,
            validator_exchange_rate: 100_000_000,
        };
        let next_rate_data = RateData {
            identity_key: id,
            epoch_index: genesis_base_rate.epoch_index + 1,
            validator_reward_rate: 0,
            validator_exchange_rate: 100_000_000,
        };
        // The genesis allocations of the validator's delegation token
        // decide its initial voting power.
        let total_delegation_tokens: u64 = match genesis_allocations.get(&id) {
            Some(total) => *total,
            None => 0,
        };
        let power = match cur_rate_data.voting_power(total_delegation_tokens, genesis_base_rate) {
            Some(power) => power,
            None => { return Err(StakingError::ArithmeticOverflow); },
        };
        match self.add_validator_inner(
            validator,
            cur_rate_data,
            next_rate_data,
            State::Active,
            BondingState::Bonded,
            power,
        ) {
            Ok(()) => {},
            Err(e) => { return Err(e); },
        }
        // A genesis validator starts active, so its uptime is tracked from
        // the start, as after a transition from inactive to active.
        let window_len = self.signed_blocks_window_len() as usize;
        self.set_validator_uptime(&id, Uptime::new(0, window_len));
        Ok(())
    }

    /// Add a validator after genesis, which will start in Inactive state
    /// with no power assigned.
    pub fn add_validator(
        &mut self,
        validator: Validator,
        cur_rate_data: RateData,
        next_rate_data: RateData,
    ) -> (r: Result<(), StakingError>)
        requires
            old(self).wf(),
            validator.wf(),
            next_rate_data.epoch_index == cur_rate_data.epoch_index + 1,
        ensures
            final(self).wf(),
            r is Ok,
            final(self)@ == old(self)@.with_validator(
                validator@,
                cur_rate_data,
                next_rate_data,
                State::Inactive,
                BondingState::Unbonded,
                0,
            ),
    {
        // No power is reported to the consensus engine for a validator
        // added after genesis until it becomes active.
        self.add_validator_inner(
            validator,
            cur_rate_data,
            next_rate_data,
            State::Inactive,
            BondingState::Unbonded,
            0,
        )
    }

    /// Replaces the definition of a known validator. Enabling a disabled or
    /// jailed validator makes it inactive, disabling makes it disabled; a
    /// rotated consensus key is registered. Fails, and changes nothing,
    /// where the validator has no recorded state or the change of state
    /// fails.
    pub fn update_validator(&mut self, validator: Validator) -> (r: Result<(), StakingError>)
        requires
            old(self).wf(),
            validator.wf(),
        ensures
            final(self).wf(),
            match r {
                Ok(()) => old(self)@.after_update(validator@) == Ok::<StakeView, StakingError>(
                    final(self)@,
                ),
                Err(e) => old(self)@.after_update(validator@) == Err::<StakeView, StakingError>(e)
                    && final(self)@ == old(self)@,
            },
    {
        let id = validator.identity_key;
        let consensus_key = validator.consensus_key;
        let cur_state = match self.validator_state(&id) {
            Some(state) => state,
            None => { return Err(StakingError::MissingInvariantRecord); },
        };
        let requested: Option<State> = match (cur_state, validator.enabled) {
            // The operator has enabled their validator.
            (State::Disabled, true) => Some(State::Inactive),
            // An update to a jailed validator is a request to be released.
            (State::Jailed, true) => Some(State::Inactive),
            // An update to a tombstoned validator changes no state.
            (State::Tombstoned, _) => None,
            // The operator has disabled their validator.
            (_, false) => Some(State::Disabled),
            // The update does not affect the validator's state.
            (_, true) => None,
        };
        match requested {
            Some(new_state) => {
                match self.set_validator_state_inner(&id, cur_state, new_state) {
                    Ok(()) => {},
                    Err(e) => { return Err(e); },
                }
            },
            None => {},
        }
        // The validator may have rotated its consensus key.
        self.register_consensus_key(&id, &consensus_key);
        self.put_validator(validator);
        Ok(())
    }

    /// Tombstones the validator that evidence of misbehaviour names. Fails,
    /// and changes nothing, where no validator is registered at the address
    /// or the validator cannot be tombstoned.
    pub fn process_evidence(&mut self, evidence: &Evidence) -> (r: Result<(), StakingError>)
        requires
            old(self).wf(),
        ensures
            final(self).wf(),
            match r {
                Ok(()) => old(self)@.after_evidence(evidence.address) == Ok::<
                    StakeView,
                    StakingError,
                >(final(self)@),
                Err(e) => old(self)@.after_evidence(evidence.address) == Err::<
                    StakeView,
                    StakingError,
                >(e) && final(self)@ == old(self)@,
            },
    {
        let validator = match self.validator_by_tendermint_address(&evidence.address) {
            Some(validator) => validator,
            None => { return Err(StakingError::UnknownValidatorEvidence); },
        };
        self.set_validator_state(&validator.identity_key, State::Tombstoned)
    }
}

} // verus!
