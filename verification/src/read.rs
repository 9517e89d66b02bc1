//! Read access to the staking data.

use crate::changes::DelegationChanges;
use crate::error::StakingError;
use crate::keys::{ConsensusAddress, ConsensusKey, IdentityKey, PenaltyKey, TableKey};
use crate::ledger::{bucket, compounded_over, lemma_compounded_over_gap};
use crate::penalty::{lemma_compound_bounds, Penalty};
use crate::rate::{BaseRateData, RateData};
use crate::state::{StakeView, StakingState};
use crate::table::ascending;
use crate::uptime::Uptime;
use crate::validator::{BondingState, Info, State, Status, Validator, ValidatorView};
use vstd::prelude::*;

verus! {

/// The view of an optional value.
pub open spec fn viewed_option<V: View>(value: Option<V>) -> Option<V::V> {
    match value {
        Some(v) => Some(v@),
        None => None,
    }
}

/// The mathematical value of everything recorded about a validator.
pub struct InfoView {
    pub validator: ValidatorView,
    pub status: Status,
    pub rate_data: RateData,
}

impl View for Info {
    type V = InfoView;

    open spec fn view(&self) -> InfoView {
        InfoView { validator: self.validator@, status: self.status, rate_data: self.rate_data }
    }
}

impl StakeView {
    /// The state, power and bonding state of a validator, where all three
    /// are recorded.
    pub open spec fn status_of(self, id: IdentityKey) -> Option<Status> {
        if self.states.dom().contains(id) && self.powers.dom().contains(id)
            && self.bonding_states.dom().contains(id) {
            Some(
                Status {
                    identity_key: id,
                    state: self.states[id],
                    voting_power: self.powers[id],
                    bonding_state: self.bonding_states[id],
                },
            )
        } else {
            None
        }
    }

    /// The definition, the status and the next rates of a validator, where
    /// all of them are recorded.
    pub open spec fn info_of(self, id: IdentityKey) -> Option<InfoView> {
        if self.validators.dom().contains(id) && self.status_of(id) is Some
            && self.next_rates.dom().contains(id) {
            Some(
                InfoView {
                    validator: self.validators[id],
                    status: self.status_of(id)->0,
                    rate_data: self.next_rates[id],
                },
            )
        } else {
            None
        }
    }

    /// The validator registered under a consensus key, current or former.
    pub open spec fn validator_of_consensus_key(self, ck: ConsensusKey) -> Option<ValidatorView> {
        match self.identity_by_consensus_key.get(ck) {
            Some(id) => self.validators.get(id),
            None => None,
        }
    }

    /// The validator registered under a consensus address.
    pub open spec fn validator_of_address(self, address: ConsensusAddress) -> Option<
        ValidatorView,
    > {
        match self.consensus_key_by_address.get(address) {
            Some(ck) => self.validator_of_consensus_key(ck),
            None => None,
        }
    }

    /// The epoch at which a pool that starts to unbond now is released after
    /// the full unbonding period: the current epoch plus the unbonding
    /// epochs.
    pub open spec fn full_unbonding_epoch(self) -> Result<u64, StakingError> {
        let default_unbonding = self.current_epoch().index + self.chain_params.unbonding_epochs;
        if default_unbonding > u64::MAX {
            Err(StakingError::ArithmeticOverflow)
        } else {
            Ok(default_unbonding as u64)
        }
    }

    /// The epoch at which a pool that starts to unbond now is released: the
    /// current epoch plus the unbonding period, or the epoch at which the
    /// pool is already due, if that is earlier.
    pub open spec fn unbonding_end_epoch_for(self, id: IdentityKey) -> Result<u64, StakingError> {
        let default_unbonding = self.current_epoch().index + self.chain_params.unbonding_epochs;
        if default_unbonding > u64::MAX {
            Err(StakingError::ArithmeticOverflow)
        } else {
            match self.bonding_states.get(id) {
                Some(BondingState::Unbonding { unbonding_epoch }) => Ok(
                    if unbonding_epoch < default_unbonding {
                        unbonding_epoch
                    } else {
                        default_unbonding as u64
                    },
                ),
                _ => Ok(default_unbonding as u64),
            }
        }
    }
}

/// Read access to staking data.
pub trait StateReadExt: View<V = StakeView> {
    /// Whether the data is in a state that the operations keep it in.
    spec fn wf(&self) -> bool;

    /// Delegation changes accumulated over the course of this block, to be
    /// persisted at the end of the block for processing at the end of the
    /// next epoch.
    fn stub_delegation_changes(&self) -> (r: DelegationChanges)
        requires
            self.wf(),
        ensures
            r@ == self@.pending_changes,
    ;

    /// The penalty recorded for a validator in one epoch.
    fn penalty_in_epoch(&self, id: &IdentityKey, epoch_index: u64) -> (r: Option<Penalty>)
        requires
            self.wf(),
        ensures
            r == self@.penalties.get(PenaltyKey { validator: *id, epoch_index }),
            r matches Some(p) ==> p.wf(),
    ;

    /// Returns the compounded penalty for the given validator over the
    /// half-open range of epochs [start, end).
    fn compounded_penalty_over_range(&self, id: &IdentityKey, start: u64, end: u64) -> (r: Penalty)
        requires
            self.wf(),
        ensures
            r == compounded_over(self@.penalties, *id, start as int, end as int),
            end <= start ==> r == Penalty(0),
            r.wf(),
    ;

    /// The base rates of the current epoch; they are missing until the chain
    /// was initialised.
    fn current_base_rate(&self) -> (r: Result<BaseRateData, StakingError>)
        requires
            self.wf(),
        ensures
            r == match self@.current_base_rate {
                Some(rate) => Ok::<BaseRateData, StakingError>(rate),
                None => Err(StakingError::MissingInvariantRecord),
            },
    ;

    /// The base rates of the next epoch; they are missing until the chain
    /// was initialised.
    fn next_base_rate(&self) -> (r: Result<BaseRateData, StakingError>)
        requires
            self.wf(),
        ensures
            r == match self@.next_base_rate {
                Some(rate) => Ok::<BaseRateData, StakingError>(rate),
                None => Err(StakingError::MissingInvariantRecord),
            },
    ;

    /// The rates of a validator in the current epoch.
    fn current_validator_rate(&self, identity_key: &IdentityKey) -> (r: Option<RateData>)
        requires
            self.wf(),
        ensures
            r == self@.current_rates.get(*identity_key),
    ;

    /// The rates of a validator in the next epoch.
    fn next_validator_rate(&self, identity_key: &IdentityKey) -> (r: Option<RateData>)
        requires
            self.wf(),
        ensures
            r == self@.next_rates.get(*identity_key),
    ;

    /// The voting power recorded for a validator.
    fn validator_power(&self, identity_key: &IdentityKey) -> (r: Option<u64>)
        requires
            self.wf(),
        ensures
            r == self@.powers.get(*identity_key),
    ;

    /// The definition of a validator.
    fn validator(&self, identity_key: &IdentityKey) -> (r: Option<Validator>)
        requires
            self.wf(),
        ensures
            viewed_option(r) == self@.validators.get(*identity_key),
    ;

    /// The consensus key that a validator uses now.
    fn validator_consensus_key(&self, identity_key: &IdentityKey) -> (r: Option<ConsensusKey>)
        requires
            self.wf(),
        ensures
            r == match self@.validators.get(*identity_key) {
                Some(v) => Some(v.consensus_key),
                None => None,
            },
    ;

    /// The consensus engine names validators by their consensus key; the
    /// chain names them by their identity key.
    fn validator_by_consensus_key(&self, ck: &ConsensusKey) -> (r: Option<Validator>)
        requires
            self.wf(),
        ensures
            viewed_option(r) == self@.validator_of_consensus_key(*ck),
    ;

    /// The validator registered under the address that votes and evidence
    /// carry.
    fn validator_by_tendermint_address(&self, address: &ConsensusAddress) -> (r: Option<Validator>)
        requires
            self.wf(),
        ensures
            viewed_option(r) == self@.validator_of_address(*address),
    ;

    /// Everything recorded about a validator, where its definition, its status
    /// and its next rates are all on record.
    fn validator_info(&self, identity_key: &IdentityKey) -> (r: Option<Info>)
        requires
            self.wf(),
        ensures
            viewed_option(r) == self@.info_of(*identity_key),
    ;

    /// The operational state of a validator.
    fn validator_state(&self, identity_key: &IdentityKey) -> (r: Option<State>)
        requires
            self.wf(),
        ensures
            r == self@.states.get(*identity_key),
    ;

    /// The bonding state of the delegation pool of a validator.
    fn validator_bonding_state(&self, identity_key: &IdentityKey) -> (r: Option<BondingState>)
        requires
            self.wf(),
        ensures
            r == self@.bonding_states.get(*identity_key),
    ;

    /// Assembles the status of a validator.
    fn validator_status(&self, identity_key: &IdentityKey) -> (r: Option<Status>)
        requires
            self.wf(),
        ensures
            r == self@.status_of(*identity_key),
    ;

    /// The identity keys of the known validators, ascending.
    fn validator_identity_list(&self) -> (r: Vec<IdentityKey>)
        requires
            self.wf(),
        ensures
            r@ == self@.roster(),
    ;

    /// The definitions of the known validators, in the order of their
    /// identity keys.
    fn validator_list(&self) -> (r: Vec<Validator>)
        requires
            self.wf(),
        ensures
            r@.len() == self@.roster().len(),
            forall|i: int|
                0 <= i < r@.len() ==> (#[trigger] r@[i])@ == self@.validators[self@.roster()[i]],
    ;

    /// The changes recorded for the block at `height`.
    fn delegation_changes(&self, height: u64) -> (r: Result<DelegationChanges, StakingError>)
        requires
            self.wf(),
        ensures
            match r {
                Ok(changes) => self@.delegation_changes.get(height) == Some(changes@),
                Err(e) => e == StakingError::MissingInvariantRecord
                    && !self@.delegation_changes.dom().contains(height),
            },
    ;

    /// The signing record of a validator.
    fn validator_uptime(&self, identity_key: &IdentityKey) -> (r: Option<Uptime>)
        requires
            self.wf(),
        ensures
            viewed_option(r) == self@.uptimes.get(*identity_key),
            r matches Some(u) ==> u.wf(),
    ;

    /// The number of blocks in the window over which uptime is tracked.
    fn signed_blocks_window_len(&self) -> (r: u64)
        requires
            self.wf(),
        ensures
            r == self@.chain_params.signed_blocks_window_len,
    ;

    /// The number of missed blocks in the window at which a validator is
    /// jailed.
    fn missed_blocks_maximum(&self) -> (r: u64)
        requires
            self.wf(),
        ensures
            r == self@.chain_params.missed_blocks_maximum,
    ;

    /// The epoch at which the pool of a validator is released if it starts to
    /// unbond now. Fails where that epoch does not fit 64 bits.
    fn current_unbonding_end_epoch_for(&self, id: &IdentityKey) -> (r: Result<u64, StakingError>)
        requires
            self.wf(),
        ensures
            r == self@.unbonding_end_epoch_for(*id),
    ;
}

impl StateReadExt for StakingState {
    open(crate) spec fn wf(&self) -> bool {
        self.valid()
    }

    fn stub_delegation_changes(&self) -> (r: DelegationChanges) {
        self.pending_changes.clone()
    }

    fn penalty_in_epoch(&self, id: &IdentityKey, epoch_index: u64) -> (r: Option<Penalty>) {
        match self.penalties.get(&PenaltyKey { validator: *id, epoch_index }) {
            Some(p) => Some(*p),
            None => None,
        }
    }

    fn compounded_penalty_over_range(&self, id: &IdentityKey, start: u64, end: u64) -> (r: Penalty) {
        let mut acc = Penalty(0);
        let ghost mut frontier: int = start as int;
        let ghost m = self@.penalties;
        let ghost keys = self.penalties.keys();
        let first = PenaltyKey { validator: *id, epoch_index: start };
        let limit = PenaltyKey { validator: *id, epoch_index: end };
        let n = self.penalties.len();
        // The buckets of a validator lie together, in the order of their
        // epochs.
        let mut i: usize = self.penalties.lower_bound(&first);
        proof {
            self.penalties.lemma_table();
            IdentityKey::lemma_strict_total_order(*id, *id, *id);
        }
        while i < n && self.penalties.key_at(i).comes_before(&limit)
            invariant
                self.wf(),
                m == self@.penalties,
                m == self.penalties.map(),
                keys == self.penalties.keys(),
                ascending(keys),
                forall|k: PenaltyKey| #[trigger] m.dom().contains(k) <==> keys.contains(k),
                n == keys.len(),
                first == (PenaltyKey { validator: *id, epoch_index: start }),
                limit == (PenaltyKey { validator: *id, epoch_index: end }),
                i <= n,
                start <= frontier,
                end <= start ==> frontier == start,
                start < end ==> frontier <= end,
                acc == compounded_over(m, *id, start as int, frontier),
                acc.wf(),
                forall|j: int|
                    0 <= j < i && (#[trigger] keys[j]).validator == *id ==> keys[j].epoch_index
                        < frontier,
                forall|j: int| i <= j < n ==> !(#[trigger] keys[j]).before(first),
                forall|j: int|
                    i <= j < n && (#[trigger] keys[j]).validator == *id ==> keys[j].epoch_index
                        >= frontier,
            decreases n - i,
        {
            let key = self.penalties.key_at(i);
            let p = *self.penalties.value_at(i);
            proof {
                IdentityKey::lemma_strict_total_order(*id, key.validator, *id);
                assert(!key.before(first));
                assert(key.validator == *id);
                assert(start <= key.epoch_index < end);
                assert forall|e: int| frontier <= e < key.epoch_index implies !m.dom().contains(
                    #[trigger] bucket(*id, e),
                ) by {
                    let probe = bucket(*id, e);
                    if m.dom().contains(probe) {
                        assert(keys.contains(probe));
                        let j = keys.index_of(probe);
                        if j > i {
                            assert(keys[i as int].before(keys[j]));
                        }
                    }
                }
                lemma_compounded_over_gap(m, *id, start as int, frontier, key.epoch_index as int);
                assert(m.dom().contains(key));
                assert(key == bucket(*id, key.epoch_index as int));
                lemma_compound_bounds(acc, p);
                assert forall|j: int|
                    i + 1 <= j < n && (#[trigger] keys[j]).validator == *id implies keys[j].epoch_index
                    >= key.epoch_index + 1 by {
                    assert(keys[i as int].before(keys[j]));
                }
                frontier = key.epoch_index as int + 1;
            }
            acc = acc.compound(p);
            i = i + 1;
        }
        proof {
            if start < end {
                assert forall|e: int| frontier <= e < end implies !m.dom().contains(
                    #[trigger] bucket(*id, e),
                ) by {
                    let probe = bucket(*id, e);
                    if m.dom().contains(probe) {
                        assert(keys.contains(probe));
                        let j = keys.index_of(probe);
                        assert(keys[j].validator == *id);
                        if j >= i {
                            assert(i < n);
                            assert(!keys[i as int].before(limit));
                            if j > i {
                                assert(keys[i as int].before(keys[j]));
                                PenaltyKey::lemma_strict_total_order(keys[i as int], keys[j], limit);
                            }
                            assert(keys[j].before(limit));
                        }
                    }
                }
                lemma_compounded_over_gap(m, *id, start as int, frontier, end as int);
            }
        }
        acc
    }

    fn current_base_rate(&self) -> (r: Result<BaseRateData, StakingError>) {
        match self.current_base_rate {
            Some(rate) => Ok(rate),
            None => Err(StakingError::MissingInvariantRecord),
        }
    }

    fn next_base_rate(&self) -> (r: Result<BaseRateData, StakingError>) {
        match self.next_base_rate {
            Some(rate) => Ok(rate),
            None => Err(StakingError::MissingInvariantRecord),
        }
    }

    fn current_validator_rate(&self, identity_key: &IdentityKey) -> (r: Option<RateData>) {
        match self.current_rates.get(identity_key) {
            Some(rate) => Some(*rate),
            None => None,
        }
    }

    fn next_validator_rate(&self, identity_key: &IdentityKey) -> (r: Option<RateData>) {
        match self.next_rates.get(identity_key) {
            Some(rate) => Some(*rate),
            None => None,
        }
    }

    fn validator_power(&self, identity_key: &IdentityKey) -> (r: Option<u64>) {
        match self.powers.get(identity_key) {
            Some(power) => Some(*power),
            None => None,
        }
    }

    fn validator(&self, identity_key: &IdentityKey) -> (r: Option<Validator>) {
        match self.validators.get(identity_key) {
            Some(v) => Some(v.clone()),
            None => None,
        }
    }

    fn validator_consensus_key(&self, identity_key: &IdentityKey) -> (r: Option<ConsensusKey>) {
        match self.validators.get(identity_key) {
            Some(v) => Some(v.consensus_key),
            None => None,
        }
    }

    fn validator_by_consensus_key(&self, ck: &ConsensusKey) -> (r: Option<Validator>) {
        match self.identity_by_consensus_key.get(ck) {
            Some(id) => self.validator(id),
            None => None,
        }
    }

    fn validator_by_tendermint_address(&self, address: &ConsensusAddress) -> (r: Option<
        Validator,
    >) {
        match self.consensus_key_by_address.get(address) {
            Some(ck) => self.validator_by_consensus_key(ck),
            None => None,
        }
    }

    fn validator_info(&self, identity_key: &IdentityKey) -> (r: Option<Info>) {
        let validator = self.validator(identity_key);
        let status = self.validator_status(identity_key);
        let rate_data = self.next_validator_rate(identity_key);
        match (validator, status, rate_data) {
            (Some(validator), Some(status), Some(rate_data)) => Some(
                Info { validator, status, rate_data },
            ),
            _ => None,
        }
    }

    fn validator_state(&self, identity_key: &IdentityKey) -> (r: Option<State>) {
        match self.states.get(identity_key) {
            Some(state) => Some(*state),
            None => None,
        }
    }

    fn validator_bonding_state(&self, identity_key: &IdentityKey) -> (r: Option<BondingState>) {
        match self.bonding_states.get(identity_key) {
            Some(state) => Some(*state),
            None => None,
        }
    }

    fn validator_status(&self, identity_key: &IdentityKey) -> (r: Option<Status>) {
        let bonding_state = self.validator_bonding_state(identity_key);
        let state = self.validator_state(identity_key);
        let power = self.validator_power(identity_key);
        match (state, power, bonding_state) {
            (Some(state), Some(voting_power), Some(bonding_state)) => Some(
                Status { identity_key: *identity_key, state, voting_power, bonding_state },
            ),
            _ => None,
        }
    }

    fn validator_identity_list(&self) -> (r: Vec<IdentityKey>) {
        proof {
            self.lemma_roster();
        }
        self.validators.key_list()
    }

    fn validator_list(&self) -> (r: Vec<Validator>) {
        let mut list: Vec<Validator> = Vec::new();
        let n = self.validators.len();
        let mut i: usize = 0;
        proof {
            self.lemma_roster();
        }
        while i < n
            invariant
                self.wf(),
                n == self.validators.keys().len(),
                self@.roster() == self.validators.keys(),
                i <= n,
                list@.len() == i,
                forall|j: int|
                    0 <= j < i ==> (#[trigger] list@[j])@ == self@.validators[self@.roster()[j]],
            decreases n - i,
        {
            proof {
                self.validators.lemma_table();
            }
            list.push(self.validators.value_at(i).clone());
            i = i + 1;
        }
        list
    }

    fn delegation_changes(&self, height: u64) -> (r: Result<DelegationChanges, StakingError>) {
        match self.delegation_changes.get(&height) {
            Some(changes) => Ok(changes.clone()),
            None => Err(StakingError::MissingInvariantRecord),
        }
    }

    fn validator_uptime(&self, identity_key: &IdentityKey) -> (r: Option<Uptime>) {
        match self.uptimes.get(identity_key) {
            Some(uptime) => Some(uptime.clone()),
            None => None,
        }
    }

    fn signed_blocks_window_len(&self) -> (r: u64) {
        self.chain_params.signed_blocks_window_len
    }

    fn missed_blocks_maximum(&self) -> (r: u64) {
        self.chain_params.missed_blocks_maximum
    }

    fn current_unbonding_end_epoch_for(&self, id: &IdentityKey) -> (r: Result<u64, StakingError>) {
        let current_epoch = self.current_epoch();
        let default_unbonding = match current_epoch.index.checked_add(
            self.chain_params.unbonding_epochs,
        ) {
            Some(epoch) => epoch,
            None => { return Err(StakingError::ArithmeticOverflow); },
        };
        match self.validator_bonding_state(id) {
            Some(BondingState::Unbonding { unbonding_epoch }) => {
                if unbonding_epoch < default_unbonding {
                    Ok(unbonding_epoch)
                } else {
                    Ok(default_unbonding)
                }
            },
            _ => Ok(default_unbonding),
        }
    }
}

} // verus!
