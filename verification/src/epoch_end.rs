//! What happens when an epoch ends: rates roll forward, supplies follow the
//! delegations of the epoch, commission is paid, expired unbondings are
//! released and the active set is chosen anew.

use crate::chain::Epoch;
use crate::changes::{Delegate, Undelegate};
use crate::error::StakingError;
use crate::keys::{IdentityKey, TableKey};
use crate::read::StateReadExt;
use crate::roster::{lemma_visited, visited};
use crate::rate::BaseRateData;
use crate::state::{StakeView, StakingState};
use crate::validator::{BondingState, State};
use crate::write::StateWriteExt;
use vstd::prelude::*;

verus! {

impl StakeView {
    /// Whether the pool of a known validator is unbonding and due for
    /// release in the current epoch.
    pub open spec fn unbonding_due(self, id: IdentityKey) -> bool {
        &&& self.validators.dom().contains(id)
        &&& self.bonding_states.dom().contains(id)
        &&& self.bonding_states[id] matches BondingState::Unbonding { unbonding_epoch }
        &&& unbonding_epoch <= self.current_epoch().index
    }

    /// The staking data with the due pools of the validators in `done`
    /// released.
    pub open spec fn released(self, done: Set<IdentityKey>) -> StakeView {
        StakeView {
            bonding_states: Map::new(
                |id: IdentityKey| self.bonding_states.dom().contains(id),
                |id: IdentityKey|
                    if done.contains(id) && self.unbonding_due(id) {
                        BondingState::Unbonded
                    } else {
                        self.bonding_states[id]
                    },
            ),
            ..self
        }
    }

    /// Every known validator has a bonding state on record.
    pub open spec fn bonding_states_complete(self) -> bool {
        forall|id: IdentityKey| #[trigger]
            self.validators.dom().contains(id) ==> self.bonding_states.dom().contains(id)
    }

    /// Whether `stopped` is what a release of the due pools leaves behind
    /// that stops at a validator without a bonding state: the pools of the
    /// validators before it in the roster are released.
    pub open spec fn stopped_releasing(self, stopped: StakeView) -> bool {
        exists|n: int|
            0 <= n < self.roster().len() && stopped == #[trigger] self.released(
                visited(self.roster(), n),
            )
    }

    /// The staking data after every pool that is due was released.
    pub open spec fn after_unbondings(self) -> Result<StakeView, StakingError> {
        if self.bonding_states_complete() {
            Ok(self.released(self.validators.dom()))
        } else {
            Err(StakingError::MissingInvariantRecord)
        }
    }
}

impl StakeView {
    /// Whether a validator takes part in the choice of the active set: it
    /// is known and either active or inactive.
    pub open spec fn eligible(self, id: IdentityKey) -> bool {
        &&& self.validators.dom().contains(id)
        &&& self.states.dom().contains(id)
        &&& (self.states[id] is Active || self.states[id] is Inactive)
    }

    /// Whether a validator competes for a place in the active set: it is
    /// eligible and has voting power.
    pub open spec fn contends(self, id: IdentityKey) -> bool {
        &&& self.eligible(id)
        &&& self.powers.dom().contains(id)
        &&& self.powers[id] > 0
    }

    /// Whether `a` is placed before `b`: by more voting power, and between
    /// equal powers by the order of the roster.
    pub open spec fn outranks(self, a: IdentityKey, b: IdentityKey) -> bool {
        self.powers[a] > self.powers[b] || (self.powers[a] == self.powers[b] && a.before(b))
    }

    /// The number of contenders among `ids` that are placed before `id`.
    pub open spec fn rank_among(self, ids: Seq<IdentityKey>, id: IdentityKey) -> nat
        decreases ids.len(),
    {
        if ids.len() == 0 {
            0
        } else {
            self.rank_among(ids.drop_last(), id) + if self.contends(ids.last()) && self.outranks(
                ids.last(),
                id,
            ) {
                1nat
            } else {
                0nat
            }
        }
    }

    /// The number of contenders that are placed before `id`.
    pub open spec fn rank(self, id: IdentityKey) -> nat {
        self.rank_among(self.roster(), id)
    }

    /// Whether a validator is chosen for the active set: it contends, and
    /// fewer contenders than the active set has places are placed before
    /// it.
    pub open spec fn selected(self, id: IdentityKey) -> bool {
        self.contends(id) && self.rank(id) < self.chain_params.active_validator_limit
    }

    /// An inactive validator that is chosen.
    pub open spec fn promoted(self, id: IdentityKey) -> bool {
        self.eligible(id) && self.states[id] is Inactive && self.selected(id)
    }

    /// An active validator that is not chosen.
    pub open spec fn demoted(self, id: IdentityKey) -> bool {
        self.eligible(id) && self.states[id] is Active && !self.selected(id)
    }

    /// Every known validator has a state and a power on record.
    pub open spec fn selection_records_complete(self) -> bool {
        forall|id: IdentityKey| #[trigger]
            self.validators.dom().contains(id) ==> self.states.dom().contains(id)
                && self.powers.dom().contains(id)
    }

    /// The epoch at which a pool that starts to unbond now would be due
    /// does not fit 64 bits.
    pub open spec fn unbonding_overflows(self) -> bool {
        self.current_epoch().index + self.chain_params.unbonding_epochs > u64::MAX
    }

    /// The staking data with the validators in `done` moved to where the
    /// choice puts them: a promoted validator becomes active and bonded with
    /// a fresh uptime window, the pool of a demoted one begins to unbond.
    pub open spec fn reselected(self, done: Set<IdentityKey>) -> StakeView {
        StakeView {
            states: Map::new(
                |id: IdentityKey| self.states.dom().contains(id),
                |id: IdentityKey|
                    if done.contains(id) && self.promoted(id) {
                        State::Active
                    } else if done.contains(id) && self.demoted(id) {
                        State::Inactive
                    } else {
                        self.states[id]
                    },
            ),
            bonding_states: Map::new(
                |id: IdentityKey|
                    self.bonding_states.dom().contains(id) || (done.contains(id) && (self.promoted(
                        id,
                    ) || self.demoted(id))),
                |id: IdentityKey|
                    if done.contains(id) && self.promoted(id) {
                        BondingState::Bonded
                    } else if done.contains(id) && self.demoted(id) {
                        BondingState::Unbonding {
                            unbonding_epoch: self.unbonding_end_epoch_for(id)->Ok_0,
                        }
                    } else {
                        self.bonding_states[id]
                    },
            ),
            uptimes: Map::new(
                |id: IdentityKey|
                    self.uptimes.dom().contains(id) || (done.contains(id) && self.promoted(id)),
                |id: IdentityKey|
                    if done.contains(id) && self.promoted(id) {
                        self.fresh_uptime()
                    } else {
                        self.uptimes[id]
                    },
            ),
            ..self
        }
    }

    /// The staking data after the active set was chosen anew. The choice
    /// leaves disabled, jailed and tombstoned validators alone.
    pub open spec fn after_reselection(self) -> Result<StakeView, StakingError> {
        if !self.selection_records_complete() {
            Err(StakingError::MissingInvariantRecord)
        } else if self.unbonding_overflows() && exists|id: IdentityKey| self.demoted(id) {
            Err(StakingError::ArithmeticOverflow)
        } else {
            Ok(self.reselected(self.validators.dom()))
        }
    }
}

impl StakeView {
    /// Whether the changes of the block at `height` are on record.
    pub open spec fn recorded_at(self, height: int) -> bool {
        self.delegation_changes.dom().contains(height as u64)
    }

    /// The delegations of the `count` blocks from the height `start` on, in
    /// the order of the blocks.
    pub open spec fn delegations_in(self, start: int, count: int) -> Seq<Delegate>
        decreases count,
    {
        if count <= 0 {
            Seq::empty()
        } else {
            self.delegations_in(start, count - 1) + self.delegation_changes[(start + count
                - 1) as u64].delegations
        }
    }

    /// The undelegations of the `count` blocks from the height `start` on,
    /// in the order of the blocks.
    pub open spec fn undelegations_in(self, start: int, count: int) -> Seq<Undelegate>
        decreases count,
    {
        if count <= 0 {
            Seq::empty()
        } else {
            self.undelegations_in(start, count - 1) + self.delegation_changes[(start + count
                - 1) as u64].undelegations
        }
    }

    /// The staking data after the base rates rolled forward: the rates that
    /// were recorded for the next epoch are the current ones, and the next
    /// ones follow from them at the chain's base reward rate.
    pub open spec fn rolled_base_rates(self) -> Result<StakeView, StakingError> {
        match self.next_base_rate {
            None => Err(StakingError::MissingInvariantRecord),
            Some(current) => match current.spec_next(self.chain_params.base_reward_rate) {
                None => Err(StakingError::ArithmeticOverflow),
                Some(next) => Ok(
                    StakeView {
                        current_base_rate: Some(current),
                        next_base_rate: Some(next),
                        ..self
                    },
                ),
            },
        }
    }

    /// The staking data after the end of an epoch was processed for the
    /// validators `ids`, one after the other.
    pub open spec fn after_validators(
        self,
        ids: Seq<IdentityKey>,
        epoch_index: u64,
        current_base_rate: BaseRateData,
        next_base_rate: BaseRateData,
        delegations: Seq<Delegate>,
        undelegations: Seq<Undelegate>,
    ) -> Result<StakeView, StakingError>
        decreases ids.len(),
    {
        if ids.len() == 0 {
            Ok(self)
        } else {
            match self.after_validators(
                ids.drop_last(),
                epoch_index,
                current_base_rate,
                next_base_rate,
                delegations,
                undelegations,
            ) {
                Ok(s) => s.after_validator_epoch(
                    ids.last(),
                    epoch_index,
                    current_base_rate,
                    next_base_rate,
                    delegations,
                    undelegations,
                ),
                Err(e) => Err(e),
            }
        }
    }

    /// The staking data after the epoch `epoch` ended, or the reason why its
    /// end cannot be processed.
    ///
    /// The changes of every block of the epoch must be on record. The base
    /// rates roll forward; then every known validator, in the order of the
    /// roster, has its rates, supplies, power and commission brought up to
    /// date; then the pools that are due are released, and the active set is
    /// chosen anew.
    pub open spec fn after_epoch(self, epoch: Epoch) -> Result<StakeView, StakingError> {
        let start = epoch.spec_start();
        let count = epoch.duration as int;
        if count > 0 && start + count - 1 > u64::MAX {
            Err(StakingError::ArithmeticOverflow)
        } else if exists|h: int| start <= h < start + count && !self.recorded_at(h) {
            Err(StakingError::MissingInvariantRecord)
        } else {
            match self.rolled_base_rates() {
                Err(e) => Err(e),
                Ok(rolled) => match rolled.after_validators(
                    self.roster(),
                    epoch.index,
                    rolled.current_base_rate->0,
                    rolled.next_base_rate->0,
                    self.delegations_in(start, count),
                    self.undelegations_in(start, count),
                ) {
                    Err(e) => Err(e),
                    Ok(updated) => updated.after_release_and_reselection(),
                },
            }
        }
    }

    /// Whether `stopped` is what the end of an epoch leaves behind where it
    /// fails after the base rates rolled forward to `self`: the validators
    /// before the failing one are up to date, or all are and the release of
    /// the pools stopped, or the pools are released and the active set could
    /// not be chosen.
    pub open spec fn stopped_after_roll(
        self,
        ids: Seq<IdentityKey>,
        epoch_index: u64,
        delegations: Seq<Delegate>,
        undelegations: Seq<Undelegate>,
        stopped: StakeView,
    ) -> bool {
        match self.after_validators(
            ids,
            epoch_index,
            self.current_base_rate->0,
            self.next_base_rate->0,
            delegations,
            undelegations,
        ) {
            Err(_) => exists|n: int|
                0 <= n < ids.len() && #[trigger] self.after_validators(
                    ids.take(n),
                    epoch_index,
                    self.current_base_rate->0,
                    self.next_base_rate->0,
                    delegations,
                    undelegations,
                ) == Ok::<StakeView, StakingError>(stopped),
            Ok(updated) => match updated.after_unbondings() {
                Err(_) => updated.stopped_releasing(stopped),
                Ok(released) => stopped == released,
            },
        }
    }

    /// Whether `stopped` is what a failed end of the epoch `epoch` leaves
    /// behind. Where the changes of a block or the base rates are missing,
    /// nothing has changed.
    pub open spec fn stopped_epoch(self, epoch: Epoch, stopped: StakeView) -> bool {
        let start = epoch.spec_start();
        let count = epoch.duration as int;
        if (count > 0 && start + count - 1 > u64::MAX) || (exists|h: int|
            start <= h < start + count && !self.recorded_at(h)) {
            stopped == self
        } else {
            match self.rolled_base_rates() {
                Err(_) => stopped == self,
                Ok(rolled) => rolled.stopped_after_roll(
                    self.roster(),
                    epoch.index,
                    self.delegations_in(start, count),
                    self.undelegations_in(start, count),
                    stopped,
                ),
            }
        }
    }

    /// The staking data after the pools that are due were released and the
    /// active set was chosen anew.
    pub open spec fn after_release_and_reselection(self) -> Result<StakeView, StakingError> {
        match self.after_unbondings() {
            Err(e) => Err(e),
            Ok(released) => released.after_reselection(),
        }
    }
}

/// Where the pass over the validators fails for a part of the roster, it
/// fails in the same way for the whole.
pub proof fn lemma_after_validators_fails(
    s: StakeView,
    ids: Seq<IdentityKey>,
    n: int,
    epoch_index: u64,
    current_base_rate: BaseRateData,
    next_base_rate: BaseRateData,
    delegations: Seq<Delegate>,
    undelegations: Seq<Undelegate>,
)
    requires
        0 <= n <= ids.len(),
        s.after_validators(
            ids.take(n),
            epoch_index,
            current_base_rate,
            next_base_rate,
            delegations,
            undelegations,
        ) is Err,
    ensures
        s.after_validators(
            ids,
            epoch_index,
            current_base_rate,
            next_base_rate,
            delegations,
            undelegations,
        ) == s.after_validators(
            ids.take(n),
            epoch_index,
            current_base_rate,
            next_base_rate,
            delegations,
            undelegations,
        ),
    decreases ids.len(),
{
    if n < ids.len() {
        assert(ids.drop_last().take(n) =~= ids.take(n));
        lemma_after_validators_fails(
            s,
            ids.drop_last(),
            n,
            epoch_index,
            current_base_rate,
            next_base_rate,
            delegations,
            undelegations,
        );
    } else {
        assert(ids.take(n) =~= ids);
    }
}

impl StakingState {
    /// Process all validator unbondings queued for release in the current
    /// epoch. Fails where a known validator has no bonding state; the
    /// validators before it in the roster have then been processed.
    pub fn process_validator_unbondings(&mut self) -> (r: Result<(), StakingError>)
        requires
            old(self).wf(),
        ensures
            final(self).wf(),
            match r {
                Ok(()) => old(self)@.after_unbondings() == Ok::<StakeView, StakingError>(
                    final(self)@,
                ),
                Err(e) => old(self)@.after_unbondings() == Err::<StakeView, StakingError>(e)
                    && old(self)@.stopped_releasing(final(self)@),
            },
    {
        let current_epoch = self.current_epoch();
        let ids = self.validator_identity_list();
        let ghost before = self@;
        let mut i: usize = 0;
        proof {
            lemma_visited(ids@, before.validators.dom(), 0);
            assert(before.released(visited(ids@, 0)).bonding_states =~= before.bonding_states);
        }
        while i < ids.len()
            invariant
                self.wf(),
                before == old(self)@,
                before.wf(),
                ids@ == before.roster(),
                current_epoch == before.current_epoch(),
                i <= ids@.len(),
                self@ == before.released(visited(ids@, i as int)),
                forall|j: int| 0 <= j < i ==> before.bonding_states.dom().contains(#[trigger] ids@[j]),
            decreases ids@.len() - i,
        {
            let id = ids[i];
            proof {
                lemma_visited(ids@, before.validators.dom(), i as int);
            }
            match self.validator_bonding_state(&id) {
                None => {
                    proof {
                        assert(self@ == before.released(visited(before.roster(), i as int)));
                    }
                    return Err(StakingError::MissingInvariantRecord);
                },
                Some(BondingState::Unbonding { unbonding_epoch }) => {
                    if unbonding_epoch <= current_epoch.index {
                        self.set_validator_bonding_state(&id, BondingState::Unbonded);
                    }
                },
                Some(_) => {},
            }
            proof {
                assert(self@.bonding_states =~= before.released(
                    visited(ids@, i as int + 1),
                ).bonding_states);
            }
            i = i + 1;
        }
        proof {
            lemma_visited(ids@, before.validators.dom(), ids@.len() as int);
            assert forall|id: IdentityKey| #[trigger]
                before.validators.dom().contains(id) implies before.bonding_states.dom().contains(
                id,
            ) by {
                assert(ids@.contains(id));
                let j = ids@.index_of(id);
                assert(before.bonding_states.dom().contains(ids@[j]));
            }
        }
        Ok(())
    }

    /// Called during `end_epoch`. Chooses the active set by voting power:
    /// of the validators that are active or inactive, the
    /// `active_validator_limit` with the most power become or stay active,
    /// all others, and all without power, become or stay inactive. Fails,
    /// and changes nothing, where a known validator lacks a state or a
    /// power, or where a pool would have to unbond at an epoch beyond 64
    /// bits.
    pub fn set_active_and_inactive_validators(&mut self) -> (r: Result<(), StakingError>)
        requires
            old(self).wf(),
        ensures
            final(self).wf(),
            match r {
                Ok(()) => old(self)@.after_reselection() == Ok::<StakeView, StakingError>(
                    final(self)@,
                ),
                Err(e) => old(self)@.after_reselection() == Err::<StakeView, StakingError>(e)
                    && final(self)@ == old(self)@,
            },
    {
        let ghost before = self@;
        let ids = self.validator_identity_list();
        let n = ids.len();
        proof {
            lemma_visited(ids@, before.validators.dom(), 0);
        }
        // The states and powers of all validators, as they are now.
        let mut states: Vec<State> = Vec::new();
        let mut powers: Vec<u64> = Vec::new();
        let mut i: usize = 0;
        while i < n
            invariant
                self.wf(),
                self@ == before,
                before.wf(),
                ids@ == before.roster(),
                n == ids@.len(),
                i <= n,
                states@.len() == i,
                powers@.len() == i,
                forall|j: int|
                    0 <= j < i ==> before.states.get(#[trigger] ids@[j]) == Some(states@[j])
                        && before.powers.get(ids@[j]) == Some(powers@[j]),
            decreases n - i,
        {
            proof {
                lemma_visited(ids@, before.validators.dom(), i as int);
            }
            let state = match self.validator_state(&ids[i]) {
                Some(state) => state,
                None => { return Err(StakingError::MissingInvariantRecord); },
            };
            let power = match self.validator_power(&ids[i]) {
                Some(power) => power,
                None => { return Err(StakingError::MissingInvariantRecord); },
            };
            states.push(state);
            powers.push(power);
            i = i + 1;
        }
        proof {
            assert forall|id: IdentityKey| #[trigger]
                before.validators.dom().contains(id) implies before.states.dom().contains(id)
                && before.powers.dom().contains(id) by {
                assert(ids@.contains(id));
                let j = ids@.index_of(id);
                assert(before.states.get(ids@[j]) == Some(states@[j]));
            }
            assert forall|j: int| 0 <= j < n implies before.validators.dom().contains(
                #[trigger] ids@[j],
            ) by {
                assert(ids@.contains(ids@[j]));
            }
        }
        // Where each eligible validator belongs after the choice.
        let limit = self.chain_params().active_validator_limit;
        let mut targets: Vec<State> = Vec::new();
        let mut any_demoted: bool = false;
        let mut k: usize = 0;
        while k < n
            invariant
                self.wf(),
                self@ == before,
                before.wf(),
                ids@ == before.roster(),
                n == ids@.len(),
                limit == before.chain_params.active_validator_limit,
                k <= n,
                states@.len() == n,
                powers@.len() == n,
                targets@.len() == k,
                forall|j: int|
                    0 <= j < n ==> before.states.get(#[trigger] ids@[j]) == Some(states@[j])
                        && before.powers.get(ids@[j]) == Some(powers@[j])
                        && before.validators.dom().contains(ids@[j]),
                forall|j: int|
                    0 <= j < k ==> (#[trigger] targets@[j] == State::Active) == before.selected(
                        ids@[j],
                    ),
                forall|j: int|
                    0 <= j < k ==> (#[trigger] targets@[j] == State::Active || targets@[j]
                        == State::Inactive),
                any_demoted == exists|j: int| 0 <= j < k && before.demoted(#[trigger] ids@[j]),
            decreases n - k,
        {
            let mut rank: usize = 0;
            let mut j: usize = 0;
            while j < n
                invariant
                    before.wf(),
                    ids@ == before.roster(),
                    n == ids@.len(),
                    k < n,
                    j <= n,
                    states@.len() == n,
                    powers@.len() == n,
                    forall|j: int|
                        0 <= j < n ==> before.states.get(#[trigger] ids@[j]) == Some(states@[j])
                            && before.powers.get(ids@[j]) == Some(powers@[j])
                            && before.validators.dom().contains(ids@[j]),
                    rank == before.rank_among(ids@.take(j as int), ids@[k as int]),
                    rank <= j,
                decreases n - j,
            {
                assert(ids@.take(j as int + 1).drop_last() =~= ids@.take(j as int));
                let contends = (states[j] == State::Active || states[j] == State::Inactive)
                    && powers[j] > 0;
                if contends && (powers[j] > powers[k] || (powers[j] == powers[k]
                    && ids[j].comes_before(&ids[k]))) {
                    rank = rank + 1;
                }
                j = j + 1;
            }
            assert(ids@.take(n as int) =~= ids@);
            let eligible = states[k] == State::Active || states[k] == State::Inactive;
            let selected = eligible && powers[k] > 0 && (rank as u64) < limit;
            let ghost was_demoted = any_demoted;
            if eligible && states[k] == State::Active && !selected {
                any_demoted = true;
            }
            targets.push(
                if selected {
                    State::Active
                } else {
                    State::Inactive
                },
            );
            proof {
                assert(selected == before.selected(ids@[k as int]));
                if any_demoted && !was_demoted {
                    assert(before.demoted(ids@[k as int]));
                }
                if before.demoted(ids@[k as int]) {
                    assert(any_demoted);
                }
            }
            k = k + 1;
        }
        proof {
            if exists|id: IdentityKey| before.demoted(id) {
                let id = choose|id: IdentityKey| before.demoted(id);
                assert(ids@.contains(id));
                let j = ids@.index_of(id);
                assert(before.demoted(ids@[j]));
            }
        }
        if any_demoted && self.current_epoch().index.checked_add(
            self.chain_params().unbonding_epochs,
        ).is_none() {
            return Err(StakingError::ArithmeticOverflow);
        }
        // Move every eligible validator to where it belongs.
        let mut m: usize = 0;
        proof {
            assert(before.reselected(visited(ids@, 0)).states =~= before.states);
            assert(before.reselected(visited(ids@, 0)).bonding_states =~= before.bonding_states);
            assert(before.reselected(visited(ids@, 0)).uptimes =~= before.uptimes);
        }
        while m < n
            invariant
                self.wf(),
                before == old(self)@,
                before.wf(),
                ids@ == before.roster(),
                n == ids@.len(),
                m <= n,
                states@.len() == n,
                powers@.len() == n,
                targets@.len() == n,
                forall|j: int|
                    0 <= j < n ==> before.states.get(#[trigger] ids@[j]) == Some(states@[j])
                        && before.powers.get(ids@[j]) == Some(powers@[j])
                        && before.validators.dom().contains(ids@[j]),
                forall|j: int|
                    0 <= j < n ==> (#[trigger] targets@[j] == State::Active) == before.selected(
                        ids@[j],
                    ),
                forall|j: int|
                    0 <= j < n ==> (#[trigger] targets@[j] == State::Active || targets@[j]
                        == State::Inactive),
                before.unbonding_overflows() ==> !exists|id: IdentityKey| before.demoted(id),
                self@ == before.reselected(visited(ids@, m as int)),
            decreases n - m,
        {
            let id = ids[m];
            let cur = states[m];
            let target = targets[m];
            let ghost s = self@;
            proof {
                lemma_visited(ids@, before.validators.dom(), m as int);
                assert(s.states.get(id) == before.states.get(id));
                assert(s.bonding_states.get(id) == before.bonding_states.get(id));
                assert(s.unbonding_end_epoch_for(id) == before.unbonding_end_epoch_for(id));
            }
            if cur == State::Active || cur == State::Inactive {
                proof {
                    assert(before.eligible(id));
                    if before.demoted(id) {
                        assert(!before.unbonding_overflows());
                    }
                }
                match self.set_validator_state_inner(&id, cur, target) {
                    Ok(()) => {},
                    Err(e) => { return Err(e); },
                }
            }
            proof {
                let next = before.reselected(visited(ids@, m as int + 1));
                assert(self@.states =~= next.states);
                assert(self@.bonding_states =~= next.bonding_states);
                assert(self@.uptimes =~= next.uptimes);
            }
            m = m + 1;
        }
        proof {
            lemma_visited(ids@, before.validators.dom(), n as int);
        }
        Ok(())
    }

    /// Ends the epoch `epoch_to_end`: rolls the base rates and every
    /// validator's rates forward, applies the penalties of the epoch,
    /// adjusts the token supplies by the delegations of the epoch, measures
    /// every voting power anew, pays commission, releases the pools that are
    /// due and chooses the active set.
    ///
    /// Where it fails, the staking data holds the changes made up to the
    /// failure and is to be abandoned.
    pub fn end_epoch(&mut self, epoch_to_end: Epoch) -> (r: Result<(), StakingError>)
        requires
            old(self).wf(),
        ensures
            final(self).wf(),
            match r {
                Ok(()) => old(self)@.after_epoch(epoch_to_end) == Ok::<StakeView, StakingError>(
                    final(self)@,
                ),
                Err(e) => old(self)@.after_epoch(epoch_to_end) == Err::<StakeView, StakingError>(e)
                    && old(self)@.stopped_epoch(epoch_to_end, final(self)@),
            },
    {
        let ghost before = self@;
        let ghost start = epoch_to_end.spec_start();
        let ghost count = epoch_to_end.duration as int;
        // Gather the delegations and undelegations of every block of the
        // epoch.
        let mut delegations: Vec<Delegate> = Vec::new();
        let mut undelegations: Vec<Undelegate> = Vec::new();
        if epoch_to_end.duration > 0 {
            let first = match epoch_to_end.start_height() {
                Some(height) => height,
                None => { return Err(StakingError::ArithmeticOverflow); },
            };
            if epoch_to_end.end_height().is_none() {
                return Err(StakingError::ArithmeticOverflow);
            }
            assert(self@ == before);
            let mut done: u64 = 0;
            while done < epoch_to_end.duration
                invariant
                    self.wf(),
                    self@ == before,
                    before == old(self)@,
                    start == epoch_to_end.spec_start(),
                    first == start,
                    count == epoch_to_end.duration,
                    start + count - 1 <= u64::MAX,
                    done <= count,
                    delegations@ == before.delegations_in(start, done as int),
                    undelegations@ == before.undelegations_in(start, done as int),
                    forall|h: int| start <= h < start + done ==> before.recorded_at(h),
                decreases count - done,
            {
                let height: u64 = first + done;
                let mut changes = match self.delegation_changes(height) {
                    Ok(changes) => changes,
                    Err(e) => {
                        proof {
                            let missing = height as int;
                            assert(start <= missing < start + count && !before.recorded_at(
                                missing,
                            ));
                            assert(exists|h: int|
                                start <= h < start + count && !before.recorded_at(h));
                            assert(before.after_epoch(epoch_to_end) == Err::<
                                StakeView,
                                StakingError,
                            >(StakingError::MissingInvariantRecord));
                        }
                        return Err(e);
                    },
                };
                proof {
                    assert(before.recorded_at(height as int));
                }
                delegations.append(&mut changes.delegations);
                undelegations.append(&mut changes.undelegations);
                done = done + 1;
            }
        }
        proof {
            assert(!(count > 0 && start + count - 1 > u64::MAX));
            assert(!exists|h: int| start <= h < start + count && !before.recorded_at(h));
            assert(delegations@ == before.delegations_in(start, count));
            assert(undelegations@ == before.undelegations_in(start, count));
        }
        let chain_params = self.chain_params();
        // We are moving to the next epoch: the rates recorded as the next
        // base rates become the current ones.
        let current_base_rate = match self.next_base_rate() {
            Ok(rate) => rate,
            Err(e) => { return Err(e); },
        };
        let next_base_rate = match current_base_rate.next(chain_params.base_reward_rate) {
            Some(rate) => rate,
            None => { return Err(StakingError::ArithmeticOverflow); },
        };
        self.set_base_rates(current_base_rate, next_base_rate);
        let ghost rolled = self@;
        let ids = self.validator_identity_list();
        let mut i: usize = 0;
        let ghost whole = rolled.after_validators(
            ids@,
            epoch_to_end.index,
            current_base_rate,
            next_base_rate,
            delegations@,
            undelegations@,
        );
        proof {
            assert(before.rolled_base_rates() == Ok::<StakeView, StakingError>(rolled));
            assert(ids@ == before.roster());
            assert(forall|t: StakeView|
                before.stopped_epoch(epoch_to_end, t) == #[trigger] rolled.stopped_after_roll(
                    ids@,
                    epoch_to_end.index,
                    delegations@,
                    undelegations@,
                    t,
                ));
            assert(before.after_epoch(epoch_to_end) == match whole {
                Err(e) => Err::<StakeView, StakingError>(e),
                Ok(updated) => updated.after_release_and_reselection(),
            });
        }
        while i < ids.len()
            invariant
                self.wf(),
                before == old(self)@,
                rolled.current_base_rate == Some(current_base_rate),
                rolled.next_base_rate == Some(next_base_rate),
                forall|t: StakeView|
                    before.stopped_epoch(epoch_to_end, t) == #[trigger] rolled.stopped_after_roll(
                        ids@,
                        epoch_to_end.index,
                        delegations@,
                        undelegations@,
                        t,
                    ),
                i <= ids@.len(),
                whole == rolled.after_validators(
                    ids@,
                    epoch_to_end.index,
                    current_base_rate,
                    next_base_rate,
                    delegations@,
                    undelegations@,
                ),
                before.after_epoch(epoch_to_end) == match whole {
                    Err(e) => Err::<StakeView, StakingError>(e),
                    Ok(updated) => updated.after_release_and_reselection(),
                },
                current_base_rate.epoch_index + 1 == next_base_rate.epoch_index,
                rolled.after_validators(
                    ids@.take(i as int),
                    epoch_to_end.index,
                    current_base_rate,
                    next_base_rate,
                    delegations@,
                    undelegations@,
                ) == Ok::<StakeView, StakingError>(self@),
            decreases ids@.len() - i,
        {
            assert(ids@.take(i as int + 1).drop_last() =~= ids@.take(i as int));
            let ghost reached = self@;
            match self.roll_validator(
                &ids[i],
                epoch_to_end.index,
                &current_base_rate,
                &next_base_rate,
                &delegations,
                &undelegations,
            ) {
                Ok(()) => {},
                Err(e) => {
                    proof {
                        let part = ids@.take(i as int + 1);
                        assert(part.last() == ids@[i as int]);
                        assert(rolled.after_validators(
                            part,
                            epoch_to_end.index,
                            current_base_rate,
                            next_base_rate,
                            delegations@,
                            undelegations@,
                        ) == Err::<StakeView, StakingError>(e));
                        lemma_after_validators_fails(
                            rolled,
                            ids@,
                            i as int + 1,
                            epoch_to_end.index,
                            current_base_rate,
                            next_base_rate,
                            delegations@,
                            undelegations@,
                        );
                        assert(self@ == reached);
                        assert(rolled.after_validators(
                            ids@.take(i as int),
                            epoch_to_end.index,
                            current_base_rate,
                            next_base_rate,
                            delegations@,
                            undelegations@,
                        ) == Ok::<StakeView, StakingError>(self@));
                        assert(rolled.stopped_after_roll(
                            ids@,
                            epoch_to_end.index,
                            delegations@,
                            undelegations@,
                            self@,
                        ));
                    }
                    return Err(e);
                },
            }
            i = i + 1;
        }
        assert(ids@.take(i as int) =~= ids@);
        // Now that every voting power is known for the coming epoch, the
        // active set can be chosen.
        match self.process_validator_unbondings() {
            Ok(()) => {},
            Err(e) => { return Err(e); },
        }
        self.set_active_and_inactive_validators()
    }
}

} // verus!
