//! Laws of the staking data that follow from the models of its operations.

use crate::chain::Epoch;
use crate::changes::{Delegate, Undelegate};
use crate::error::StakingError;
use crate::chain::MAX_VOTING_POWER;
use crate::keys::{ConsensusAddress, IdentityKey, TableKey};
use crate::table::{ascending, lemma_ascending_distinct};
use crate::machine::{spec_transition, Transition};
use crate::rate::BaseRateData;
use crate::state::StakeView;
use crate::tracker::{counted_as_signed, VoteInfo};
use crate::validator::State;
use vstd::prelude::*;

verus! {

/// The transition table, pair by pair: each of the 25 ordered pairs of
/// states has exactly the one outcome listed here.
pub proof fn lemma_transition_table()
    ensures
        spec_transition(State::Inactive, State::Inactive) == Transition::NoOp,
        spec_transition(State::Inactive, State::Active) == Transition::Activate,
        spec_transition(State::Inactive, State::Disabled) == Transition::RecordOnly,
        spec_transition(State::Inactive, State::Jailed) == Transition::Illegal,
        spec_transition(State::Inactive, State::Tombstoned) == Transition::Tombstone,
        spec_transition(State::Active, State::Inactive) == Transition::BeginUnbonding,
        spec_transition(State::Active, State::Active) == Transition::NoOp,
        spec_transition(State::Active, State::Disabled) == Transition::BeginUnbonding,
        spec_transition(State::Active, State::Jailed) == Transition::Jail,
        spec_transition(State::Active, State::Tombstoned) == Transition::Tombstone,
        spec_transition(State::Disabled, State::Inactive) == Transition::RecordOnly,
        spec_transition(State::Disabled, State::Active) == Transition::Illegal,
        spec_transition(State::Disabled, State::Disabled) == Transition::NoOp,
        spec_transition(State::Disabled, State::Jailed) == Transition::Illegal,
        spec_transition(State::Disabled, State::Tombstoned) == Transition::Tombstone,
        spec_transition(State::Jailed, State::Inactive) == Transition::RecordOnly,
        spec_transition(State::Jailed, State::Active) == Transition::Illegal,
        spec_transition(State::Jailed, State::Disabled) == Transition::RecordOnly,
        spec_transition(State::Jailed, State::Jailed) == Transition::Illegal,
        spec_transition(State::Jailed, State::Tombstoned) == Transition::Tombstone,
        spec_transition(State::Tombstoned, State::Inactive) == Transition::Illegal,
        spec_transition(State::Tombstoned, State::Active) == Transition::Illegal,
        spec_transition(State::Tombstoned, State::Disabled) == Transition::Illegal,
        spec_transition(State::Tombstoned, State::Jailed) == Transition::Illegal,
        spec_transition(State::Tombstoned, State::Tombstoned) == Transition::Illegal,
{
}

/// A transition fails as illegal exactly where the table says it is, and a
/// transition that the table calls no change changes nothing.
pub proof fn lemma_transition_outcomes(s: StakeView, id: IdentityKey, cur: State, new: State)
    ensures
        spec_transition(cur, new) is Illegal <==> s.after_transition(id, cur, new) == Err::<
            StakeView,
            StakingError,
        >(StakingError::IllegalTransition),
        spec_transition(cur, new) is NoOp ==> s.after_transition(id, cur, new) == Ok::<
            StakeView,
            StakingError,
        >(s),
        s.after_transition(id, cur, new) is Ok && !(spec_transition(cur, new) is NoOp)
            ==> s.after_transition(id, cur, new)->Ok_0.states.get(id) == Some(new),
{
}

/// Tombstoning is forever: no transition leaves `Tombstoned`, not even the
/// one to `Tombstoned` itself, and a tombstoned validator cannot be asked to
/// change state.
pub proof fn lemma_tombstoned_is_absorbing(s: StakeView, id: IdentityKey, new: State)
    ensures
        s.after_transition(id, State::Tombstoned, new) == Err::<StakeView, StakingError>(
            StakingError::IllegalTransition,
        ),
        s.states.get(id) == Some(State::Tombstoned) ==> s.after_state_change(id, new) == Err::<
            StakeView,
            StakingError,
        >(StakingError::IllegalTransition),
{
}

/// The pass over the validators at the end of an epoch leaves the base
/// rates, the validator definitions, the states and the bonding states as
/// they are, and gives every validator it visits next rates of the epoch
/// after next.
pub proof fn lemma_after_validators(
    s: StakeView,
    ids: Seq<IdentityKey>,
    epoch_index: u64,
    current_base_rate: BaseRateData,
    next_base_rate: BaseRateData,
    delegations: Seq<Delegate>,
    undelegations: Seq<Undelegate>,
)
    requires
        s.after_validators(
            ids,
            epoch_index,
            current_base_rate,
            next_base_rate,
            delegations,
            undelegations,
        ) is Ok,
    ensures
        ({
            let t = s.after_validators(
                ids,
                epoch_index,
                current_base_rate,
                next_base_rate,
                delegations,
                undelegations,
            )->Ok_0;
            &&& t.current_base_rate == s.current_base_rate
            &&& t.next_base_rate == s.next_base_rate
            &&& t.validators == s.validators
            &&& t.states == s.states
            &&& t.bonding_states == s.bonding_states
            &&& t.uptimes == s.uptimes
            &&& t.chain_params == s.chain_params
            &&& t.block_height == s.block_height
            &&& forall|j: int|
                0 <= j < ids.len() ==> t.next_rates.dom().contains(#[trigger] ids[j])
                    && t.next_rates[ids[j]].epoch_index == epoch_index + 2
                    && t.current_rates.dom().contains(ids[j]) && t.powers.dom().contains(ids[j])
        }),
    decreases ids.len(),
{
    if ids.len() > 0 {
        lemma_after_validators(
            s,
            ids.drop_last(),
            epoch_index,
            current_base_rate,
            next_base_rate,
            delegations,
            undelegations,
        );
        let mid = s.after_validators(
            ids.drop_last(),
            epoch_index,
            current_base_rate,
            next_base_rate,
            delegations,
            undelegations,
        )->Ok_0;
        let t = s.after_validators(
            ids,
            epoch_index,
            current_base_rate,
            next_base_rate,
            delegations,
            undelegations,
        )->Ok_0;
        assert forall|j: int| 0 <= j < ids.len() implies t.next_rates.dom().contains(
            #[trigger] ids[j],
        ) && t.next_rates[ids[j]].epoch_index == epoch_index + 2 && t.current_rates.dom().contains(
            ids[j],
        ) && t.powers.dom().contains(ids[j]) by {
            if j < ids.len() - 1 {
                assert(ids.drop_last()[j] == ids[j]);
            }
        }
    }
}

/// Rate rollover: where the next base rates are those of the epoch after
/// `epoch`, the end of `epoch` leaves next base rates of the epoch after
/// that, and next rates of that same epoch for every known validator.
pub proof fn lemma_rollover_epochs(s: StakeView, epoch: Epoch)
    requires
        s.wf(),
        s.next_base_rate matches Some(next) && next.epoch_index == epoch.index + 1,
        s.after_epoch(epoch) is Ok,
    ensures
        ({
            let t = s.after_epoch(epoch)->Ok_0;
            &&& t.current_base_rate matches Some(current) && current.epoch_index == epoch.index + 1
            &&& t.next_base_rate matches Some(next) && next.epoch_index == epoch.index + 2
            &&& forall|id: IdentityKey| #[trigger]
                s.validators.dom().contains(id) ==> t.next_rates.dom().contains(id)
                    && t.next_rates[id].epoch_index == epoch.index + 2
        }),
{
    let start = epoch.spec_start();
    let count = epoch.duration as int;
    let rolled = s.rolled_base_rates()->Ok_0;
    let ids = s.roster();
    let delegations = s.delegations_in(start, count);
    let undelegations = s.undelegations_in(start, count);
    lemma_after_validators(
        rolled,
        ids,
        epoch.index,
        rolled.current_base_rate->0,
        rolled.next_base_rate->0,
        delegations,
        undelegations,
    );
    let updated = rolled.after_validators(
        ids,
        epoch.index,
        rolled.current_base_rate->0,
        rolled.next_base_rate->0,
        delegations,
        undelegations,
    )->Ok_0;
    let released = updated.after_unbondings()->Ok_0;
    let t = s.after_epoch(epoch)->Ok_0;
    assert(t == released.after_reselection()->Ok_0);
    assert forall|id: IdentityKey| #[trigger] s.validators.dom().contains(id) implies t.next_rates.dom().contains(
        id,
    ) && t.next_rates[id].epoch_index == epoch.index + 2 by {
        assert(ids.contains(id));
        let j = ids.index_of(id);
        assert(updated.next_rates.dom().contains(ids[j]));
    }
}

/// The end of an epoch leaves a validator with current rates of the epoch
/// that follows and next rates of the epoch after that: the two stay one
/// epoch apart, and slashing never raises the exchange rate.
pub proof fn lemma_rates_stay_consecutive(
    s: StakeView,
    id: IdentityKey,
    epoch_index: u64,
    current_base_rate: BaseRateData,
    next_base_rate: BaseRateData,
    delegations: Seq<Delegate>,
    undelegations: Seq<Undelegate>,
)
    requires
        s.wf(),
        s.after_validator_epoch(
            id,
            epoch_index,
            current_base_rate,
            next_base_rate,
            delegations,
            undelegations,
        ) is Ok,
    ensures
        ({
            let t = s.after_validator_epoch(
                id,
                epoch_index,
                current_base_rate,
                next_base_rate,
                delegations,
                undelegations,
            )->Ok_0;
            &&& t.current_rates[id].epoch_index == epoch_index + 1
            &&& t.next_rates[id].epoch_index == epoch_index + 2
            &&& t.current_rates[id].epoch_index == s.next_rates[id].epoch_index
            &&& t.current_rates[id].validator_exchange_rate
                <= s.next_rates[id].validator_exchange_rate
            &&& t.powers[id] <= crate::chain::MAX_VOTING_POWER
        }),
{
    let rate = s.next_rates[id];
    let penalty = match s.penalties.get(crate::ledger::bucket(id, epoch_index as int)) {
        Some(p) => p,
        None => crate::penalty::Penalty(0),
    };
    assert(penalty.wf());
    assert(0 <= rate.validator_exchange_rate as int * penalty.0 as int
        <= rate.validator_exchange_rate as int * 100_000_000) by (nonlinear_arith)
        requires
            0 <= rate.validator_exchange_rate,
            0 <= penalty.0 <= 100_000_000,
    ;
}

/// At the first block every validator counts as having signed, whatever the
/// votes say.
pub proof fn lemma_first_block_counts_as_signed(votes: Seq<VoteInfo>, address: ConsensusAddress)
    ensures
        counted_as_signed(votes, address, 1),
{
}

/// An active validator is jailed by the vote on a block exactly where its
/// window, with that block recorded, holds at least as many missed blocks
/// as the chain allows; otherwise it stays active and its window is kept.
pub proof fn lemma_jailed_at_maximum(s: StakeView, id: IdentityKey, votes: Seq<VoteInfo>)
    requires
        s.info_of(id) matches Some(info) && info.status.state is Active,
        s.after_vote(id, votes) is Ok,
    ensures
        ({
            let t = s.after_vote(id, votes)->Ok_0;
            let address = crate::address::spec_validator_address(
                s.info_of(id)->0.validator.consensus_key,
            );
            let signed = counted_as_signed(votes, address, s.block_height);
            let marked = s.uptimes[id].marked(s.block_height, signed)->Ok_0;
            &&& s.uptimes.dom().contains(id)
            &&& s.uptimes[id].marked(s.block_height, signed) is Ok
            &&& (t.states[id] is Jailed) <==> marked.num_missed_blocks()
                >= s.chain_params.missed_blocks_maximum
            &&& marked.num_missed_blocks() < s.chain_params.missed_blocks_maximum ==> t.states[id]
                is Active && t.uptimes[id] == marked
        }),
{
}

/// A validator without voting power is never chosen for the active set, and
/// neither is one that is disabled, jailed or tombstoned.
pub proof fn lemma_selection_needs_power(s: StakeView, id: IdentityKey)
    ensures
        s.selected(id) ==> s.powers.dom().contains(id) && s.powers[id] > 0,
        s.selected(id) ==> s.states[id] is Active || s.states[id] is Inactive,
{
}

/// The choice of the active set leaves every validator that is disabled,
/// jailed or tombstoned as it is, makes every chosen validator active and
/// every other eligible one inactive.
pub proof fn lemma_reselection_states(s: StakeView, id: IdentityKey)
    requires
        s.after_reselection() is Ok,
        s.states.dom().contains(id),
    ensures
        ({
            let t = s.after_reselection()->Ok_0;
            &&& t.states.dom().contains(id)
            &&& !s.eligible(id) ==> t.states[id] == s.states[id] && t.bonding_states.get(id)
                == s.bonding_states.get(id) && t.uptimes.get(id) == s.uptimes.get(id)
            &&& s.eligible(id) && s.selected(id) ==> t.states[id] is Active
            &&& s.eligible(id) && !s.selected(id) ==> t.states[id] is Inactive
        }),
{
}

/// Of two different validators one is placed before the other, nobody is
/// placed before itself, and being placed before is transitive.
pub proof fn lemma_outranks_is_an_order(s: StakeView, a: IdentityKey, b: IdentityKey, c: IdentityKey)
    ensures
        !s.outranks(a, a),
        s.outranks(a, b) && s.outranks(b, c) ==> s.outranks(a, c),
        a != b ==> s.outranks(a, b) || s.outranks(b, a),
{
    IdentityKey::lemma_strict_total_order(a, b, c);
    IdentityKey::lemma_strict_total_order(a, a, a);
}

/// A validator that is placed before another has fewer contenders before
/// it: all that are placed before it are placed before the other too, and
/// so is it itself if it contends.
pub proof fn lemma_rank_grows_down_the_order(
    s: StakeView,
    ids: Seq<IdentityKey>,
    upper: IdentityKey,
    lower: IdentityKey,
)
    requires
        ascending(ids),
        s.outranks(upper, lower),
    ensures
        s.rank_among(ids, upper) + (if ids.contains(upper) && s.contends(upper) {
            1nat
        } else {
            0nat
        }) <= s.rank_among(ids, lower),
    decreases ids.len(),
{
    if ids.len() > 0 {
        let rest = ids.drop_last();
        let x = ids.last();
        assert(ascending(rest)) by {
            assert forall|i: int, j: int| 0 <= i < j < rest.len() implies (#[trigger] rest[i]).before(
                #[trigger] rest[j],
            ) by {
                assert(ids[i].before(ids[j]));
            }
        }
        lemma_rank_grows_down_the_order(s, rest, upper, lower);
        lemma_outranks_is_an_order(s, x, upper, lower);
        lemma_outranks_is_an_order(s, upper, upper, lower);
        if rest.contains(upper) {
            let i = rest.index_of(upper);
            assert(ids[i] == upper);
            if x == upper {
                lemma_ascending_distinct(ids, i, ids.len() - 1);
            }
        }
        if ids.contains(upper) && !rest.contains(upper) {
            let i = ids.index_of(upper);
            if i < ids.len() - 1 {
                assert(rest[i] == upper);
            }
            assert(x == upper);
        }
        if x == upper {
            assert(ids[ids.len() - 1] == upper);
            assert(ids.contains(upper));
        }
    } else {
        assert(!ids.contains(upper));
    }
}

/// The active set takes the contenders from the top: whoever is chosen is
/// placed before every contender that is not chosen.
pub proof fn lemma_chosen_outrank_the_rest(s: StakeView, chosen: IdentityKey, other: IdentityKey)
    requires
        s.wf(),
        s.selected(chosen),
        s.contends(other),
        !s.selected(other),
    ensures
        s.outranks(chosen, other),
{
    lemma_outranks_is_an_order(s, chosen, other, chosen);
    if s.outranks(other, chosen) {
        assert(s.roster().contains(other));
        lemma_rank_grows_down_the_order(s, s.roster(), other, chosen);
    }
}

/// The number of validators among `ids` that are chosen for the active
/// set.
pub open spec fn chosen_among(s: StakeView, ids: Seq<IdentityKey>) -> nat
    decreases ids.len(),
{
    if ids.len() == 0 {
        0
    } else {
        chosen_among(s, ids.drop_last()) + if s.selected(ids.last()) {
            1nat
        } else {
            0nat
        }
    }
}

/// Whether every chosen validator among `ids` is `bottom` or is placed
/// before it.
pub open spec fn below_all_chosen(s: StakeView, ids: Seq<IdentityKey>, bottom: IdentityKey) -> bool {
    forall|j: int|
        0 <= j < ids.len() && s.selected(#[trigger] ids[j]) ==> ids[j] == bottom || s.outranks(
            ids[j],
            bottom,
        )
}

/// Where some validator among `ids` is chosen, one of the chosen is placed
/// last of them.
proof fn lemma_last_chosen(s: StakeView, ids: Seq<IdentityKey>) -> (bottom: IdentityKey)
    requires
        chosen_among(s, ids) > 0,
    ensures
        s.selected(bottom),
        ids.contains(bottom),
        below_all_chosen(s, ids, bottom),
    decreases ids.len(),
{
    let rest = ids.drop_last();
    let x = ids.last();
    assert(ids[ids.len() - 1] == x);
    if chosen_among(s, rest) == 0 {
        lemma_none_chosen(s, rest);
        assert forall|j: int| 0 <= j < ids.len() && s.selected(#[trigger] ids[j]) implies ids[j]
            == x || s.outranks(ids[j], x) by {
            if j < ids.len() - 1 {
                assert(rest[j] == ids[j]);
            }
        }
        x
    } else {
        let lower = lemma_last_chosen(s, rest);
        let i = rest.index_of(lower);
        assert(ids[i] == lower);
        if s.selected(x) && s.outranks(lower, x) {
            assert forall|j: int| 0 <= j < ids.len() && s.selected(#[trigger] ids[j]) implies ids[j]
                == x || s.outranks(ids[j], x) by {
                if j < ids.len() - 1 {
                    assert(rest[j] == ids[j]);
                    lemma_outranks_is_an_order(s, ids[j], lower, x);
                }
            }
            x
        } else {
            assert forall|j: int| 0 <= j < ids.len() && s.selected(#[trigger] ids[j]) implies ids[j]
                == lower || s.outranks(ids[j], lower) by {
                if j < ids.len() - 1 {
                    assert(rest[j] == ids[j]);
                } else {
                    lemma_outranks_is_an_order(s, x, lower, x);
                }
            }
            lower
        }
    }
}

/// Where the count of the chosen is zero, nobody is chosen.
proof fn lemma_none_chosen(s: StakeView, ids: Seq<IdentityKey>)
    requires
        chosen_among(s, ids) == 0,
    ensures
        forall|j: int| 0 <= j < ids.len() ==> !s.selected(#[trigger] ids[j]),
    decreases ids.len(),
{
    if ids.len() > 0 {
        lemma_none_chosen(s, ids.drop_last());
        assert forall|j: int| 0 <= j < ids.len() implies !s.selected(#[trigger] ids[j]) by {
            if j < ids.len() - 1 {
                assert(ids.drop_last()[j] == ids[j]);
            }
        }
    }
}

/// The chosen among `ids` are no more than the contenders placed before the
/// last of them, and that one itself.
proof fn lemma_chosen_are_counted_by_rank(s: StakeView, ids: Seq<IdentityKey>, bottom: IdentityKey)
    requires
        ascending(ids),
        below_all_chosen(s, ids, bottom),
    ensures
        chosen_among(s, ids) <= s.rank_among(ids, bottom) + (if ids.contains(bottom) {
            1nat
        } else {
            0nat
        }),
    decreases ids.len(),
{
    if ids.len() > 0 {
        let rest = ids.drop_last();
        let x = ids.last();
        assert(ids[ids.len() - 1] == x);
        assert(ids.contains(x));
        assert(ascending(rest)) by {
            assert forall|i: int, j: int| 0 <= i < j < rest.len() implies (#[trigger] rest[i]).before(
                #[trigger] rest[j],
            ) by {
                assert(ids[i].before(ids[j]));
            }
        }
        assert forall|j: int| 0 <= j < rest.len() && s.selected(#[trigger] rest[j]) implies rest[j]
            == bottom || s.outranks(rest[j], bottom) by {
            assert(rest[j] == ids[j]);
        }
        lemma_chosen_are_counted_by_rank(s, rest, bottom);
        if rest.contains(bottom) {
            let i = rest.index_of(bottom);
            assert(ids[i] == bottom);
            assert(ids.contains(bottom));
            if x == bottom {
                lemma_ascending_distinct(ids, i, ids.len() - 1);
            }
        }
    }
}

/// The active set never has more members than places: no more validators
/// are chosen than the chain's limit allows.
pub proof fn lemma_at_most_the_limit_is_chosen(s: StakeView)
    requires
        s.wf(),
    ensures
        chosen_among(s, s.roster()) <= s.chain_params.active_validator_limit,
{
    let ids = s.roster();
    if chosen_among(s, ids) > 0 {
        let bottom = lemma_last_chosen(s, ids);
        lemma_chosen_are_counted_by_rank(s, ids, bottom);
    }
}

} // verus!
