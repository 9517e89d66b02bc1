//! The staking component as the chain drives it: once at genesis, and at the
//! begin and the end of every block.

use crate::changes::{DelegationChanges, DelegationChangesView};
use crate::error::StakingError;
use crate::keys::IdentityKey;
use crate::machine::Evidence;
use crate::rate::{BaseRateData, RATE_SCALE};
use crate::read::StateReadExt;
use crate::state::{StakeView, StakingState};
use crate::table::Table;
use crate::tracker::{LastCommitInfo, VoteInfo};
use crate::validator::{Validator, ValidatorView};
use crate::write::StateWriteExt;
use vstd::prelude::*;

verus! {

/// An amount of tokens that exists from genesis on. Staking looks at the
/// allocations of delegation tokens only: `delegation_token_of` names the
/// validator whose delegation token is allocated, and is `None` for any
/// other asset.
#[derive(Clone, Copy, Debug)]
pub struct Allocation {
    pub amount: u64,
    pub delegation_token_of: Option<IdentityKey>,
}

/// What the genesis of the chain gives to staking.
#[derive(Debug)]
pub struct GenesisAppState {
    pub allocations: Vec<Allocation>,
    pub validators: Vec<Validator>,
}

/// What the consensus engine reports at the begin of a block.
#[derive(Debug)]
pub struct BeginBlock {
    pub byzantine_validators: Vec<Evidence>,
    pub last_commit_info: LastCommitInfo,
}

/// What the consensus engine reports at the end of a block.
#[derive(Clone, Copy, Debug)]
pub struct EndBlock {
    pub height: u64,
}

/// The delegation tokens of `validator` that the allocations hold.
pub open spec fn allocated_to(allocations: Seq<Allocation>, validator: IdentityKey) -> nat
    decreases allocations.len(),
{
    if allocations.len() == 0 {
        0
    } else {
        allocated_to(allocations.drop_last(), validator) + if allocations.last().delegation_token_of
            == Some(validator) {
            allocations.last().amount as nat
        } else {
            0nat
        }
    }
}

/// Whether the allocations hold a delegation token of `validator`.
pub open spec fn allocates_to(allocations: Seq<Allocation>, validator: IdentityKey) -> bool {
    exists|i: int|
        0 <= i < allocations.len() && (#[trigger] allocations[i]).delegation_token_of == Some(
            validator,
        )
}

/// The totals of the allocations of delegation tokens, by validator.
pub open spec fn allocation_totals(allocations: Seq<Allocation>) -> Map<IdentityKey, u64> {
    Map::new(
        |id: IdentityKey| allocates_to(allocations, id),
        |id: IdentityKey| allocated_to(allocations, id) as u64,
    )
}

/// The total of every delegation token fits 64 bits.
pub open spec fn allocations_fit(allocations: Seq<Allocation>) -> bool {
    forall|id: IdentityKey| #[trigger] allocated_to(allocations, id) <= u64::MAX
}

/// A part of the allocations holds no more than the whole.
pub proof fn lemma_allocated_prefix(allocations: Seq<Allocation>, validator: IdentityKey, n: int)
    requires
        0 <= n <= allocations.len(),
    ensures
        allocated_to(allocations.take(n), validator) <= allocated_to(allocations, validator),
    decreases allocations.len(),
{
    if n < allocations.len() {
        lemma_allocated_prefix(allocations.drop_last(), validator, n);
        assert(allocations.drop_last().take(n) =~= allocations.take(n));
    } else {
        assert(allocations.take(n) =~= allocations);
    }
}

/// Adds up the allocations of delegation tokens by validator; `None` where
/// a total does not fit 64 bits.
pub fn total_allocations(allocations: &Vec<Allocation>) -> (r: Option<Table<IdentityKey, u64>>)
    ensures
        match r {
            Some(totals) => allocations_fit(allocations@) && totals.wf() && totals.map()
                == allocation_totals(allocations@),
            None => !allocations_fit(allocations@),
        },
{
    let mut totals: Table<IdentityKey, u64> = Table::new();
    let mut i: usize = 0;
    proof {
        assert(totals.map() =~= allocation_totals(allocations@.take(0)));
    }
    while i < allocations.len()
        invariant
            totals.wf(),
            i <= allocations@.len(),
            allocations_fit(allocations@.take(i as int)),
            totals.map() == allocation_totals(allocations@.take(i as int)),
        decreases allocations@.len() - i,
    {
        let ghost part = allocations@.take(i as int);
        let ghost more = allocations@.take(i as int + 1);
        proof {
            assert(more.drop_last() =~= part);
            assert forall|id: IdentityKey| allocates_to(more, id) <==> (allocates_to(part, id)
                || more.last().delegation_token_of == Some(id)) by {
                if allocates_to(more, id) {
                    let j = choose|j: int|
                        0 <= j < more.len() && (#[trigger] more[j]).delegation_token_of == Some(id);
                    if j < i {
                        assert(part[j].delegation_token_of == Some(id));
                    }
                }
                if allocates_to(part, id) {
                    let j = choose|j: int|
                        0 <= j < part.len() && (#[trigger] part[j]).delegation_token_of == Some(id);
                    assert(more[j].delegation_token_of == Some(id));
                }
                if more.last().delegation_token_of == Some(id) {
                    assert(more[i as int].delegation_token_of == Some(id));
                }
            }
        }
        match allocations[i].delegation_token_of {
            Some(id) => {
                let current: u64 = match totals.get(&id) {
                    Some(total) => *total,
                    None => 0,
                };
                proof {
                    if !allocates_to(part, id) {
                        lemma_unallocated(part, id);
                    }
                }
                match current.checked_add(allocations[i].amount) {
                    Some(total) => {
                        totals.put(id, total);
                    },
                    None => {
                        proof {
                            lemma_allocated_prefix(allocations@, id, i as int + 1);
                            assert(allocated_to(allocations@, id) > u64::MAX);
                        }
                        return None;
                    },
                }
            },
            None => {},
        }
        proof {
            assert forall|id: IdentityKey| #[trigger] allocated_to(more, id) <= u64::MAX by {
                assert(allocated_to(part, id) <= u64::MAX);
                if !allocates_to(part, id) {
                    lemma_unallocated(part, id);
                }
            }
            assert(totals.map() =~= allocation_totals(more));
        }
        i = i + 1;
    }
    assert(allocations@.take(i as int) =~= allocations@);
    Some(totals)
}

/// Allocations that hold no delegation token of a validator hold none of
/// its tokens.
pub proof fn lemma_unallocated(allocations: Seq<Allocation>, validator: IdentityKey)
    requires
        !allocates_to(allocations, validator),
    ensures
        allocated_to(allocations, validator) == 0,
    decreases allocations.len(),
{
    if allocations.len() > 0 {
        assert(allocations[allocations.len() - 1].delegation_token_of != Some(validator));
        assert forall|i: int| 0 <= i < allocations.drop_last().len() implies (
        #[trigger] allocations.drop_last()[i]).delegation_token_of != Some(validator) by {
            assert(allocations[i].delegation_token_of != Some(validator));
        }
        lemma_unallocated(allocations.drop_last(), validator);
    }
}

/// The views of a list of validator definitions.
pub open spec fn validator_views(validators: Seq<Validator>) -> Seq<ValidatorView> {
    Seq::new(validators.len(), |i: int| validators[i]@)
}

impl StakeView {
    /// The staking data after the validators of genesis were added, one
    /// after the other.
    pub open spec fn after_genesis_validators(
        self,
        validators: Seq<ValidatorView>,
        genesis_allocations: Map<IdentityKey, u64>,
        genesis_base_rate: BaseRateData,
    ) -> Result<StakeView, StakingError>
        decreases validators.len(),
    {
        if validators.len() == 0 {
            Ok(self)
        } else {
            match self.after_genesis_validators(
                validators.drop_last(),
                genesis_allocations,
                genesis_base_rate,
            ) {
                Ok(s) => s.after_genesis_validator(
                    genesis_allocations,
                    genesis_base_rate,
                    validators.last(),
                ),
                Err(e) => Err(e),
            }
        }
    }

    /// The base rates at genesis: no reward yet, and an exchange rate of 1.
    pub open spec fn genesis_rate(epoch_index: u64) -> BaseRateData {
        BaseRateData { epoch_index, base_reward_rate: 0, base_exchange_rate: RATE_SCALE }
    }

    /// The staking data after the chain was initialised from its genesis.
    ///
    /// The base rates of the epoch of the starting height and of the next
    /// are set; every validator of genesis is added, active and bonded, with
    /// the power of its share of the allocations; the starting block is
    /// recorded as one without delegations; and the first power list is made
    /// for a consensus engine that knows no keys yet.
    pub open spec fn after_init_chain(
        self,
        allocations: Seq<Allocation>,
        validators: Seq<ValidatorView>,
    ) -> Result<StakeView, StakingError> {
        let epoch_index = self.current_epoch().index;
        if epoch_index == u64::MAX || !allocations_fit(allocations) {
            Err(StakingError::ArithmeticOverflow)
        } else {
            let genesis_base_rate = StakeView::genesis_rate(epoch_index);
            let with_rates = StakeView {
                current_base_rate: Some(genesis_base_rate),
                next_base_rate: Some(StakeView::genesis_rate((epoch_index + 1) as u64)),
                ..self
            };
            match with_rates.after_genesis_validators(
                validators,
                allocation_totals(allocations),
                genesis_base_rate,
            ) {
                Err(e) => Err(e),
                Ok(added) => added.after_first_updates(),
            }
        }
    }

    /// The staking data with the block in progress recorded as one without
    /// delegations, for a consensus engine that knows no keys yet.
    pub open spec fn with_first_block(self) -> StakeView {
        StakeView {
            delegation_changes: self.delegation_changes.insert(
                self.block_height,
                DelegationChangesView::empty(),
            ),
            current_consensus_keys: Some(Seq::empty()),
            ..self
        }
    }

    /// The staking data after the block in progress was recorded as one
    /// without delegations and the first power list was made.
    pub open spec fn after_first_updates(self) -> Result<StakeView, StakingError> {
        self.with_first_block().after_updates()
    }

    /// Whether `stopped` is what a failed initialisation leaves behind:
    /// nothing has changed where the epoch or the allocations are out of
    /// range; else the validators before the failing one are added, or all
    /// are and the first power list could not be made.
    pub open spec fn stopped_init_chain(
        self,
        allocations: Seq<Allocation>,
        validators: Seq<ValidatorView>,
        stopped: StakeView,
    ) -> bool {
        let epoch_index = self.current_epoch().index;
        if epoch_index == u64::MAX || !allocations_fit(allocations) {
            stopped == self
        } else {
            let genesis_base_rate = StakeView::genesis_rate(epoch_index);
            let with_rates = StakeView {
                current_base_rate: Some(genesis_base_rate),
                next_base_rate: Some(StakeView::genesis_rate((epoch_index + 1) as u64)),
                ..self
            };
            match with_rates.after_genesis_validators(
                validators,
                allocation_totals(allocations),
                genesis_base_rate,
            ) {
                Err(_) => exists|n: int|
                    0 <= n < validators.len() && #[trigger] with_rates.after_genesis_validators(
                        validators.take(n),
                        allocation_totals(allocations),
                        genesis_base_rate,
                    ) == Ok::<StakeView, StakingError>(stopped),
                Ok(added) => stopped == added.with_first_block(),
            }
        }
    }

    /// Whether `stopped` is what a failed begin of a block leaves behind:
    /// the reports before the failing one are processed, or all are and the
    /// recording of the votes stopped.
    pub open spec fn stopped_begin_block(
        self,
        evidence: Seq<Evidence>,
        votes: Seq<VoteInfo>,
        stopped: StakeView,
    ) -> bool {
        match self.after_evidence_list(evidence) {
            Err(_) => exists|n: int|
                0 <= n < evidence.len() && #[trigger] self.after_evidence_list(evidence.take(n))
                    == Ok::<StakeView, StakingError>(stopped),
            Ok(s) => s.stopped_tracking(votes, stopped),
        }
    }

    /// Whether `stopped` is what a failed end of the block at `height` leaves
    /// behind: the changes of the block are recorded, and the end of the
    /// epoch stopped or the power list could not be made.
    pub open spec fn stopped_end_block(self, height: u64, stopped: StakeView) -> bool {
        let recorded = StakeView {
            delegation_changes: self.delegation_changes.insert(height, self.pending_changes),
            ..self
        };
        let epoch = self.current_epoch();
        if self.block_height == epoch.spec_end() {
            match recorded.after_epoch(epoch) {
                Err(_) => recorded.stopped_epoch(epoch, stopped),
                Ok(ended) => stopped == ended,
            }
        } else {
            stopped == recorded
        }
    }

    /// The staking data after the reports of misbehaviour were processed,
    /// one after the other.
    pub open spec fn after_evidence_list(self, evidence: Seq<Evidence>) -> Result<
        StakeView,
        StakingError,
    >
        decreases evidence.len(),
    {
        if evidence.len() == 0 {
            Ok(self)
        } else {
            match self.after_evidence_list(evidence.drop_last()) {
                Ok(s) => s.after_evidence(evidence.last().address),
                Err(e) => Err(e),
            }
        }
    }

    /// The staking data after the begin of a block: the validators that the
    /// consensus engine reports for misbehaviour are tombstoned, then the
    /// votes on the last block are recorded.
    pub open spec fn after_begin_block(self, evidence: Seq<Evidence>, votes: Seq<VoteInfo>) -> Result<
        StakeView,
        StakingError,
    > {
        match self.after_evidence_list(evidence) {
            Ok(s) => s.after_uptime_tracking(votes),
            Err(e) => Err(e),
        }
    }

    /// The staking data after the end of the block at `height`: the
    /// delegation changes of the block are recorded under its height; if the
    /// block in progress is the last of its epoch, the epoch ends; and the
    /// power list for the consensus engine is made.
    pub open spec fn after_end_block(self, height: u64) -> Result<StakeView, StakingError> {
        let recorded = StakeView {
            delegation_changes: self.delegation_changes.insert(height, self.pending_changes),
            ..self
        };
        let epoch = self.current_epoch();
        let ended = if self.block_height == epoch.spec_end() {
            recorded.after_epoch(epoch)
        } else {
            Ok(recorded)
        };
        match ended {
            Ok(s) => s.after_updates(),
            Err(e) => Err(e),
        }
    }
}

/// Where adding the validators of genesis fails for a part of them, it
/// fails in the same way for all.
pub proof fn lemma_after_genesis_validators_fails(
    s: StakeView,
    validators: Seq<ValidatorView>,
    n: int,
    genesis_allocations: Map<IdentityKey, u64>,
    genesis_base_rate: BaseRateData,
)
    requires
        0 <= n <= validators.len(),
        s.after_genesis_validators(validators.take(n), genesis_allocations, genesis_base_rate)
            is Err,
    ensures
        s.after_genesis_validators(validators, genesis_allocations, genesis_base_rate)
            == s.after_genesis_validators(
            validators.take(n),
            genesis_allocations,
            genesis_base_rate,
        ),
    decreases validators.len(),
{
    if n < validators.len() {
        assert(validators.drop_last().take(n) =~= validators.take(n));
        lemma_after_genesis_validators_fails(
            s,
            validators.drop_last(),
            n,
            genesis_allocations,
            genesis_base_rate,
        );
    } else {
        assert(validators.take(n) =~= validators);
    }
}

/// Where processing the reports of misbehaviour fails for a part of them,
/// it fails in the same way for all.
pub proof fn lemma_after_evidence_list_fails(s: StakeView, evidence: Seq<Evidence>, n: int)
    requires
        0 <= n <= evidence.len(),
        s.after_evidence_list(evidence.take(n)) is Err,
    ensures
        s.after_evidence_list(evidence) == s.after_evidence_list(evidence.take(n)),
    decreases evidence.len(),
{
    if n < evidence.len() {
        assert(evidence.drop_last().take(n) =~= evidence.take(n));
        lemma_after_evidence_list_fails(s, evidence.drop_last(), n);
    } else {
        assert(evidence.take(n) =~= evidence);
    }
}

/// The staking component.
pub struct Staking {}

impl Staking {
    /// Initialises the staking data from the genesis of the chain.
    ///
    /// Where it fails, the staking data holds the changes made up to the
    /// failure and is to be abandoned.
    pub fn init_chain(state: &mut StakingState, app_state: &GenesisAppState) -> (r: Result<
        (),
        StakingError,
    >)
        requires
            old(state).wf(),
            forall|i: int|
                0 <= i < app_state.validators@.len() ==> (#[trigger] app_state.validators@[i]).wf(),
        ensures
            final(state).wf(),
            match r {
                Ok(()) => old(state)@.after_init_chain(
                    app_state.allocations@,
                    validator_views(app_state.validators@),
                ) == Ok::<StakeView, StakingError>(final(state)@),
                Err(e) => old(state)@.after_init_chain(
                    app_state.allocations@,
                    validator_views(app_state.validators@),
                ) == Err::<StakeView, StakingError>(e) && old(state)@.stopped_init_chain(
                    app_state.allocations@,
                    validator_views(app_state.validators@),
                    final(state)@,
                ),
            },
    {
        let ghost before = state@;
        let ghost views = validator_views(app_state.validators@);
        let starting_height = state.block_height();
        let epoch_index = state.current_epoch().index;
        if epoch_index == u64::MAX {
            return Err(StakingError::ArithmeticOverflow);
        }
        // Compile totals of genesis allocations by delegation token, from
        // which the starting power of each validator follows.
        let genesis_allocations = match total_allocations(&app_state.allocations) {
            Some(totals) => totals,
            None => { return Err(StakingError::ArithmeticOverflow); },
        };
        // Delegations require knowing the rates for the next epoch, so both
        // epochs start with no reward and an exchange rate of 1.
        let genesis_base_rate = BaseRateData {
            epoch_index,
            base_reward_rate: 0,
            base_exchange_rate: 100_000_000,
        };
        let next_base_rate = BaseRateData {
            epoch_index: epoch_index + 1,
            base_reward_rate: 0,
            base_exchange_rate: 100_000_000,
        };
        state.set_base_rates(genesis_base_rate, next_base_rate);
        let ghost with_rates = state@;
        let ghost whole = with_rates.after_genesis_validators(
            views,
            genesis_allocations.map(),
            genesis_base_rate,
        );
        let mut i: usize = 0;
        proof {
            assert(before.after_init_chain(app_state.allocations@, views) == match whole {
                Err(e) => Err::<StakeView, StakingError>(e),
                Ok(added) => added.after_first_updates(),
            });
            assert(forall|t: StakeView| #[trigger]
                before.stopped_init_chain(app_state.allocations@, views, t) == match whole {
                    Err(_) => exists|n: int|
                        0 <= n < views.len() && #[trigger] with_rates.after_genesis_validators(
                            views.take(n),
                            genesis_allocations.map(),
                            genesis_base_rate,
                        ) == Ok::<StakeView, StakingError>(t),
                    Ok(added) => t == added.with_first_block(),
                });
        }
        while i < app_state.validators.len()
            invariant
                state.wf(),
                before == old(state)@,
                before.after_init_chain(app_state.allocations@, views) == match whole {
                    Err(e) => Err::<StakeView, StakingError>(e),
                    Ok(added) => added.after_first_updates(),
                },
                forall|t: StakeView| #[trigger]
                    before.stopped_init_chain(app_state.allocations@, views, t) == match whole {
                        Err(_) => exists|n: int|
                            0 <= n < views.len() && #[trigger] with_rates.after_genesis_validators(
                                views.take(n),
                                genesis_allocations.map(),
                                genesis_base_rate,
                            ) == Ok::<StakeView, StakingError>(t),
                        Ok(added) => t == added.with_first_block(),
                    },
                views.len() == app_state.validators@.len(),
                starting_height == state@.block_height,
                genesis_allocations.wf(),
                views == validator_views(app_state.validators@),
                forall|i: int|
                    0 <= i < app_state.validators@.len() ==> (
                    #[trigger] app_state.validators@[i]).wf(),
                i <= app_state.validators@.len(),
                whole == with_rates.after_genesis_validators(
                    views,
                    genesis_allocations.map(),
                    genesis_base_rate,
                ),
                with_rates.after_genesis_validators(
                    views.take(i as int),
                    genesis_allocations.map(),
                    genesis_base_rate,
                ) == Ok::<StakeView, StakingError>(state@),
            decreases app_state.validators@.len() - i,
        {
            assert(views.take(i as int + 1).drop_last() =~= views.take(i as int));
            assert(views.take(i as int + 1).last() == app_state.validators@[i as int]@);
            let validator = app_state.validators[i].clone();
            let ghost reached = state@;
            match state.add_genesis_validator(&genesis_allocations, &genesis_base_rate, validator) {
                Ok(()) => {},
                Err(e) => {
                    proof {
                        assert(state@ == reached);
                        assert(with_rates.after_genesis_validators(
                            views.take(i as int),
                            genesis_allocations.map(),
                            genesis_base_rate,
                        ) == Ok::<StakeView, StakingError>(state@));
                        assert(with_rates.after_genesis_validators(
                            views.take(i as int + 1),
                            genesis_allocations.map(),
                            genesis_base_rate,
                        ) == Err::<StakeView, StakingError>(e));
                        lemma_after_genesis_validators_fails(
                            with_rates,
                            views,
                            i as int + 1,
                            genesis_allocations.map(),
                            genesis_base_rate,
                        );
                    }
                    return Err(e);
                },
            }
            i = i + 1;
        }
        assert(views.take(i as int) =~= views);
        // Record that there were no delegations in this block, so that the
        // data is there when the first epoch ends.
        state.set_delegation_changes(starting_height, DelegationChanges::new());
        // Build the initial validator set update for a consensus engine
        // that has not been told of any key.
        state.put_current_consensus_keys(Vec::new());
        state.build_tendermint_validator_updates()
    }

    /// Processes the begin of a block: tombstones the validators reported
    /// for misbehaviour and records the votes on the last block.
    ///
    /// Where it fails, the staking data holds the changes made up to the
    /// failure and is to be abandoned.
    pub fn begin_block(state: &mut StakingState, begin_block: &BeginBlock) -> (r: Result<
        (),
        StakingError,
    >)
        requires
            old(state).wf(),
        ensures
            final(state).wf(),
            match r {
                Ok(()) => old(state)@.after_begin_block(
                    begin_block.byzantine_validators@,
                    begin_block.last_commit_info.votes@,
                ) == Ok::<StakeView, StakingError>(final(state)@),
                Err(e) => old(state)@.after_begin_block(
                    begin_block.byzantine_validators@,
                    begin_block.last_commit_info.votes@,
                ) == Err::<StakeView, StakingError>(e) && old(state)@.stopped_begin_block(
                    begin_block.byzantine_validators@,
                    begin_block.last_commit_info.votes@,
                    final(state)@,
                ),
            },
    {
        let ghost before = state@;
        let ghost evidence = begin_block.byzantine_validators@;
        // Every validator that the consensus engine found misbehaving is
        // slashed.
        let mut i: usize = 0;
        while i < begin_block.byzantine_validators.len()
            invariant
                state.wf(),
                before == old(state)@,
                evidence == begin_block.byzantine_validators@,
                i <= evidence.len(),
                before.after_evidence_list(evidence.take(i as int)) == Ok::<
                    StakeView,
                    StakingError,
                >(state@),
            decreases evidence.len() - i,
        {
            assert(evidence.take(i as int + 1).drop_last() =~= evidence.take(i as int));
            assert(evidence.take(i as int + 1).last() == evidence[i as int]);
            let ghost reached = state@;
            match state.process_evidence(&begin_block.byzantine_validators[i]) {
                Ok(()) => {},
                Err(e) => {
                    proof {
                        assert(state@ == reached);
                        assert(before.after_evidence_list(evidence.take(i as int)) == Ok::<
                            StakeView,
                            StakingError,
                        >(state@));
                        assert(before.after_evidence_list(evidence.take(i as int + 1)) == Err::<
                            StakeView,
                            StakingError,
                        >(e));
                        lemma_after_evidence_list_fails(before, evidence, i as int + 1);
                    }
                    return Err(e);
                },
            }
            i = i + 1;
        }
        assert(evidence.take(i as int) =~= evidence);
        state.track_uptime(&begin_block.last_commit_info)
    }

    /// Processes the end of a block: records the delegation changes of the
    /// block, ends the epoch if the block is its last, and makes the power
    /// list for the consensus engine.
    ///
    /// Where it fails, the staking data holds the changes made up to the
    /// failure and is to be abandoned.
    pub fn end_block(state: &mut StakingState, end_block: &EndBlock) -> (r: Result<
        (),
        StakingError,
    >)
        requires
            old(state).wf(),
        ensures
            final(state).wf(),
            match r {
                Ok(()) => old(state)@.after_end_block(end_block.height) == Ok::<
                    StakeView,
                    StakingError,
                >(final(state)@),
                Err(e) => old(state)@.after_end_block(end_block.height) == Err::<
                    StakeView,
                    StakingError,
                >(e) && old(state)@.stopped_end_block(end_block.height, final(state)@),
            },
    {
        // Write the delegation changes for this block.
        let changes = state.stub_delegation_changes();
        state.set_delegation_changes(end_block.height, changes);
        // If this is an epoch boundary, updated rates need to be calculated
        // and set.
        let cur_epoch = state.current_epoch();
        let cur_height = state.block_height();
        if cur_epoch.is_epoch_end(cur_height) {
            match state.end_epoch(cur_epoch) {
                Ok(()) => {},
                Err(e) => { return Err(e); },
            }
        }
        state.build_tendermint_validator_updates()
    }
}

} // verus!
