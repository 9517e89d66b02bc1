//! The staking data of the chain and its mathematical model.
//!
//! `StakingState` holds, table by table, what the chain records for staking.
//! `StakeView` is its model: one `Map` per table. Every operation of the
//! library states in its contract how the model after it relates to the
//! model before it.

use crate::chain::{ChainParameters, Epoch, MAX_VOTING_POWER};
use crate::changes::{DelegationChanges, DelegationChangesView};
use crate::keys::{ConsensusAddress, ConsensusKey, IdentityKey, PenaltyKey};
use crate::penalty::Penalty;
use crate::rate::{BaseRateData, RateData};
use crate::table::{ascending_listing, lemma_listing_of_keys, lists_ascending, Table};
use crate::uptime::{Uptime, UptimeView};
use crate::validator::{Address, BondingState, State, Validator, ValidatorView};
use vstd::prelude::*;

verus! {

/// A voting power to hand to the consensus engine for one consensus key.
#[derive(Clone, Copy, Debug)]
pub struct ValidatorUpdate {
    pub pub_key: ConsensusKey,
    pub power: u64,
}

/// A request to mint staking tokens to an address as the commission of a
/// funding stream for the epoch `epoch_index`.
#[derive(Clone, Copy, Debug)]
pub struct MintRequest {
    pub amount: u64,
    pub destination: Address,
    pub epoch_index: u64,
}

/// A map of values seen through their views.
pub open spec fn viewed<K, V: View>(m: Map<K, V>) -> Map<K, V::V> {
    Map::new(|k: K| m.dom().contains(k), |k: K| m[k]@)
}

/// Storing a value stores its view.
pub proof fn lemma_viewed_insert<K, V: View>(m: Map<K, V>, k: K, v: V)
    ensures
        viewed(m.insert(k, v)) == viewed(m).insert(k, v@),
{
    assert(viewed(m.insert(k, v)) =~= viewed(m).insert(k, v@));
}

/// The mathematical model of the staking data.
pub struct StakeView {
    pub chain_params: ChainParameters,
    pub block_height: u64,
    pub validators: Map<IdentityKey, ValidatorView>,
    pub states: Map<IdentityKey, State>,
    pub bonding_states: Map<IdentityKey, BondingState>,
    pub powers: Map<IdentityKey, u64>,
    pub current_rates: Map<IdentityKey, RateData>,
    pub next_rates: Map<IdentityKey, RateData>,
    pub uptimes: Map<IdentityKey, UptimeView>,
    pub penalties: Map<PenaltyKey, Penalty>,
    pub delegation_changes: Map<u64, DelegationChangesView>,
    pub identity_by_consensus_key: Map<ConsensusKey, IdentityKey>,
    pub consensus_key_by_address: Map<ConsensusAddress, ConsensusKey>,
    pub delegation_supplies: Map<IdentityKey, u64>,
    pub staking_supply: u64,
    pub current_base_rate: Option<BaseRateData>,
    pub next_base_rate: Option<BaseRateData>,
    /// The consensus keys last advertised to the consensus engine.
    pub current_consensus_keys: Option<Seq<ConsensusKey>>,
    /// The changes of the block in progress.
    pub pending_changes: DelegationChangesView,
    /// The power list made for the consensus engine in this block.
    pub validator_updates: Option<Seq<ValidatorUpdate>>,
    /// The mint requests made so far, oldest first.
    pub minted: Seq<MintRequest>,
}

impl StakeView {
    /// The identity keys of the known validators in ascending order: the
    /// order in which every pass over the validators visits them.
    pub open spec fn roster(self) -> Seq<IdentityKey> {
        ascending_listing(self.validators.dom())
    }

    /// The known validators can be listed, each is filed under its own
    /// identity key with valid funding streams; the next rates of a
    /// validator are those of the epoch after its current rates; no recorded
    /// power is above the bound, no recorded penalty takes more than
    /// everything and every uptime window holds a block.
    pub open spec fn wf(self) -> bool {
        &&& self.chain_params.wf()
        &&& forall|id: IdentityKey| #[trigger]
            self.next_rates.dom().contains(id) && self.current_rates.dom().contains(id)
                ==> self.next_rates[id].epoch_index == self.current_rates[id].epoch_index + 1
        &&& lists_ascending(self.roster(), self.validators.dom())
        &&& forall|id: IdentityKey| #[trigger]
            self.validators.dom().contains(id) ==> self.validators[id].wf()
                && self.validators[id].identity_key == id
        &&& forall|id: IdentityKey| #[trigger]
            self.powers.dom().contains(id) ==> self.powers[id] <= MAX_VOTING_POWER
        &&& forall|k: PenaltyKey| #[trigger]
            self.penalties.dom().contains(k) ==> self.penalties[k].wf()
        &&& forall|id: IdentityKey| #[trigger]
            self.uptimes.dom().contains(id) ==> self.uptimes[id].wf()
    }

    /// The epoch of the current block height.
    pub open spec fn current_epoch(self) -> Epoch {
        Epoch::spec_from_height(self.block_height, self.chain_params.epoch_duration)
    }
}

/// The staking data of the chain.
pub struct StakingState {
    pub(crate) chain_params: ChainParameters,
    pub(crate) block_height: u64,
    pub(crate) validators: Table<IdentityKey, Validator>,
    pub(crate) states: Table<IdentityKey, State>,
    pub(crate) bonding_states: Table<IdentityKey, BondingState>,
    pub(crate) powers: Table<IdentityKey, u64>,
    pub(crate) current_rates: Table<IdentityKey, RateData>,
    pub(crate) next_rates: Table<IdentityKey, RateData>,
    pub(crate) uptimes: Table<IdentityKey, Uptime>,
    pub(crate) penalties: Table<PenaltyKey, Penalty>,
    pub(crate) delegation_changes: Table<u64, DelegationChanges>,
    pub(crate) identity_by_consensus_key: Table<ConsensusKey, IdentityKey>,
    pub(crate) consensus_key_by_address: Table<ConsensusAddress, ConsensusKey>,
    pub(crate) delegation_supplies: Table<IdentityKey, u64>,
    pub(crate) staking_supply: u64,
    pub(crate) current_base_rate: Option<BaseRateData>,
    pub(crate) next_base_rate: Option<BaseRateData>,
    pub(crate) current_consensus_keys: Option<Vec<ConsensusKey>>,
    pub(crate) pending_changes: DelegationChanges,
    pub(crate) validator_updates: Option<Vec<ValidatorUpdate>>,
    pub(crate) minted: Vec<MintRequest>,
}

/// The view of an optional list.
pub open spec fn optional_seq<T>(list: Option<Vec<T>>) -> Option<Seq<T>> {
    match list {
        Some(v) => Some(v@),
        None => None,
    }
}

impl View for StakingState {
    type V = StakeView;

    open(crate) spec fn view(&self) -> StakeView {
        StakeView {
            chain_params: self.chain_params,
            block_height: self.block_height,
            validators: viewed(self.validators.map()),
            states: self.states.map(),
            bonding_states: self.bonding_states.map(),
            powers: self.powers.map(),
            current_rates: self.current_rates.map(),
            next_rates: self.next_rates.map(),
            uptimes: viewed(self.uptimes.map()),
            penalties: self.penalties.map(),
            delegation_changes: viewed(self.delegation_changes.map()),
            identity_by_consensus_key: self.identity_by_consensus_key.map(),
            consensus_key_by_address: self.consensus_key_by_address.map(),
            delegation_supplies: self.delegation_supplies.map(),
            staking_supply: self.staking_supply,
            current_base_rate: self.current_base_rate,
            next_base_rate: self.next_base_rate,
            current_consensus_keys: optional_seq(self.current_consensus_keys),
            pending_changes: self.pending_changes@,
            validator_updates: optional_seq(self.validator_updates),
            minted: self.minted@,
        }
    }
}

impl StakingState {
    /// Every table is in order and the model is well-formed.
    pub open(crate) spec fn valid(&self) -> bool {
        &&& self.validators.wf()
        &&& self.states.wf()
        &&& self.bonding_states.wf()
        &&& self.powers.wf()
        &&& self.current_rates.wf()
        &&& self.next_rates.wf()
        &&& self.uptimes.wf()
        &&& self.penalties.wf()
        &&& self.delegation_changes.wf()
        &&& self.identity_by_consensus_key.wf()
        &&& self.consensus_key_by_address.wf()
        &&& self.delegation_supplies.wf()
        &&& self@.wf()
    }

    /// The staking data of a chain at `block_height` on which nothing was
    /// recorded yet, or `None` where the parameters are not valid.
    pub fn new(chain_params: ChainParameters, block_height: u64) -> (r: Option<StakingState>)
        ensures
            match r {
                Some(state) => chain_params.wf() && state.valid() && state@ == StakeView::initial(
                    chain_params,
                    block_height,
                ),
                None => !chain_params.wf(),
            },
    {
        if !chain_params.is_valid() {
            return None;
        }
        let state = StakingState {
            chain_params,
            block_height,
            validators: Table::new(),
            states: Table::new(),
            bonding_states: Table::new(),
            powers: Table::new(),
            current_rates: Table::new(),
            next_rates: Table::new(),
            uptimes: Table::new(),
            penalties: Table::new(),
            delegation_changes: Table::new(),
            identity_by_consensus_key: Table::new(),
            consensus_key_by_address: Table::new(),
            delegation_supplies: Table::new(),
            staking_supply: 0,
            current_base_rate: None,
            next_base_rate: None,
            current_consensus_keys: None,
            pending_changes: DelegationChanges::new(),
            validator_updates: None,
            minted: Vec::new(),
        };
        proof {
            lemma_listing_of_keys(Seq::<IdentityKey>::empty(), Set::<IdentityKey>::empty());
            assert(state@.validators =~= Map::empty());
            assert(state@.validators.dom() =~= Set::<IdentityKey>::empty());
            assert(state@.uptimes =~= Map::empty());
            assert(state@.delegation_changes =~= Map::empty());
            assert(state@.minted =~= Seq::empty());
            assert(state@ == StakeView::initial(chain_params, block_height));
        }
        Some(state)
    }

    /// The roster of the model is the order of the validator table.
    pub(crate) proof fn lemma_roster(&self)
        requires
            self.validators.wf(),
        ensures
            self@.roster() == self.validators.keys(),
            lists_ascending(self@.roster(), self@.validators.dom()),
    {
        self.validators.lemma_table();
        assert(self@.validators.dom() =~= self.validators.map().dom());
    }

    /// The height of the block in progress.
    pub fn block_height(&self) -> (h: u64)
        ensures
            h == self@.block_height,
    {
        self.block_height
    }

    /// Moves to the block at `height`.
    pub fn set_block_height(&mut self, height: u64)
        requires
            old(self).valid(),
        ensures
            final(self).valid(),
            final(self)@ == (StakeView { block_height: height, ..old(self)@ }),
    {
        self.block_height = height;
    }

    /// The parameters of the chain.
    pub fn chain_params(&self) -> (p: ChainParameters)
        ensures
            p == self@.chain_params,
    {
        self.chain_params
    }

    /// The epoch of the block in progress.
    pub fn current_epoch(&self) -> (e: Epoch)
        requires
            self.valid(),
        ensures
            e == self@.current_epoch(),
    {
        Epoch::from_height(self.block_height, self.chain_params.epoch_duration)
    }
}

impl StakeView {
    /// The model of a chain on which nothing was recorded yet.
    pub open spec fn initial(chain_params: ChainParameters, block_height: u64) -> StakeView {
        StakeView {
            chain_params,
            block_height,
            validators: Map::empty(),
            states: Map::empty(),
            bonding_states: Map::empty(),
            powers: Map::empty(),
            current_rates: Map::empty(),
            next_rates: Map::empty(),
            uptimes: Map::empty(),
            penalties: Map::empty(),
            delegation_changes: Map::empty(),
            identity_by_consensus_key: Map::empty(),
            consensus_key_by_address: Map::empty(),
            delegation_supplies: Map::empty(),
            staking_supply: 0,
            current_base_rate: None,
            next_base_rate: None,
            current_consensus_keys: None,
            pending_changes: DelegationChangesView::empty(),
            validator_updates: None,
            minted: Seq::empty(),
        }
    }
}

} // verus!
