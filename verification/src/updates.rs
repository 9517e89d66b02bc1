//! The voting powers handed to the consensus engine.
//!
//! Every block the whole power list is made anew: the power of every
//! consensus key that has power or was advertised before, in ascending order
//! of the keys. A key that was advertised before and has no power any more
//! is listed with power 0, which tells the consensus engine to drop it.

use crate::chain::MAX_VOTING_POWER;
use crate::error::StakingError;
use crate::keys::{ConsensusKey, IdentityKey, TableKey};
use crate::read::StateReadExt;
use crate::roster::{lemma_visited, visited};
use crate::state::{optional_seq, StakeView, StakingState, ValidatorUpdate};
use crate::table::{
    ascending, ascending_listing, lemma_listing_of_keys, lists_ascending, Table,
};
use crate::validator::State;
use vstd::prelude::*;

verus! {

/// The power list after the powers `powers` of the known consensus keys were
/// merged with the keys advertised before: a key is listed if it was
/// advertised before or has power, with the power it has, or 0.
pub open spec fn power_update(powers: Map<ConsensusKey, u64>, advertised: Seq<ConsensusKey>) -> Map<
    ConsensusKey,
    u64,
> {
    Map::new(
        |ck: ConsensusKey| advertised.contains(ck) || (powers.dom().contains(ck) && powers[ck] > 0),
        |ck: ConsensusKey|
            if powers.dom().contains(ck) {
                powers[ck]
            } else {
                0
            },
    )
}

/// The power list as the consensus engine gets it: in ascending order of the
/// consensus keys.
pub open spec fn update_list(update: Map<ConsensusKey, u64>) -> Seq<ValidatorUpdate> {
    let keys = ascending_listing(update.dom());
    Seq::new(keys.len(), |i: int| ValidatorUpdate { pub_key: keys[i], power: update[keys[i]] })
}

/// A power list names its keys in strictly ascending order, so none twice,
/// and no power above the bound.
pub open spec fn power_list_is_sound(list: Seq<ValidatorUpdate>) -> bool {
    &&& forall|i: int| 0 <= i < list.len() ==> (#[trigger] list[i]).power <= MAX_VOTING_POWER
    &&& forall|i: int, j: int|
        0 <= i < j < list.len() ==> (#[trigger] list[i]).pub_key.before((#[trigger] list[j]).pub_key)
}

/// The keys of a power list that have power, in ascending order: the keys
/// that count as advertised from now on.
pub open spec fn advertised_keys(update: Map<ConsensusKey, u64>) -> Seq<ConsensusKey> {
    ascending_listing(Set::new(|ck: ConsensusKey| update.dom().contains(ck) && update[ck] != 0))
}

impl StakeView {
    /// The power a validator has in consensus: its recorded power while it
    /// is active, and none otherwise.
    pub open spec fn effective_power(self, id: IdentityKey) -> u64 {
        if self.states[id] is Active {
            self.powers[id]
        } else {
            0
        }
    }

    /// The power of a consensus key among the validators `ids`: that of the
    /// last of them that uses the key, if any does.
    pub open spec fn power_among(self, ids: Seq<IdentityKey>, ck: ConsensusKey) -> Option<u64>
        decreases ids.len(),
    {
        if ids.len() == 0 {
            None
        } else if self.validators[ids.last()].consensus_key == ck {
            Some(self.effective_power(ids.last()))
        } else {
            self.power_among(ids.drop_last(), ck)
        }
    }

    /// The powers of the consensus keys that the validators `ids` use.
    pub open spec fn powers_by_key(self, ids: Seq<IdentityKey>) -> Map<ConsensusKey, u64> {
        Map::new(
            |ck: ConsensusKey| self.power_among(ids, ck) is Some,
            |ck: ConsensusKey| self.power_among(ids, ck)->0,
        )
    }

    /// Every known validator has a state on record, and every active one a
    /// power.
    pub open spec fn update_records_complete(self) -> bool {
        forall|id: IdentityKey| #[trigger]
            self.validators.dom().contains(id) ==> self.states.dom().contains(id) && (
            self.states[id] is Active ==> self.powers.dom().contains(id))
    }

    /// The staking data after the power list for the consensus engine was
    /// made: the list is recorded for this block, and its keys with power
    /// are the keys advertised from now on.
    pub open spec fn after_updates(self) -> Result<StakeView, StakingError> {
        match self.current_consensus_keys {
            None => Err(StakingError::MissingInvariantRecord),
            Some(advertised) => if self.update_records_complete() {
                let update = power_update(self.powers_by_key(self.roster()), advertised);
                Ok(
                    StakeView {
                        validator_updates: Some(update_list(update)),
                        current_consensus_keys: Some(advertised_keys(update)),
                        ..self
                    },
                )
            } else {
                Err(StakingError::MissingInvariantRecord)
            },
        }
    }
}

/// No power that a known consensus key has in consensus is above the bound.
pub proof fn lemma_power_among_bounded(s: StakeView, ids: Seq<IdentityKey>, ck: ConsensusKey)
    requires
        s.wf(),
        forall|i: int|
            0 <= i < ids.len() ==> s.states.dom().contains(#[trigger] ids[i]) && (s.states[ids[i]]
                is Active ==> s.powers.dom().contains(ids[i])),
    ensures
        s.power_among(ids, ck) matches Some(power) ==> power <= MAX_VOTING_POWER,
    decreases ids.len(),
{
    if ids.len() > 0 {
        assert(s.states.dom().contains(ids[ids.len() - 1]));
        if s.validators[ids.last()].consensus_key != ck {
            assert forall|i: int| 0 <= i < ids.drop_last().len() implies s.states.dom().contains(
                #[trigger] ids.drop_last()[i],
            ) && (s.states[ids.drop_last()[i]] is Active ==> s.powers.dom().contains(
                ids.drop_last()[i],
            )) by {
                assert(ids.drop_last()[i] == ids[i]);
            }
            lemma_power_among_bounded(s, ids.drop_last(), ck);
        }
    }
}

/// Read access to the power list made for the consensus engine.
pub trait ValidatorUpdates: View<V = StakeView> {
    /// Returns a list of validator updates to send to the consensus engine.
    ///
    /// Set during `end_block`.
    fn tendermint_validator_updates(&self) -> (r: Option<Vec<ValidatorUpdate>>)
        ensures
            optional_seq(r) == self@.validator_updates,
    ;
}

/// Copies a list of validator updates.
fn copy_updates(list: &Vec<ValidatorUpdate>) -> (copy: Vec<ValidatorUpdate>)
    ensures
        copy@ == list@,
{
    let mut copy: Vec<ValidatorUpdate> = Vec::new();
    let mut i: usize = 0;
    while i < list.len()
        invariant
            i <= list@.len(),
            copy@ == list@.take(i as int),
        decreases list@.len() - i,
    {
        copy.push(list[i]);
        assert(list@.take(i as int).push(list@[i as int]) =~= list@.take(i as int + 1));
        i = i + 1;
    }
    assert(list@.take(i as int) =~= list@);
    copy
}

impl ValidatorUpdates for StakingState {
    fn tendermint_validator_updates(&self) -> (r: Option<Vec<ValidatorUpdate>>) {
        match &self.validator_updates {
            Some(updates) => Some(copy_updates(updates)),
            None => None,
        }
    }
}

/// A table that holds exactly the keys of a list.
fn key_table(list: &Vec<ConsensusKey>) -> (t: Table<ConsensusKey, u64>)
    ensures
        t.wf(),
        forall|ck: ConsensusKey| #[trigger] t.map().dom().contains(ck) <==> list@.contains(ck),
{
    let mut t: Table<ConsensusKey, u64> = Table::new();
    let mut i: usize = 0;
    while i < list.len()
        invariant
            t.wf(),
            i <= list@.len(),
            forall|ck: ConsensusKey| #[trigger]
                t.map().dom().contains(ck) <==> list@.take(i as int).contains(ck),
        decreases list@.len() - i,
    {
        let ghost before = t.map();
        t.put(list[i], 0);
        proof {
            let part = list@.take(i as int);
            let more = list@.take(i as int + 1);
            assert forall|ck: ConsensusKey| #[trigger]
                t.map().dom().contains(ck) <==> more.contains(ck) by {
                if more.contains(ck) {
                    let j = more.index_of(ck);
                    if j < i {
                        assert(part[j] == ck);
                        assert(part.contains(ck));
                    }
                }
                if before.dom().contains(ck) {
                    assert(part.contains(ck));
                    let j = part.index_of(ck);
                    assert(more[j] == ck);
                }
                if ck == list@[i as int] {
                    assert(more[i as int] == ck);
                }
            }
        }
        i = i + 1;
    }
    assert(list@.take(i as int) =~= list@);
    t
}

/// Merges the powers of the known consensus keys with the keys advertised
/// before into the power list for the consensus engine.
pub fn merge_updates(powers: &Table<ConsensusKey, u64>, advertised: &Vec<ConsensusKey>) -> (update:
    Table<ConsensusKey, u64>)
    requires
        powers.wf(),
    ensures
        update.wf(),
        update.map() == power_update(powers.map(), advertised@),
{
    let known = key_table(advertised);
    let mut update: Table<ConsensusKey, u64> = Table::new();
    let n = powers.len();
    let mut i: usize = 0;
    proof {
        powers.lemma_table();
        lemma_visited(powers.keys(), powers.map().dom(), 0);
    }
    // Keep the keys that have power or were advertised before.
    while i < n
        invariant
            powers.wf(),
            known.wf(),
            update.wf(),
            n == powers.keys().len(),
            i <= n,
            lists_ascending(powers.keys(), powers.map().dom()),
            forall|ck: ConsensusKey| #[trigger]
                known.map().dom().contains(ck) <==> advertised@.contains(ck),
            update.map() == Map::new(
                |ck: ConsensusKey|
                    visited(powers.keys(), i as int).contains(ck) && (advertised@.contains(ck)
                        || powers.map()[ck] > 0),
                |ck: ConsensusKey| powers.map()[ck],
            ),
        decreases n - i,
    {
        let ck = powers.key_at(i);
        let power = *powers.value_at(i);
        proof {
            lemma_visited(powers.keys(), powers.map().dom(), i as int);
        }
        if power > 0 || known.contains_key(&ck) {
            update.put(ck, power);
        }
        proof {
            assert(update.map() =~= Map::new(
                |ck: ConsensusKey|
                    visited(powers.keys(), i as int + 1).contains(ck) && (advertised@.contains(ck)
                        || powers.map()[ck] > 0),
                |ck: ConsensusKey| powers.map()[ck],
            ));
        }
        i = i + 1;
    }
    proof {
        lemma_visited(powers.keys(), powers.map().dom(), n as int);
    }
    let ghost kept = update.map();
    // Tell the consensus engine to drop the advertised keys that are gone.
    let mut j: usize = 0;
    while j < advertised.len()
        invariant
            update.wf(),
            j <= advertised@.len(),
            kept == Map::new(
                |ck: ConsensusKey|
                    powers.map().dom().contains(ck) && (advertised@.contains(ck) || powers.map()[ck]
                        > 0),
                |ck: ConsensusKey| powers.map()[ck],
            ),
            update.map() == Map::new(
                |ck: ConsensusKey| kept.dom().contains(ck) || advertised@.take(j as int).contains(ck),
                |ck: ConsensusKey|
                    if kept.dom().contains(ck) {
                        kept[ck]
                    } else {
                        0
                    },
            ),
        decreases advertised@.len() - j,
    {
        let ck = advertised[j];
        let ghost part = advertised@.take(j as int);
        let ghost more = advertised@.take(j as int + 1);
        if !update.contains_key(&ck) {
            update.put(ck, 0);
        }
        proof {
            assert forall|x: ConsensusKey| more.contains(x) <==> (part.contains(x) || x == ck) by {
                if more.contains(x) {
                    let a = more.index_of(x);
                    if a < j {
                        assert(part[a] == x);
                    }
                }
                if part.contains(x) {
                    let a = part.index_of(x);
                    assert(more[a] == x);
                }
                if x == ck {
                    assert(more[j as int] == x);
                }
            }
            assert(update.map() =~= Map::new(
                |ck: ConsensusKey| kept.dom().contains(ck) || more.contains(ck),
                |ck: ConsensusKey|
                    if kept.dom().contains(ck) {
                        kept[ck]
                    } else {
                        0
                    },
            ));
        }
        j = j + 1;
    }
    proof {
        assert(advertised@.take(j as int) =~= advertised@);
        assert(update.map() =~= power_update(powers.map(), advertised@));
    }
    update
}

/// Lists a power list in ascending order of its keys.
pub fn list_updates(update: &Table<ConsensusKey, u64>) -> (list: Vec<ValidatorUpdate>)
    requires
        update.wf(),
    ensures
        list@ == update_list(update.map()),
        list@.len() == update.keys().len(),
        forall|i: int|
            0 <= i < list@.len() ==> (#[trigger] list@[i]).pub_key == update.keys()[i]
                && list@[i].power == update.map()[update.keys()[i]] && update.map().dom().contains(
                update.keys()[i],
            ),
{
    let mut list: Vec<ValidatorUpdate> = Vec::new();
    let n = update.len();
    let mut i: usize = 0;
    proof {
        update.lemma_table();
    }
    while i < n
        invariant
            update.wf(),
            n == update.keys().len(),
            i <= n,
            list@.len() == i,
            forall|j: int|
                0 <= j < i ==> list@[j] == (ValidatorUpdate {
                    pub_key: update.keys()[j],
                    power: update.map()[update.keys()[j]],
                }),
        decreases n - i,
    {
        let pub_key = update.key_at(i);
        let power = *update.value_at(i);
        list.push(ValidatorUpdate { pub_key, power });
        i = i + 1;
    }
    assert(list@ =~= update_list(update.map()));
    list
}

/// Lists the keys of a power list that have power, in ascending order.
pub fn list_advertised(update: &Table<ConsensusKey, u64>) -> (keys: Vec<ConsensusKey>)
    requires
        update.wf(),
    ensures
        keys@ == advertised_keys(update.map()),
{
    let mut keys: Vec<ConsensusKey> = Vec::new();
    let n = update.len();
    let mut i: usize = 0;
    proof {
        update.lemma_table();
    }
    while i < n
        invariant
            update.wf(),
            n == update.keys().len(),
            i <= n,
            ascending(update.keys()),
            ascending(keys@),
            forall|a: int|
                0 <= a < keys@.len() ==> exists|j: int|
                    0 <= j < i && update.keys()[j] == #[trigger] keys@[a] && update.map()[keys@[a]]
                        != 0,
            forall|j: int|
                0 <= j < i && update.map()[#[trigger] update.keys()[j]] != 0 ==> keys@.contains(
                    update.keys()[j],
                ),
        decreases n - i,
    {
        let ck = update.key_at(i);
        let power = *update.value_at(i);
        let ghost earlier = keys@;
        if power != 0 {
            keys.push(ck);
            proof {
                assert forall|a: int, b: int| 0 <= a < b < keys@.len() implies (
                #[trigger] keys@[a]).before(#[trigger] keys@[b]) by {
                    if b == keys@.len() - 1 {
                        let j = choose|j: int|
                            0 <= j < i && update.keys()[j] == earlier[a] && update.map()[earlier[a]]
                                != 0;
                        assert(update.keys()[j].before(update.keys()[i as int]));
                    } else {
                        assert(earlier[a].before(earlier[b]));
                    }
                }
                assert(keys@[keys@.len() - 1] == ck);
                assert forall|j: int|
                    0 <= j < i + 1 && update.map()[#[trigger] update.keys()[j]]
                        != 0 implies keys@.contains(update.keys()[j]) by {
                    if j < i {
                        assert(earlier.contains(update.keys()[j]));
                        let a = earlier.index_of(update.keys()[j]);
                        assert(keys@[a] == update.keys()[j]);
                    }
                }
                assert forall|a: int| 0 <= a < keys@.len() implies exists|j: int|
                    0 <= j < i + 1 && update.keys()[j] == #[trigger] keys@[a] && update.map()[keys@[a]]
                        != 0 by {
                    if a < earlier.len() {
                        let j = choose|j: int|
                            0 <= j < i && update.keys()[j] == earlier[a] && update.map()[earlier[a]]
                                != 0;
                        assert(0 <= j < i + 1 && update.keys()[j] == keys@[a]);
                    } else {
                        assert(update.keys()[i as int] == keys@[a]);
                    }
                }
            }
        }
        i = i + 1;
    }
    proof {
        let set = Set::new(|ck: ConsensusKey| update.map().dom().contains(ck) && update.map()[ck] != 0);
        assert forall|ck: ConsensusKey| #[trigger] keys@.contains(ck) <==> set.contains(ck) by {
            if keys@.contains(ck) {
                let a = keys@.index_of(ck);
                let j = choose|j: int|
                    0 <= j < n && update.keys()[j] == keys@[a] && update.map()[keys@[a]] != 0;
                assert(update.map().dom().contains(update.keys()[j]));
            }
            if set.contains(ck) {
                assert(update.keys().contains(ck));
                let j = update.keys().index_of(ck);
                assert(update.map()[update.keys()[j]] != 0);
            }
        }
        lemma_listing_of_keys(keys@, set);
    }
    keys
}

impl StakingState {
    /// Records the power list made for the consensus engine in this block.
    pub fn put_tendermint_validator_updates(&mut self, updates: Vec<ValidatorUpdate>)
        requires
            old(self).wf(),
        ensures
            final(self).wf(),
            final(self)@ == (StakeView { validator_updates: Some(updates@), ..old(self)@ }),
    {
        self.validator_updates = Some(updates);
    }

    /// Records the consensus keys that count as advertised.
    pub fn put_current_consensus_keys(&mut self, keys: Vec<ConsensusKey>)
        requires
            old(self).wf(),
        ensures
            final(self).wf(),
            final(self)@ == (StakeView { current_consensus_keys: Some(keys@), ..old(self)@ }),
    {
        self.current_consensus_keys = Some(keys);
    }

    /// The power in consensus of every consensus key that a known validator
    /// uses. Fails where a known validator lacks a state, or an active one a
    /// power.
    pub fn effective_powers(&self) -> (r: Result<Table<ConsensusKey, u64>, StakingError>)
        requires
            self.wf(),
        ensures
            match r {
                Ok(powers) => self@.update_records_complete() && powers.wf() && powers.map()
                    == self@.powers_by_key(self@.roster()) && forall|ck: ConsensusKey| #[trigger]
                    powers.map().dom().contains(ck) ==> powers.map()[ck] <= MAX_VOTING_POWER,
                Err(e) => e == StakingError::MissingInvariantRecord
                    && !self@.update_records_complete(),
            },
    {
        let mut table: Table<ConsensusKey, u64> = Table::new();
        let ids = self.validator_identity_list();
        let mut i: usize = 0;
        proof {
            lemma_visited(ids@, self@.validators.dom(), 0);
            assert(table.map() =~= self@.powers_by_key(ids@.take(0)));
        }
        while i < ids.len()
            invariant
                self.wf(),
                table.wf(),
                ids@ == self@.roster(),
                i <= ids@.len(),
                table.map() == self@.powers_by_key(ids@.take(i as int)),
                forall|j: int|
                    0 <= j < i ==> self@.states.dom().contains(#[trigger] ids@[j]) && (
                    self@.states[ids@[j]] is Active ==> self@.powers.dom().contains(ids@[j])),
            decreases ids@.len() - i,
        {
            let id = ids[i];
            proof {
                lemma_visited(ids@, self@.validators.dom(), i as int);
            }
            let state = match self.validator_state(&id) {
                Some(state) => state,
                None => { return Err(StakingError::MissingInvariantRecord); },
            };
            // The effective power of a validator is its power, and none
            // unless it is active.
            let effective_power: u64 = if state == State::Active {
                match self.validator_power(&id) {
                    Some(power) => power,
                    None => { return Err(StakingError::MissingInvariantRecord); },
                }
            } else {
                0
            };
            let consensus_key = match self.validator_consensus_key(&id) {
                Some(ck) => ck,
                None => { return Err(StakingError::MissingInvariantRecord); },
            };
            table.put(consensus_key, effective_power);
            proof {
                let part = ids@.take(i as int);
                let more = ids@.take(i as int + 1);
                assert(more.drop_last() =~= part);
                assert(more.last() == id);
                assert(table.map() =~= self@.powers_by_key(more));
            }
            i = i + 1;
        }
        proof {
            assert(ids@.take(i as int) =~= ids@);
            assert forall|id: IdentityKey| #[trigger]
                self@.validators.dom().contains(id) implies self@.states.dom().contains(id) && (
            self@.states[id] is Active ==> self@.powers.dom().contains(id)) by {
                assert(ids@.contains(id));
                let j = ids@.index_of(id);
                assert(self@.states.dom().contains(ids@[j]));
            }
            assert forall|ck: ConsensusKey| #[trigger]
                table.map().dom().contains(ck) implies table.map()[ck] <= MAX_VOTING_POWER by {
                lemma_power_among_bounded(self@, ids@, ck);
            }
        }
        Ok(table)
    }

    /// Materializes the entire current validator set as an update for the
    /// consensus engine, and records which keys it has now been told about.
    /// Fails, and changes nothing, where no advertised keys are on record or
    /// a known validator lacks a state or, if active, a power.
    pub fn build_tendermint_validator_updates(&mut self) -> (r: Result<(), StakingError>)
        requires
            old(self).wf(),
        ensures
            final(self).wf(),
            match r {
                Ok(()) => old(self)@.after_updates() == Ok::<StakeView, StakingError>(final(self)@),
                Err(e) => old(self)@.after_updates() == Err::<StakeView, StakingError>(e)
                    && final(self)@ == old(self)@,
            },
            r is Ok ==> final(self)@.validator_updates is Some && power_list_is_sound(
                final(self)@.validator_updates->0,
            ),
    {
        let update = match &self.current_consensus_keys {
            None => { return Err(StakingError::MissingInvariantRecord); },
            Some(advertised) => {
                // First, the power of every consensus key of a known
                // validator.
                let powers = match self.effective_powers() {
                    Ok(powers) => powers,
                    Err(e) => { return Err(e); },
                };
                // Next, leave out the keys without power, unless the
                // consensus engine knows them, and list the keys it knows
                // that are gone.
                merge_updates(&powers, advertised)
            },
        };
        let updates = list_updates(&update);
        let advertised = list_advertised(&update);
        proof {
            update.lemma_table();
        }
        self.put_tendermint_validator_updates(updates);
        self.put_current_consensus_keys(advertised);
        Ok(())
    }
}

} // verus!
