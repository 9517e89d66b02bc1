use staking::address::validator_address;
use staking::chain::{ChainParameters, Epoch};
use staking::changes::{Delegate, DelegationChanges, Undelegate};
use staking::error::StakingError;
use staking::keys::{ConsensusKey, IdentityKey};
use staking::machine::Evidence;
use staking::penalty::Penalty;
use staking::rate::{BaseRateData, RateData};
use staking::read::StateReadExt;
use staking::staking::{
    total_allocations, Allocation, BeginBlock, EndBlock, GenesisAppState, Staking,
};
use staking::state::{StakingState, ValidatorUpdate};
use staking::table::Table;
use staking::tracker::{find_vote, LastCommitInfo, VoteInfo};
use staking::updates::{list_advertised, list_updates, merge_updates, ValidatorUpdates};
use staking::uptime::Uptime;
use staking::validator::{Address, BondingState, FundingStream, State, Validator};
use staking::write::StateWriteExt;

fn id(n: u8) -> IdentityKey {
    IdentityKey([n; 32])
}

fn ck(n: u8) -> ConsensusKey {
    ConsensusKey([n; 32])
}

fn params() -> ChainParameters {
    ChainParameters {
        epoch_duration: 3,
        unbonding_epochs: 2,
        active_validator_limit: 2,
        base_reward_rate: 3_000_000,
        slashing_penalty_misbehavior: Penalty(10_000_000),
        slashing_penalty_downtime: Penalty(1_000_000),
        signed_blocks_window_len: 128,
        missed_blocks_maximum: 50,
    }
}

fn rate(n: u8, epoch_index: u64) -> RateData {
    RateData {
        identity_key: id(n),
        epoch_index,
        validator_reward_rate: 0,
        validator_exchange_rate: 100_000_000,
    }
}

fn validator(n: u8) -> Validator {
    Validator::new(id(n), ck(n), Vec::new(), true).unwrap()
}

fn base(epoch_index: u64) -> BaseRateData {
    BaseRateData { epoch_index, base_reward_rate: 0, base_exchange_rate: 100_000_000 }
}

fn no_votes() -> LastCommitInfo {
    LastCommitInfo { votes: Vec::new() }
}

fn updates_of(s: &StakingState) -> Vec<(u8, u64)> {
    s.tendermint_validator_updates().unwrap().iter().map(|u| (u.pub_key.0[0], u.power)).collect()
}

/// Four validators with the given powers and states, at height 0.
fn four(powers: [u64; 4], states: [State; 4]) -> StakingState {
    let mut s = StakingState::new(params(), 0).unwrap();
    for n in 1..=4u8 {
        s.add_validator(validator(n), rate(n, 0), rate(n, 1)).unwrap();
        s.set_validator_power(&id(n), powers[n as usize - 1]).unwrap();
        s.put_validator_state(&id(n), states[n as usize - 1]);
    }
    s
}

fn states_of(s: &StakingState) -> Vec<State> {
    (1..=4u8).map(|n| s.validator_state(&id(n)).unwrap()).collect()
}

#[test]
fn active_set_takes_the_two_with_the_most_power() {
    let mut s = four([10, 5, 5, 0], [State::Inactive; 4]);
    assert_eq!(s.set_active_and_inactive_validators(), Ok(()));
    assert_eq!(
        states_of(&s),
        vec![State::Active, State::Active, State::Inactive, State::Inactive]
    );
    assert_eq!(s.validator_bonding_state(&id(1)), Some(BondingState::Bonded));
    assert_eq!(s.validator_bonding_state(&id(2)), Some(BondingState::Bonded));
    assert_eq!(s.validator_bonding_state(&id(3)), Some(BondingState::Unbonded));
    assert!(s.validator_uptime(&id(1)).is_some());
    assert!(s.validator_uptime(&id(3)).is_none());
}

#[test]
fn active_set_breaks_ties_by_the_order_of_the_roster() {
    let mut s = four([5, 5, 10, 5], [State::Active; 4]);
    assert_eq!(s.set_active_and_inactive_validators(), Ok(()));
    assert_eq!(
        states_of(&s),
        vec![State::Active, State::Inactive, State::Active, State::Inactive]
    );
    assert_eq!(
        s.validator_bonding_state(&id(2)),
        Some(BondingState::Unbonding { unbonding_epoch: 2 })
    );
    // Choosing again changes nothing.
    assert_eq!(s.set_active_and_inactive_validators(), Ok(()));
    assert_eq!(
        states_of(&s),
        vec![State::Active, State::Inactive, State::Active, State::Inactive]
    );
}

#[test]
fn a_validator_without_power_is_forced_inactive() {
    let mut s = four([0, 0, 0, 7], [State::Active; 4]);
    assert_eq!(s.set_active_and_inactive_validators(), Ok(()));
    assert_eq!(
        states_of(&s),
        vec![State::Inactive, State::Inactive, State::Inactive, State::Active]
    );
}

#[test]
fn the_choice_leaves_other_states_alone() {
    let mut s = four(
        [100, 50, 20, 10],
        [State::Jailed, State::Disabled, State::Tombstoned, State::Inactive],
    );
    assert_eq!(s.set_active_and_inactive_validators(), Ok(()));
    assert_eq!(
        states_of(&s),
        vec![State::Jailed, State::Disabled, State::Tombstoned, State::Active]
    );
    // Validators outside the choice take no place in the active set.
    let mut s = four(
        [100, 50, 20, 10],
        [State::Jailed, State::Inactive, State::Active, State::Inactive],
    );
    assert_eq!(s.set_active_and_inactive_validators(), Ok(()));
    assert_eq!(
        states_of(&s),
        vec![State::Jailed, State::Active, State::Active, State::Inactive]
    );
}

#[test]
fn the_choice_with_no_places_deactivates_everybody() {
    let mut p = params();
    p.active_validator_limit = 0;
    let mut s = StakingState::new(p, 0).unwrap();
    s.add_validator(validator(1), rate(1, 0), rate(1, 1)).unwrap();
    s.set_validator_power(&id(1), 9).unwrap();
    s.put_validator_state(&id(1), State::Active);
    assert_eq!(s.set_active_and_inactive_validators(), Ok(()));
    assert_eq!(s.validator_state(&id(1)), Some(State::Inactive));
}

#[test]
fn the_choice_needs_states_and_powers() {
    let mut s = StakingState::new(params(), 0).unwrap();
    s.put_validator(validator(1));
    assert_eq!(s.set_active_and_inactive_validators(), Err(StakingError::MissingInvariantRecord));
    s.put_validator_state(&id(1), State::Active);
    assert_eq!(s.set_active_and_inactive_validators(), Err(StakingError::MissingInvariantRecord));
    s.set_validator_power(&id(1), 1).unwrap();
    assert_eq!(s.set_active_and_inactive_validators(), Ok(()));
}

#[test]
fn a_demotion_that_cannot_unbond_fails_before_anything_changes() {
    let mut p = params();
    p.unbonding_epochs = u64::MAX;
    p.active_validator_limit = 1;
    let mut s = StakingState::new(p, 3).unwrap();
    for n in 1..=2u8 {
        s.add_validator(validator(n), rate(n, 1), rate(n, 2)).unwrap();
        s.set_validator_power(&id(n), 10 * n as u64).unwrap();
    }
    s.put_validator_state(&id(1), State::Active);
    assert_eq!(s.set_active_and_inactive_validators(), Err(StakingError::ArithmeticOverflow));
    assert_eq!(s.validator_state(&id(1)), Some(State::Active));
    assert_eq!(s.validator_state(&id(2)), Some(State::Inactive));
}

#[test]
fn due_unbondings_are_released() {
    let mut s = four([1, 1, 1, 1], [State::Inactive; 4]);
    s.set_block_height(6);
    s.set_validator_bonding_state(&id(1), BondingState::Unbonding { unbonding_epoch: 1 });
    s.set_validator_bonding_state(&id(2), BondingState::Unbonding { unbonding_epoch: 2 });
    s.set_validator_bonding_state(&id(3), BondingState::Unbonding { unbonding_epoch: 3 });
    s.set_validator_bonding_state(&id(4), BondingState::Bonded);
    assert_eq!(s.process_validator_unbondings(), Ok(()));
    assert_eq!(s.validator_bonding_state(&id(1)), Some(BondingState::Unbonded));
    assert_eq!(s.validator_bonding_state(&id(2)), Some(BondingState::Unbonded));
    assert_eq!(
        s.validator_bonding_state(&id(3)),
        Some(BondingState::Unbonding { unbonding_epoch: 3 })
    );
    assert_eq!(s.validator_bonding_state(&id(4)), Some(BondingState::Bonded));
}

#[test]
fn releasing_needs_a_bonding_state_for_every_validator() {
    let mut s = StakingState::new(params(), 0).unwrap();
    s.put_validator(validator(1));
    assert_eq!(s.process_validator_unbondings(), Err(StakingError::MissingInvariantRecord));
}

/// One active validator with a stream of 10% commission, 1,000,000
/// delegation tokens, at the last height of epoch 0, with every block of the
/// epoch on record.
fn at_epoch_end() -> StakingState {
    let mut s = StakingState::new(params(), 2).unwrap();
    let v = Validator::new(
        id(1),
        ck(1),
        vec![FundingStream { address: Address([5; 80]), rate_bps: 1_000 }],
        true,
    )
    .unwrap();
    s.add_validator_inner(v, rate(1, 0), rate(1, 1), State::Active, BondingState::Bonded, 1_000_000)
        .unwrap();
    s.set_validator_uptime(&id(1), Uptime::new(2, 128));
    s.set_base_rates(
        base(0),
        BaseRateData { epoch_index: 1, base_reward_rate: 3_000_000, base_exchange_rate: 103_000_000 },
    );
    s.update_delegation_token_supply(&id(1), 1_000_000).unwrap();
    s.update_staking_token_supply(5_000_000).unwrap();
    for h in 0..3 {
        s.set_delegation_changes(h, DelegationChanges::new());
    }
    s
}

#[test]
fn end_epoch_rolls_the_rates_forward() {
    let mut s = at_epoch_end();
    assert_eq!(s.end_epoch(Epoch { index: 0, duration: 3 }), Ok(()));
    assert_eq!(
        s.current_base_rate(),
        Ok(BaseRateData { epoch_index: 1, base_reward_rate: 3_000_000, base_exchange_rate: 103_000_000 })
    );
    assert_eq!(
        s.next_base_rate(),
        Ok(BaseRateData { epoch_index: 2, base_reward_rate: 3_000_000, base_exchange_rate: 106_090_000 })
    );
    let current = s.current_validator_rate(&id(1)).unwrap();
    assert_eq!(current.epoch_index, 1);
    assert_eq!(current.validator_exchange_rate, 100_000_000);
    let next = s.next_validator_rate(&id(1)).unwrap();
    assert_eq!(next.epoch_index, 2);
    assert_eq!(next.validator_reward_rate, 2_700_000);
    assert_eq!(next.validator_exchange_rate, 102_700_000);
    // 1,000,000 tokens at a rate of 1, measured at the base rate of 1.03.
    assert_eq!(s.validator_power(&id(1)), Some(970_873));
    assert_eq!(s.validator_state(&id(1)), Some(State::Active));
    // The stream's tenth of the supply earns the new base reward of
    // 3.183%, at the exchange rate of the epoch before.
    let minted = s.take_minted();
    assert_eq!(minted.len(), 1);
    assert_eq!(minted[0].amount, 3_090);
    assert_eq!(minted[0].destination.0, [5; 80]);
    assert_eq!(minted[0].epoch_index, 0);
    assert!(s.take_minted().is_empty());
}

#[test]
fn end_epoch_applies_the_penalty_of_the_epoch() {
    let mut s = at_epoch_end();
    s.record_slashing_penalty(&id(1), Penalty(1_000_000));
    assert_eq!(s.end_epoch(Epoch { index: 0, duration: 3 }), Ok(()));
    let current = s.current_validator_rate(&id(1)).unwrap();
    assert_eq!(current.validator_exchange_rate, 99_000_000);
    let next = s.next_validator_rate(&id(1)).unwrap();
    assert_eq!(next.validator_exchange_rate, 101_673_000);
    assert_eq!(s.validator_power(&id(1)), Some(961_165));
}

#[test]
fn end_epoch_moves_supply_with_the_delegations() {
    let mut s = at_epoch_end();
    s.set_validator_rates(
        &id(1),
        rate(1, 0),
        RateData {
            identity_key: id(1),
            epoch_index: 1,
            validator_reward_rate: 0,
            validator_exchange_rate: 200_000_000,
        },
    );
    let mut changes = DelegationChanges::new();
    changes.delegations.push(Delegate {
        validator_identity: id(1),
        epoch_index: 0,
        unbonded_amount: 600,
        delegation_amount: 300,
    });
    changes.undelegations.push(Undelegate {
        validator_identity: id(1),
        epoch_index: 0,
        unbonded_amount: 200,
        delegation_amount: 100,
    });
    changes.delegations.push(Delegate {
        validator_identity: id(2),
        epoch_index: 0,
        unbonded_amount: 1,
        delegation_amount: 1,
    });
    s.set_delegation_changes(1, changes);
    assert_eq!(s.end_epoch(Epoch { index: 0, duration: 3 }), Ok(()));
    // A net delegation of 200 tokens is worth 400 staking tokens at a rate
    // of 2.
    assert_eq!(s.delegation_token_supply(&id(1)), Some(1_000_200));
    assert_eq!(s.staking_token_supply(), 4_999_600);
}

#[test]
fn end_epoch_returns_supply_on_net_undelegation() {
    let mut s = at_epoch_end();
    let mut changes = DelegationChanges::new();
    changes.undelegations.push(Undelegate {
        validator_identity: id(1),
        epoch_index: 0,
        unbonded_amount: 250,
        delegation_amount: 250,
    });
    s.set_delegation_changes(0, changes);
    assert_eq!(s.end_epoch(Epoch { index: 0, duration: 3 }), Ok(()));
    assert_eq!(s.delegation_token_supply(&id(1)), Some(999_750));
    assert_eq!(s.staking_token_supply(), 5_000_250);
}

#[test]
fn end_epoch_needs_the_changes_of_every_block() {
    let mut s = StakingState::new(params(), 2).unwrap();
    s.set_base_rates(base(0), base(1));
    s.set_delegation_changes(0, DelegationChanges::new());
    s.set_delegation_changes(2, DelegationChanges::new());
    assert_eq!(
        s.end_epoch(Epoch { index: 0, duration: 3 }),
        Err(StakingError::MissingInvariantRecord)
    );
    s.set_delegation_changes(1, DelegationChanges::new());
    assert_eq!(s.end_epoch(Epoch { index: 0, duration: 3 }), Ok(()));
}

#[test]
fn end_epoch_needs_base_rates() {
    let mut s = StakingState::new(params(), 2).unwrap();
    for h in 0..3 {
        s.set_delegation_changes(h, DelegationChanges::new());
    }
    assert_eq!(
        s.end_epoch(Epoch { index: 0, duration: 3 }),
        Err(StakingError::MissingInvariantRecord)
    );
}

#[test]
fn end_epoch_refuses_rates_of_another_epoch() {
    let mut s = at_epoch_end();
    s.set_validator_rates(&id(1), rate(1, 4), rate(1, 5));
    assert_eq!(s.end_epoch(Epoch { index: 0, duration: 3 }), Err(StakingError::EpochMismatch));
}

#[test]
fn end_epoch_refuses_heights_beyond_the_range() {
    let mut s = at_epoch_end();
    assert_eq!(
        s.end_epoch(Epoch { index: u64::MAX, duration: 3 }),
        Err(StakingError::ArithmeticOverflow)
    );
}

#[test]
fn end_epoch_refuses_an_undelegation_beyond_the_supply() {
    let mut s = at_epoch_end();
    let mut changes = DelegationChanges::new();
    changes.undelegations.push(Undelegate {
        validator_identity: id(1),
        epoch_index: 0,
        unbonded_amount: 0,
        delegation_amount: 1_000_001,
    });
    s.set_delegation_changes(0, changes);
    assert_eq!(s.end_epoch(Epoch { index: 0, duration: 3 }), Err(StakingError::ArithmeticOverflow));
}

#[test]
fn end_epoch_refuses_a_power_above_the_bound() {
    let mut s = at_epoch_end();
    s.update_delegation_token_supply(&id(1), i64::MAX).unwrap();
    assert_eq!(
        s.end_epoch(Epoch { index: 0, duration: 3 }),
        Err(StakingError::OutOfBoundsVotingPower)
    );
}

#[test]
fn roll_validator_changes_nothing_where_it_fails() {
    let mut s = at_epoch_end();
    let current = base(4);
    let next = base(5);
    let none: Vec<Delegate> = Vec::new();
    let nothing: Vec<Undelegate> = Vec::new();
    assert_eq!(
        s.roll_validator(&id(1), 7, &current, &next, &none, &nothing),
        Err(StakingError::EpochMismatch)
    );
    assert_eq!(
        s.roll_validator(&id(2), 0, &current, &next, &none, &nothing),
        Err(StakingError::MissingInvariantRecord)
    );
    assert_eq!(s.current_validator_rate(&id(1)).unwrap().epoch_index, 0);
    assert_eq!(s.next_validator_rate(&id(1)).unwrap().epoch_index, 1);
    assert_eq!(s.validator_power(&id(1)), Some(1_000_000));
    assert_eq!(s.delegation_token_supply(&id(1)), Some(1_000_000));
    assert!(s.take_minted().is_empty());
}

#[test]
fn find_vote_takes_the_last_vote_for_an_address() {
    let a = validator_address(&ck(1));
    let b = validator_address(&ck(2));
    let c = validator_address(&ck(3));
    let votes = vec![
        VoteInfo { address: a, signed_last_block: true },
        VoteInfo { address: b, signed_last_block: true },
        VoteInfo { address: a, signed_last_block: false },
    ];
    assert_eq!(find_vote(&votes, &a), Some(false));
    assert_eq!(find_vote(&votes, &b), Some(true));
    assert_eq!(find_vote(&votes, &c), None);
    assert_eq!(find_vote(&Vec::new(), &a), None);
}

/// One genesis validator, tracked from height 0 with a window of 128 blocks
/// and jailed at 50 missed blocks.
fn watched() -> StakingState {
    let mut p = params();
    p.epoch_duration = 1_000;
    let mut s = StakingState::new(p, 0).unwrap();
    let allocations: Table<IdentityKey, u64> = Table::new();
    s.add_genesis_validator(&allocations, &base(0), validator(1)).unwrap();
    s
}

#[test]
fn a_validator_is_jailed_at_the_block_where_it_has_missed_the_maximum() {
    let mut s = watched();
    let missed = LastCommitInfo {
        votes: vec![VoteInfo { address: validator_address(&ck(1)), signed_last_block: false }],
    };
    // The first block counts as signed whatever the votes say, so the
    // fiftieth missed block is the one at height 51.
    for height in 1..=50u64 {
        s.set_block_height(height);
        assert_eq!(s.track_uptime(&missed), Ok(()));
        assert_eq!(s.validator_state(&id(1)), Some(State::Active), "at height {}", height);
        assert_eq!(s.validator_uptime(&id(1)).unwrap().num_missed_blocks() as u64, height - 1);
    }
    s.set_block_height(51);
    assert_eq!(s.track_uptime(&missed), Ok(()));
    assert_eq!(s.validator_state(&id(1)), Some(State::Jailed));
    assert_eq!(s.penalty_in_epoch(&id(1), 0), Some(Penalty(1_000_000)));
    assert_eq!(
        s.validator_bonding_state(&id(1)),
        Some(BondingState::Unbonding { unbonding_epoch: 2 })
    );
    // A jailed validator is not tracked any more.
    s.set_block_height(52);
    assert_eq!(s.track_uptime(&missed), Ok(()));
    assert_eq!(s.validator_uptime(&id(1)).unwrap().as_of_height(), 50);
}

#[test]
fn the_first_block_counts_as_signed_whatever_the_votes_say() {
    let mut s = watched();
    s.set_block_height(1);
    let missed = LastCommitInfo {
        votes: vec![VoteInfo { address: validator_address(&ck(1)), signed_last_block: false }],
    };
    assert_eq!(s.track_uptime(&missed), Ok(()));
    assert_eq!(s.validator_uptime(&id(1)).unwrap().num_missed_blocks(), 0);
    let mut s = watched();
    s.set_block_height(1);
    assert_eq!(s.track_uptime(&no_votes()), Ok(()));
    assert_eq!(s.validator_uptime(&id(1)).unwrap().num_missed_blocks(), 0);
}

#[test]
fn a_validator_without_a_vote_missed_the_block() {
    let mut s = watched();
    s.set_block_height(1);
    s.track_uptime(&no_votes()).unwrap();
    s.set_block_height(2);
    s.track_uptime(&no_votes()).unwrap();
    assert_eq!(s.validator_uptime(&id(1)).unwrap().num_missed_blocks(), 1);
    s.set_block_height(3);
    let signed = LastCommitInfo {
        votes: vec![VoteInfo { address: validator_address(&ck(1)), signed_last_block: true }],
    };
    s.track_uptime(&signed).unwrap();
    assert_eq!(s.validator_uptime(&id(1)).unwrap().num_missed_blocks(), 1);
    assert_eq!(s.validator_uptime(&id(1)).unwrap().as_of_height(), 3);
}

#[test]
fn signed_blocks_never_jail() {
    let mut s = watched();
    let signed = LastCommitInfo {
        votes: vec![VoteInfo { address: validator_address(&ck(1)), signed_last_block: true }],
    };
    for height in 1..=300u64 {
        s.set_block_height(height);
        assert_eq!(s.track_uptime(&signed), Ok(()));
    }
    assert_eq!(s.validator_state(&id(1)), Some(State::Active));
    assert_eq!(s.validator_uptime(&id(1)).unwrap().num_missed_blocks(), 0);
}

#[test]
fn tracking_refuses_a_block_out_of_sequence() {
    let mut s = watched();
    s.set_block_height(2);
    assert_eq!(s.track_uptime(&no_votes()), Err(StakingError::NonSequentialHeight));
    assert_eq!(s.track_validator(&id(1), &Vec::new()), Err(StakingError::NonSequentialHeight));
    assert_eq!(s.validator_uptime(&id(1)).unwrap().as_of_height(), 0);
}

#[test]
fn tracking_needs_an_uptime_record_for_an_active_validator() {
    let mut s = four([1, 1, 1, 1], [State::Inactive; 4]);
    s.set_block_height(1);
    assert_eq!(s.track_uptime(&no_votes()), Ok(()));
    s.put_validator_state(&id(2), State::Active);
    assert_eq!(s.track_uptime(&no_votes()), Err(StakingError::MissingInvariantRecord));
}

#[test]
fn merge_updates_keeps_power_and_drops_what_is_gone() {
    let mut powers: Table<ConsensusKey, u64> = Table::new();
    powers.put(ck(3), 30);
    powers.put(ck(1), 0);
    powers.put(ck(2), 0);
    let advertised = vec![ck(9), ck(2)];
    let update = merge_updates(&powers, &advertised);
    let list: Vec<(u8, u64)> =
        list_updates(&update).iter().map(|u: &ValidatorUpdate| (u.pub_key.0[0], u.power)).collect();
    assert_eq!(list, vec![(2, 0), (3, 30), (9, 0)]);
    let keys: Vec<u8> = list_advertised(&update).iter().map(|k| k.0[0]).collect();
    assert_eq!(keys, vec![3]);
}

#[test]
fn the_power_list_holds_active_validators_and_removals() {
    let mut s = four([10, 20, 30, 0], [State::Active, State::Inactive, State::Active, State::Active]);
    assert_eq!(s.build_tendermint_validator_updates(), Err(StakingError::MissingInvariantRecord));
    assert!(s.tendermint_validator_updates().is_none());
    s.put_current_consensus_keys(vec![ck(2), ck(7)]);
    assert_eq!(s.build_tendermint_validator_updates(), Ok(()));
    assert_eq!(updates_of(&s), vec![(1, 10), (2, 0), (3, 30), (7, 0)]);
    // The next list no longer names the keys that were told to go.
    assert_eq!(s.build_tendermint_validator_updates(), Ok(()));
    assert_eq!(updates_of(&s), vec![(1, 10), (3, 30)]);
    s.put_validator_state(&id(3), State::Jailed);
    assert_eq!(s.build_tendermint_validator_updates(), Ok(()));
    assert_eq!(updates_of(&s), vec![(1, 10), (3, 0)]);
    assert_eq!(s.build_tendermint_validator_updates(), Ok(()));
    assert_eq!(updates_of(&s), vec![(1, 10)]);
}

#[test]
fn the_power_list_needs_states_and_powers() {
    let mut s = StakingState::new(params(), 0).unwrap();
    s.put_current_consensus_keys(Vec::new());
    s.put_validator(validator(1));
    assert_eq!(s.build_tendermint_validator_updates(), Err(StakingError::MissingInvariantRecord));
    s.put_validator_state(&id(1), State::Active);
    assert_eq!(s.build_tendermint_validator_updates(), Err(StakingError::MissingInvariantRecord));
    s.put_validator_state(&id(1), State::Inactive);
    assert_eq!(s.build_tendermint_validator_updates(), Ok(()));
    assert!(updates_of(&s).is_empty());
    let table = s.effective_powers().unwrap();
    assert_eq!(table.get(&ck(1)), Some(&0));
}

#[test]
fn total_allocations_by_validator() {
    let allocations = vec![
        Allocation { amount: 60, delegation_token_of: Some(id(1)) },
        Allocation { amount: 1_000, delegation_token_of: None },
        Allocation { amount: 40, delegation_token_of: Some(id(1)) },
        Allocation { amount: 0, delegation_token_of: Some(id(2)) },
    ];
    let totals = total_allocations(&allocations).unwrap();
    assert_eq!(totals.get(&id(1)), Some(&100));
    assert_eq!(totals.get(&id(2)), Some(&0));
    assert_eq!(totals.get(&id(3)), None);
    let too_much = vec![
        Allocation { amount: u64::MAX, delegation_token_of: Some(id(1)) },
        Allocation { amount: 1, delegation_token_of: Some(id(1)) },
    ];
    assert!(total_allocations(&too_much).is_none());
}

fn genesis() -> GenesisAppState {
    GenesisAppState {
        allocations: vec![
            Allocation { amount: 100, delegation_token_of: Some(id(1)) },
            Allocation { amount: 0, delegation_token_of: Some(id(2)) },
            Allocation { amount: 1_000_000, delegation_token_of: None },
        ],
        validators: vec![validator(1), validator(2)],
    }
}

#[test]
fn genesis_validators_start_active_and_bonded() {
    let mut s = StakingState::new(params(), 0).unwrap();
    assert_eq!(Staking::init_chain(&mut s, &genesis()), Ok(()));
    for n in 1..=2u8 {
        assert_eq!(s.validator_state(&id(n)), Some(State::Active));
        assert_eq!(s.validator_bonding_state(&id(n)), Some(BondingState::Bonded));
        assert_eq!(s.current_validator_rate(&id(n)).unwrap().epoch_index, 0);
        assert_eq!(s.current_validator_rate(&id(n)).unwrap().validator_exchange_rate, 100_000_000);
        assert_eq!(s.next_validator_rate(&id(n)).unwrap().epoch_index, 1);
        let uptime = s.validator_uptime(&id(n)).unwrap();
        assert_eq!(uptime.as_of_height(), 0);
        assert_eq!(uptime.window_len(), 128);
        assert_eq!(uptime.num_missed_blocks(), 0);
    }
    assert_eq!(s.validator_power(&id(1)), Some(100));
    assert_eq!(s.validator_power(&id(2)), Some(0));
    assert_eq!(s.current_base_rate(), Ok(base(0)));
    assert_eq!(s.next_base_rate(), Ok(base(1)));
    assert!(s.delegation_changes(0).unwrap().delegations.is_empty());
    // Only the validator with power is announced to the consensus engine.
    assert_eq!(updates_of(&s), vec![(1, 100)]);
}

#[test]
fn the_first_reselection_demotes_the_genesis_validator_without_power() {
    let mut s = StakingState::new(params(), 0).unwrap();
    Staking::init_chain(&mut s, &genesis()).unwrap();
    // What the allocations put in supply.
    s.update_delegation_token_supply(&id(1), 100).unwrap();
    s.update_delegation_token_supply(&id(2), 0).unwrap();
    s.update_staking_token_supply(1_000_000).unwrap();
    assert_eq!(Staking::end_block(&mut s, &EndBlock { height: 0 }), Ok(()));
    let votes = |signed: bool| BeginBlock {
        byzantine_validators: Vec::new(),
        last_commit_info: LastCommitInfo {
            votes: vec![
                VoteInfo { address: validator_address(&ck(1)), signed_last_block: signed },
                VoteInfo { address: validator_address(&ck(2)), signed_last_block: signed },
            ],
        },
    };
    s.set_block_height(1);
    assert_eq!(Staking::begin_block(&mut s, &votes(true)), Ok(()));
    assert_eq!(Staking::end_block(&mut s, &EndBlock { height: 1 }), Ok(()));
    // Until the epoch ends both validators are active.
    assert_eq!(s.validator_state(&id(1)), Some(State::Active));
    assert_eq!(s.validator_state(&id(2)), Some(State::Active));
    assert_eq!(s.current_base_rate(), Ok(base(0)));
    s.set_block_height(2);
    assert_eq!(Staking::begin_block(&mut s, &votes(true)), Ok(()));
    assert_eq!(Staking::end_block(&mut s, &EndBlock { height: 2 }), Ok(()));
    assert_eq!(s.validator_state(&id(1)), Some(State::Active));
    assert_eq!(s.validator_state(&id(2)), Some(State::Inactive));
    assert_eq!(s.validator_power(&id(1)), Some(100));
    assert_eq!(s.validator_power(&id(2)), Some(0));
    assert_eq!(
        s.validator_bonding_state(&id(2)),
        Some(BondingState::Unbonding { unbonding_epoch: 2 })
    );
    assert_eq!(s.current_base_rate().unwrap().epoch_index, 1);
    assert_eq!(s.next_base_rate().unwrap().epoch_index, 2);
    assert_eq!(s.next_base_rate().unwrap().base_exchange_rate, 103_000_000);
    for n in 1..=2u8 {
        assert_eq!(s.current_validator_rate(&id(n)).unwrap().epoch_index, 1);
        assert_eq!(s.next_validator_rate(&id(n)).unwrap().epoch_index, 2);
    }
    assert_eq!(s.next_validator_rate(&id(1)).unwrap().validator_exchange_rate, 103_000_000);
    assert_eq!(updates_of(&s), vec![(1, 100)]);
}

#[test]
fn init_chain_refuses_allocations_beyond_the_range() {
    let mut s = StakingState::new(params(), 0).unwrap();
    let app_state = GenesisAppState {
        allocations: vec![
            Allocation { amount: u64::MAX, delegation_token_of: Some(id(1)) },
            Allocation { amount: 1, delegation_token_of: Some(id(1)) },
        ],
        validators: vec![validator(1)],
    };
    assert_eq!(Staking::init_chain(&mut s, &app_state), Err(StakingError::ArithmeticOverflow));
}

#[test]
fn init_chain_refuses_a_power_above_the_bound() {
    let mut s = StakingState::new(params(), 0).unwrap();
    let app_state = GenesisAppState {
        allocations: vec![Allocation { amount: u64::MAX, delegation_token_of: Some(id(1)) }],
        validators: vec![validator(1)],
    };
    assert_eq!(Staking::init_chain(&mut s, &app_state), Err(StakingError::OutOfBoundsVotingPower));
}

#[test]
fn begin_block_tombstones_reported_validators() {
    let mut s = StakingState::new(params(), 0).unwrap();
    Staking::init_chain(&mut s, &genesis()).unwrap();
    s.set_block_height(1);
    let begin = BeginBlock {
        byzantine_validators: vec![Evidence { address: validator_address(&ck(2)), height: 0 }],
        last_commit_info: no_votes(),
    };
    assert_eq!(Staking::begin_block(&mut s, &begin), Ok(()));
    assert_eq!(s.validator_state(&id(1)), Some(State::Active));
    assert_eq!(s.validator_state(&id(2)), Some(State::Tombstoned));
    assert_eq!(s.penalty_in_epoch(&id(2), 0), Some(Penalty(10_000_000)));
    assert_eq!(s.validator_uptime(&id(1)).unwrap().as_of_height(), 1);
    assert_eq!(s.validator_uptime(&id(2)).unwrap().as_of_height(), 0);
    let unknown = BeginBlock {
        byzantine_validators: vec![Evidence { address: validator_address(&ck(3)), height: 0 }],
        last_commit_info: no_votes(),
    };
    s.set_block_height(2);
    assert_eq!(Staking::begin_block(&mut s, &unknown), Err(StakingError::UnknownValidatorEvidence));
}

#[test]
fn end_block_records_the_changes_of_the_block() {
    let mut s = StakingState::new(params(), 0).unwrap();
    Staking::init_chain(&mut s, &genesis()).unwrap();
    s.set_block_height(1);
    s.stub_push_delegation(Delegate {
        validator_identity: id(1),
        epoch_index: 0,
        unbonded_amount: 10,
        delegation_amount: 10,
    });
    s.stub_push_undelegation(Undelegate {
        validator_identity: id(1),
        epoch_index: 0,
        unbonded_amount: 4,
        delegation_amount: 4,
    });
    assert_eq!(s.stub_delegation_changes().delegations.len(), 1);
    assert_eq!(Staking::end_block(&mut s, &EndBlock { height: 1 }), Ok(()));
    let recorded = s.delegation_changes(1).unwrap();
    assert_eq!(recorded.delegations.len(), 1);
    assert_eq!(recorded.delegations[0].delegation_amount, 10);
    assert_eq!(recorded.undelegations[0].delegation_amount, 4);
    s.put_stub_delegation_changes(DelegationChanges::new());
    assert!(s.stub_delegation_changes().delegations.is_empty());
    assert!(s.delegation_changes(2).is_err());
}

#[test]
fn a_failed_pass_leaves_the_validators_before_the_failure_processed() {
    let mut s = four([1, 1, 1, 1], [State::Inactive; 4]);
    s.put_validator_state(&id(1), State::Active);
    s.set_validator_uptime(&id(1), Uptime::new(0, 128));
    s.put_validator_state(&id(3), State::Active);
    s.set_block_height(1);
    assert_eq!(s.track_uptime(&no_votes()), Err(StakingError::MissingInvariantRecord));
    assert_eq!(s.validator_uptime(&id(1)).unwrap().as_of_height(), 1);
    assert!(s.validator_uptime(&id(3)).is_none());
}
