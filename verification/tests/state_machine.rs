use staking::chain::{ChainParameters, Epoch, MAX_VOTING_POWER};
use staking::error::StakingError;
use staking::keys::{ConsensusKey, IdentityKey};
use staking::machine::{transition, Evidence, Transition};
use staking::address::validator_address;
use staking::penalty::Penalty;
use staking::rate::RateData;
use staking::read::StateReadExt;
use staking::state::StakingState;
use staking::uptime::Uptime;
use staking::validator::{Address, BondingState, FundingStream, State, Validator};
use staking::write::StateWriteExt;

fn id(n: u8) -> IdentityKey {
    IdentityKey([n; 32])
}

fn ck(n: u8) -> ConsensusKey {
    ConsensusKey([n; 32])
}

fn params() -> ChainParameters {
    ChainParameters {
        epoch_duration: 10,
        unbonding_epochs: 3,
        active_validator_limit: 2,
        base_reward_rate: 3_000_000,
        slashing_penalty_misbehavior: Penalty(10_000_000),
        slashing_penalty_downtime: Penalty(1_000_000),
        signed_blocks_window_len: 128,
        missed_blocks_maximum: 50,
    }
}

fn rate(n: u8, epoch_index: u64) -> RateData {
    RateData {
        identity_key: id(n),
        epoch_index,
        validator_reward_rate: 0,
        validator_exchange_rate: 100_000_000,
    }
}

fn validator(n: u8) -> Validator {
    Validator::new(id(n), ck(n), Vec::new(), true).unwrap()
}

/// A state at height 25 (epoch 2) with one validator in the given state.
fn state_with(n: u8, state: State) -> StakingState {
    let mut s = StakingState::new(params(), 25).unwrap();
    s.add_validator(validator(n), rate(n, 2), rate(n, 3)).unwrap();
    s.put_validator_state(&id(n), state);
    s
}

const ALL: [State; 5] =
    [State::Inactive, State::Active, State::Disabled, State::Jailed, State::Tombstoned];

#[test]
fn transition_table_has_one_outcome_for_each_pair() {
    let expected = [
        (State::Inactive, State::Inactive, Transition::NoOp),
        (State::Inactive, State::Active, Transition::Activate),
        (State::Inactive, State::Disabled, Transition::RecordOnly),
        (State::Inactive, State::Jailed, Transition::Illegal),
        (State::Inactive, State::Tombstoned, Transition::Tombstone),
        (State::Active, State::Inactive, Transition::BeginUnbonding),
        (State::Active, State::Active, Transition::NoOp),
        (State::Active, State::Disabled, Transition::BeginUnbonding),
        (State::Active, State::Jailed, Transition::Jail),
        (State::Active, State::Tombstoned, Transition::Tombstone),
        (State::Disabled, State::Inactive, Transition::RecordOnly),
        (State::Disabled, State::Active, Transition::Illegal),
        (State::Disabled, State::Disabled, Transition::NoOp),
        (State::Disabled, State::Jailed, Transition::Illegal),
        (State::Disabled, State::Tombstoned, Transition::Tombstone),
        (State::Jailed, State::Inactive, Transition::RecordOnly),
        (State::Jailed, State::Active, Transition::Illegal),
        (State::Jailed, State::Disabled, Transition::RecordOnly),
        (State::Jailed, State::Jailed, Transition::Illegal),
        (State::Jailed, State::Tombstoned, Transition::Tombstone),
        (State::Tombstoned, State::Inactive, Transition::Illegal),
        (State::Tombstoned, State::Active, Transition::Illegal),
        (State::Tombstoned, State::Disabled, Transition::Illegal),
        (State::Tombstoned, State::Jailed, Transition::Illegal),
        (State::Tombstoned, State::Tombstoned, Transition::Illegal),
    ];
    assert_eq!(expected.len(), 25);
    for (cur, new, outcome) in expected {
        assert_eq!(transition(cur, new), outcome, "{:?} -> {:?}", cur, new);
    }
}

#[test]
fn every_pair_of_states_succeeds_or_is_illegal_as_the_table_says() {
    for cur in ALL {
        for new in ALL {
            let mut s = state_with(1, cur);
            let result = s.set_validator_state(&id(1), new);
            if transition(cur, new) == Transition::Illegal {
                assert_eq!(result, Err(StakingError::IllegalTransition));
                assert_eq!(s.validator_state(&id(1)), Some(cur));
            } else {
                assert_eq!(result, Ok(()));
                assert_eq!(s.validator_state(&id(1)), Some(new));
            }
        }
    }
}

#[test]
fn nothing_leaves_tombstoned() {
    for new in ALL {
        let mut s = state_with(1, State::Tombstoned);
        assert_eq!(s.set_validator_state(&id(1), new), Err(StakingError::IllegalTransition));
        assert_eq!(s.validator_state(&id(1)), Some(State::Tombstoned));
        assert_eq!(
            s.set_validator_state_inner(&id(1), State::Tombstoned, new),
            Err(StakingError::IllegalTransition)
        );
    }
}

#[test]
fn no_op_transitions_change_nothing() {
    for state in [State::Inactive, State::Active, State::Disabled] {
        let mut s = state_with(1, state);
        assert_eq!(s.set_validator_state(&id(1), state), Ok(()));
        assert_eq!(s.validator_state(&id(1)), Some(state));
        assert_eq!(s.validator_bonding_state(&id(1)), Some(BondingState::Unbonded));
        assert!(s.validator_uptime(&id(1)).is_none());
        assert_eq!(s.penalty_in_epoch(&id(1), 2), None);
    }
}

#[test]
fn activation_bonds_the_pool_and_resets_uptime() {
    let mut s = state_with(1, State::Inactive);
    let mut stale = Uptime::new(24, 128);
    stale.mark_height_as_signed(25, false).unwrap();
    s.set_validator_uptime(&id(1), stale);
    assert_eq!(s.set_validator_state(&id(1), State::Active), Ok(()));
    assert_eq!(s.validator_state(&id(1)), Some(State::Active));
    assert_eq!(s.validator_bonding_state(&id(1)), Some(BondingState::Bonded));
    let uptime = s.validator_uptime(&id(1)).unwrap();
    assert_eq!(uptime.num_missed_blocks(), 0);
    assert_eq!(uptime.window_len(), 128);
    assert_eq!(uptime.as_of_height(), 25);
}

#[test]
fn activation_needs_a_recorded_power() {
    let mut s = StakingState::new(params(), 25).unwrap();
    s.put_validator_state(&id(1), State::Inactive);
    assert_eq!(s.set_validator_state(&id(1), State::Active), Err(StakingError::MissingInvariantRecord));
    assert_eq!(s.validator_state(&id(1)), Some(State::Inactive));
    assert_eq!(s.validator_bonding_state(&id(1)), None);
}

#[test]
fn leaving_the_active_set_starts_unbonding() {
    for new in [State::Inactive, State::Disabled] {
        let mut s = state_with(1, State::Active);
        assert_eq!(s.set_validator_state(&id(1), new), Ok(()));
        assert_eq!(s.validator_state(&id(1)), Some(new));
        // Epoch 2 plus three unbonding epochs.
        assert_eq!(
            s.validator_bonding_state(&id(1)),
            Some(BondingState::Unbonding { unbonding_epoch: 5 })
        );
        assert_eq!(s.penalty_in_epoch(&id(1), 2), None);
    }
}

#[test]
fn an_earlier_unbonding_epoch_is_kept() {
    let mut s = state_with(1, State::Active);
    s.set_validator_bonding_state(&id(1), BondingState::Unbonding { unbonding_epoch: 4 });
    assert_eq!(s.current_unbonding_end_epoch_for(&id(1)), Ok(4));
    assert_eq!(s.set_validator_state(&id(1), State::Inactive), Ok(()));
    assert_eq!(
        s.validator_bonding_state(&id(1)),
        Some(BondingState::Unbonding { unbonding_epoch: 4 })
    );
    s.set_validator_bonding_state(&id(1), BondingState::Unbonding { unbonding_epoch: 9 });
    assert_eq!(s.current_unbonding_end_epoch_for(&id(1)), Ok(5));
    assert_eq!(s.current_unbonding_end_epoch_for(&id(2)), Ok(5));
}

#[test]
fn unbonding_epoch_overflow_is_an_error() {
    let mut p = params();
    p.unbonding_epochs = u64::MAX;
    let mut s = StakingState::new(p, 25).unwrap();
    s.add_validator(validator(1), rate(1, 2), rate(1, 3)).unwrap();
    s.put_validator_state(&id(1), State::Active);
    assert_eq!(s.current_unbonding_end_epoch_for(&id(1)), Err(StakingError::ArithmeticOverflow));
    assert_eq!(s.set_validator_state(&id(1), State::Inactive), Err(StakingError::ArithmeticOverflow));
    assert_eq!(s.set_validator_state(&id(1), State::Jailed), Err(StakingError::ArithmeticOverflow));
    assert_eq!(s.validator_state(&id(1)), Some(State::Active));
    assert_eq!(s.penalty_in_epoch(&id(1), 2), None);
}

#[test]
fn record_only_transitions_have_no_side_effects() {
    for (cur, new) in [
        (State::Jailed, State::Inactive),
        (State::Disabled, State::Inactive),
        (State::Inactive, State::Disabled),
        (State::Jailed, State::Disabled),
    ] {
        let mut s = state_with(1, cur);
        assert_eq!(s.set_validator_state(&id(1), new), Ok(()));
        assert_eq!(s.validator_state(&id(1)), Some(new));
        assert_eq!(s.validator_bonding_state(&id(1)), Some(BondingState::Unbonded));
        assert_eq!(s.penalty_in_epoch(&id(1), 2), None);
        assert!(s.validator_uptime(&id(1)).is_none());
    }
}

#[test]
fn jailing_slashes_for_downtime_and_starts_unbonding() {
    let mut s = state_with(1, State::Active);
    assert_eq!(s.set_validator_state(&id(1), State::Jailed), Ok(()));
    assert_eq!(s.validator_state(&id(1)), Some(State::Jailed));
    assert_eq!(s.penalty_in_epoch(&id(1), 2), Some(Penalty(1_000_000)));
    assert_eq!(
        s.validator_bonding_state(&id(1)),
        Some(BondingState::Unbonding { unbonding_epoch: 5 })
    );
}

#[test]
fn jailing_always_takes_the_full_unbonding_period() {
    let mut s = state_with(1, State::Active);
    s.set_validator_bonding_state(&id(1), BondingState::Unbonding { unbonding_epoch: 4 });
    assert_eq!(s.set_validator_state(&id(1), State::Jailed), Ok(()));
    assert_eq!(
        s.validator_bonding_state(&id(1)),
        Some(BondingState::Unbonding { unbonding_epoch: 5 })
    );
}

#[test]
fn tombstoning_slashes_for_misbehaviour_and_unbonds_at_once() {
    for cur in [State::Active, State::Inactive, State::Disabled, State::Jailed] {
        let mut s = state_with(1, cur);
        s.set_validator_bonding_state(&id(1), BondingState::Bonded);
        assert_eq!(s.set_validator_state(&id(1), State::Tombstoned), Ok(()));
        assert_eq!(s.validator_state(&id(1)), Some(State::Tombstoned));
        assert_eq!(s.penalty_in_epoch(&id(1), 2), Some(Penalty(10_000_000)));
        assert_eq!(s.validator_bonding_state(&id(1)), Some(BondingState::Unbonded));
    }
}

#[test]
fn illegal_transitions_are_refused() {
    for (cur, new) in [
        (State::Jailed, State::Active),
        (State::Disabled, State::Active),
        (State::Inactive, State::Jailed),
        (State::Jailed, State::Jailed),
        (State::Disabled, State::Jailed),
    ] {
        let mut s = state_with(1, cur);
        assert_eq!(s.set_validator_state(&id(1), new), Err(StakingError::IllegalTransition));
        assert_eq!(s.validator_state(&id(1)), Some(cur));
        assert_eq!(s.penalty_in_epoch(&id(1), 2), None);
    }
}

#[test]
fn a_state_change_needs_a_recorded_state() {
    let mut s = StakingState::new(params(), 25).unwrap();
    assert_eq!(s.set_validator_state(&id(1), State::Active), Err(StakingError::MissingInvariantRecord));
    assert_eq!(s.validator_state(&id(1)), None);
}

#[test]
fn power_bound_is_enforced() {
    let mut s = state_with(1, State::Inactive);
    assert_eq!(s.set_validator_power(&id(1), 0), Ok(()));
    assert_eq!(s.validator_power(&id(1)), Some(0));
    assert_eq!(s.set_validator_power(&id(1), MAX_VOTING_POWER), Ok(()));
    assert_eq!(s.validator_power(&id(1)), Some(1_152_921_504_606_846_975));
    assert_eq!(
        s.set_validator_power(&id(1), MAX_VOTING_POWER + 1),
        Err(StakingError::OutOfBoundsVotingPower)
    );
    assert_eq!(s.validator_power(&id(1)), Some(MAX_VOTING_POWER));
    assert_eq!(s.set_validator_power(&id(1), u64::MAX), Err(StakingError::OutOfBoundsVotingPower));
    // A power that would be negative as a signed number is out of bounds too.
    assert_eq!(
        s.set_validator_power(&id(1), (-1i64) as u64),
        Err(StakingError::OutOfBoundsVotingPower)
    );
    assert_eq!(s.validator_power(&id(1)), Some(MAX_VOTING_POWER));
    assert_eq!(s.set_validator_power(&id(1), 17), Ok(()));
    assert_eq!(s.validator_power(&id(1)), Some(17));
}

#[test]
fn penalties_compound_within_an_epoch() {
    let mut s = state_with(1, State::Active);
    s.record_slashing_penalty(&id(1), Penalty(1_000_000));
    s.record_slashing_penalty(&id(1), Penalty(1_000_000));
    assert_eq!(s.penalty_in_epoch(&id(1), 2), Some(Penalty(1_990_000)));
    assert_eq!(s.penalty_in_epoch(&id(1), 1), None);
    assert_eq!(s.penalty_in_epoch(&id(2), 2), None);
}

#[test]
fn compounded_penalty_over_a_range_of_epochs() {
    let mut s = state_with(1, State::Active);
    s.set_block_height(5);
    s.record_slashing_penalty(&id(1), Penalty(50_000_000));
    s.set_block_height(25);
    s.record_slashing_penalty(&id(1), Penalty(10_000_000));
    s.set_block_height(45);
    s.record_slashing_penalty(&id(1), Penalty(20_000_000));
    s.record_slashing_penalty(&id(2), Penalty(99_000_000));
    assert_eq!(s.compounded_penalty_over_range(&id(1), 0, 5), Penalty(64_000_000));
    assert_eq!(s.compounded_penalty_over_range(&id(1), 0, 4), Penalty(55_000_000));
    assert_eq!(s.compounded_penalty_over_range(&id(1), 1, 5), Penalty(28_000_000));
    assert_eq!(s.compounded_penalty_over_range(&id(1), 2, 3), Penalty(10_000_000));
    assert_eq!(s.compounded_penalty_over_range(&id(1), 3, 4), Penalty(0));
    assert_eq!(s.compounded_penalty_over_range(&id(1), 0, u64::MAX), Penalty(64_000_000));
    assert_eq!(s.compounded_penalty_over_range(&id(3), 0, u64::MAX), Penalty(0));
}

#[test]
fn compounded_penalty_over_an_empty_range_is_the_identity() {
    let mut s = state_with(1, State::Active);
    s.record_slashing_penalty(&id(1), Penalty(50_000_000));
    for e in [0, 1, 2, 3, u64::MAX] {
        assert_eq!(s.compounded_penalty_over_range(&id(1), e, e), Penalty::default());
    }
    assert_eq!(s.compounded_penalty_over_range(&id(1), 3, 2), Penalty::default());
    assert_eq!(s.compounded_penalty_over_range(&id(1), 2, 3), Penalty(50_000_000));
}

#[test]
fn range_compounding_splits_where_nothing_is_rounded() {
    let mut s = state_with(1, State::Active);
    s.set_block_height(5);
    s.record_slashing_penalty(&id(1), Penalty(50_000_000));
    s.set_block_height(25);
    s.record_slashing_penalty(&id(1), Penalty(10_000_000));
    s.set_block_height(45);
    s.record_slashing_penalty(&id(1), Penalty(20_000_000));
    let whole = s.compounded_penalty_over_range(&id(1), 0, 10);
    for middle in 0..=10 {
        let first = s.compounded_penalty_over_range(&id(1), 0, middle);
        let second = s.compounded_penalty_over_range(&id(1), middle, 10);
        assert_eq!(first.compound(second), whole);
    }
}

#[test]
fn adding_a_validator_records_everything_together() {
    let mut s = StakingState::new(params(), 25).unwrap();
    let v = Validator::new(
        id(1),
        ck(7),
        vec![FundingStream { address: Address([3; 80]), rate_bps: 100 }],
        true,
    )
    .unwrap();
    assert_eq!(s.add_validator(v, rate(1, 2), rate(1, 3)), Ok(()));
    assert_eq!(s.validator_state(&id(1)), Some(State::Inactive));
    assert_eq!(s.validator_bonding_state(&id(1)), Some(BondingState::Unbonded));
    assert_eq!(s.validator_power(&id(1)), Some(0));
    assert_eq!(s.current_validator_rate(&id(1)).unwrap().epoch_index, 2);
    assert_eq!(s.next_validator_rate(&id(1)).unwrap().epoch_index, 3);
    assert_eq!(s.validator_consensus_key(&id(1)).unwrap().0, [7; 32]);
    assert_eq!(s.validator(&id(1)).unwrap().funding_streams[0].rate_bps, 100);
    let status = s.validator_status(&id(1)).unwrap();
    assert_eq!(status.state, State::Inactive);
    assert_eq!(status.voting_power, 0);
    assert_eq!(status.bonding_state, BondingState::Unbonded);
    assert_eq!(status.identity_key.0, [1; 32]);
    let info = s.validator_info(&id(1)).unwrap();
    assert_eq!(info.rate_data.epoch_index, 3);
    assert_eq!(info.validator.consensus_key.0, [7; 32]);
    assert_eq!(s.validator_by_consensus_key(&ck(7)).unwrap().identity_key.0, [1; 32]);
    let address = validator_address(&ck(7));
    assert_eq!(s.validator_by_tendermint_address(&address).unwrap().identity_key.0, [1; 32]);
    assert!(s.validator_by_consensus_key(&ck(1)).is_none());
    assert!(s.validator(&id(2)).is_none());
    assert!(s.validator_status(&id(2)).is_none());
    assert!(s.validator_info(&id(2)).is_none());
    assert!(s.validator_uptime(&id(1)).is_none());
}

#[test]
fn add_validator_inner_checks_the_power() {
    let mut s = StakingState::new(params(), 25).unwrap();
    let result = s.add_validator_inner(
        validator(1),
        rate(1, 2),
        rate(1, 3),
        State::Active,
        BondingState::Bonded,
        MAX_VOTING_POWER + 1,
    );
    assert_eq!(result, Err(StakingError::OutOfBoundsVotingPower));
    assert!(s.validator(&id(1)).is_none());
    assert_eq!(s.validator_state(&id(1)), None);
    assert!(s.validator_identity_list().is_empty());
    let result = s.add_validator_inner(
        validator(1),
        rate(1, 2),
        rate(1, 3),
        State::Active,
        BondingState::Bonded,
        MAX_VOTING_POWER,
    );
    assert_eq!(result, Ok(()));
    assert_eq!(s.validator_power(&id(1)), Some(MAX_VOTING_POWER));
    assert_eq!(s.validator_state(&id(1)), Some(State::Active));
}

#[test]
fn validators_are_listed_in_the_order_of_their_identity_keys() {
    let mut s = StakingState::new(params(), 25).unwrap();
    for n in [9u8, 2, 5, 2] {
        s.add_validator(validator(n), rate(n, 2), rate(n, 3)).unwrap();
    }
    let ids: Vec<u8> = s.validator_identity_list().iter().map(|k| k.0[0]).collect();
    assert_eq!(ids, vec![2, 5, 9]);
    let list: Vec<u8> = s.validator_list().iter().map(|v| v.identity_key.0[0]).collect();
    assert_eq!(list, vec![2, 5, 9]);
}

#[test]
fn update_validator_follows_the_enabled_flag() {
    let cases = [
        (State::Disabled, true, Some(State::Inactive)),
        (State::Jailed, true, Some(State::Inactive)),
        (State::Active, true, Some(State::Active)),
        (State::Inactive, true, Some(State::Inactive)),
        (State::Active, false, Some(State::Disabled)),
        (State::Inactive, false, Some(State::Disabled)),
        (State::Jailed, false, Some(State::Disabled)),
        (State::Disabled, false, Some(State::Disabled)),
        (State::Tombstoned, true, Some(State::Tombstoned)),
        (State::Tombstoned, false, Some(State::Tombstoned)),
    ];
    for (cur, enabled, after) in cases {
        let mut s = state_with(1, cur);
        let v = Validator::new(id(1), ck(1), Vec::new(), enabled).unwrap();
        assert_eq!(s.update_validator(v), Ok(()));
        assert_eq!(s.validator_state(&id(1)), after);
        assert_eq!(s.validator(&id(1)).unwrap().enabled, enabled);
    }
}

#[test]
fn update_validator_registers_a_rotated_consensus_key() {
    let mut s = state_with(1, State::Active);
    let v = Validator::new(id(1), ck(8), Vec::new(), true).unwrap();
    assert_eq!(s.update_validator(v), Ok(()));
    assert_eq!(s.validator_consensus_key(&id(1)).unwrap().0, [8; 32]);
    // The validator is found under its new key and still under the old one.
    assert_eq!(s.validator_by_consensus_key(&ck(8)).unwrap().identity_key.0, [1; 32]);
    assert_eq!(s.validator_by_consensus_key(&ck(1)).unwrap().identity_key.0, [1; 32]);
    assert_eq!(
        s.validator_by_tendermint_address(&validator_address(&ck(1))).unwrap().consensus_key.0,
        [8; 32]
    );
}

#[test]
fn update_validator_needs_a_known_validator() {
    let mut s = StakingState::new(params(), 25).unwrap();
    assert_eq!(s.update_validator(validator(1)), Err(StakingError::MissingInvariantRecord));
    assert!(s.validator(&id(1)).is_none());
    assert!(s.validator_by_consensus_key(&ck(1)).is_none());
}

#[test]
fn update_validator_that_disables_an_active_validator_starts_unbonding() {
    let mut s = state_with(1, State::Active);
    let v = Validator::new(id(1), ck(1), Vec::new(), false).unwrap();
    assert_eq!(s.update_validator(v), Ok(()));
    assert_eq!(
        s.validator_bonding_state(&id(1)),
        Some(BondingState::Unbonding { unbonding_epoch: 5 })
    );
}

#[test]
fn evidence_tombstones_the_validator_at_the_address() {
    let mut s = state_with(1, State::Active);
    let evidence = Evidence { address: validator_address(&ck(1)), height: 20 };
    assert_eq!(s.process_evidence(&evidence), Ok(()));
    assert_eq!(s.validator_state(&id(1)), Some(State::Tombstoned));
    assert_eq!(s.penalty_in_epoch(&id(1), 2), Some(Penalty(10_000_000)));
    assert_eq!(s.validator_bonding_state(&id(1)), Some(BondingState::Unbonded));
    // A second report finds the validator tombstoned already.
    assert_eq!(s.process_evidence(&evidence), Err(StakingError::IllegalTransition));
}

#[test]
fn evidence_against_an_unknown_address_is_refused() {
    let mut s = state_with(1, State::Active);
    let evidence = Evidence { address: validator_address(&ck(2)), height: 20 };
    assert_eq!(s.process_evidence(&evidence), Err(StakingError::UnknownValidatorEvidence));
    assert_eq!(s.validator_state(&id(1)), Some(State::Active));
}

#[test]
fn new_state_is_empty() {
    let s = StakingState::new(params(), 25).unwrap();
    assert_eq!(s.block_height(), 25);
    assert_eq!(s.current_epoch(), Epoch { index: 2, duration: 10 });
    assert_eq!(s.chain_params(), params());
    assert!(s.validator_identity_list().is_empty());
    assert_eq!(s.current_base_rate(), Err(StakingError::MissingInvariantRecord));
    assert_eq!(s.next_base_rate(), Err(StakingError::MissingInvariantRecord));
    assert_eq!(s.signed_blocks_window_len(), 128);
    assert_eq!(s.missed_blocks_maximum(), 50);
    assert_eq!(s.staking_token_supply(), 0);
    assert_eq!(s.delegation_token_supply(&id(1)), None);
    assert!(s.delegation_changes(25).is_err());
    let mut p = params();
    p.epoch_duration = 0;
    assert!(StakingState::new(p, 25).is_none());
}

#[test]
fn token_supplies_follow_signed_changes() {
    let mut s = StakingState::new(params(), 25).unwrap();
    assert_eq!(s.update_staking_token_supply(100), Ok(()));
    assert_eq!(s.update_staking_token_supply(-30), Ok(()));
    assert_eq!(s.staking_token_supply(), 70);
    assert_eq!(s.update_staking_token_supply(-71), Err(StakingError::ArithmeticOverflow));
    assert_eq!(s.staking_token_supply(), 70);
    assert_eq!(s.update_delegation_token_supply(&id(1), -1), Err(StakingError::ArithmeticOverflow));
    assert_eq!(s.delegation_token_supply(&id(1)), None);
    assert_eq!(s.update_delegation_token_supply(&id(1), 5), Ok(()));
    assert_eq!(s.update_delegation_token_supply(&id(1), 0), Ok(()));
    assert_eq!(s.delegation_token_supply(&id(1)), Some(5));
    assert_eq!(s.update_delegation_token_supply(&id(1), i64::MAX), Ok(()));
    assert_eq!(s.delegation_token_supply(&id(1)), Some(i64::MAX as u64 + 5));
    assert_eq!(s.update_delegation_token_supply(&id(1), i64::MAX), Err(StakingError::ArithmeticOverflow));
    assert_eq!(s.update_delegation_token_supply(&id(1), i64::MAX - 4), Ok(()));
    assert_eq!(s.delegation_token_supply(&id(1)), Some(u64::MAX));
}
