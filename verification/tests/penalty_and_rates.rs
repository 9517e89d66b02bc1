use staking::keys::IdentityKey;
use staking::penalty::{Penalty, PENALTY_SCALE};
use staking::rate::{BaseRateData, RateData};
use staking::validator::{Address, FundingStream, State};

fn rate(exchange: u64) -> RateData {
    RateData {
        identity_key: IdentityKey([1; 32]),
        epoch_index: 7,
        validator_reward_rate: 0,
        validator_exchange_rate: exchange,
    }
}

fn base(epoch_index: u64, reward: u64, exchange: u64) -> BaseRateData {
    BaseRateData { epoch_index, base_reward_rate: reward, base_exchange_rate: exchange }
}

fn stream(rate_bps: u16) -> FundingStream {
    FundingStream { address: Address([9; 80]), rate_bps }
}

#[test]
fn penalty_new_accepts_up_to_the_whole() {
    assert_eq!(Penalty::new(0), Some(Penalty(0)));
    assert_eq!(Penalty::new(PENALTY_SCALE), Some(Penalty(100_000_000)));
    assert_eq!(Penalty::new(PENALTY_SCALE + 1), None);
}

#[test]
fn penalty_default_is_the_identity() {
    assert_eq!(Penalty::default(), Penalty(0));
    assert_eq!(Penalty::identity(), Penalty(0));
    let p = Penalty(12_345_678);
    assert_eq!(Penalty::default().compound(p), p);
    assert_eq!(p.compound(Penalty::default()), p);
}

#[test]
fn compound_of_two_one_percent_penalties() {
    let one_percent = Penalty(1_000_000);
    assert_eq!(one_percent.compound(one_percent), Penalty(1_990_000));
}

#[test]
fn compound_is_commutative_on_values() {
    let a = Penalty(3_333_333);
    let b = Penalty(77_000_001);
    assert_eq!(a.compound(b), b.compound(a));
}

#[test]
fn compound_with_the_whole_takes_everything() {
    let whole = Penalty(PENALTY_SCALE);
    assert_eq!(whole.compound(Penalty(5)), whole);
    assert_eq!(Penalty(5).compound(whole), whole);
}

#[test]
fn compound_is_associative_where_nothing_is_rounded() {
    let half = Penalty(50_000_000);
    let tenth = Penalty(10_000_000);
    let fifth = Penalty(20_000_000);
    assert_eq!(half.compound(tenth).compound(fifth), half.compound(tenth.compound(fifth)));
    assert_eq!(half.compound(tenth).compound(fifth), Penalty(64_000_000));
}

#[test]
fn compound_groupings_differ_by_at_most_one_unit() {
    let tiny = Penalty(1);
    let half = Penalty(50_000_000);
    let left = tiny.compound(tiny).compound(half);
    let right = tiny.compound(tiny.compound(half));
    assert_eq!(left, Penalty(50_000_001));
    assert_eq!(right, Penalty(50_000_002));
}

#[test]
fn base_rate_next_grows_by_the_reward() {
    let next = base(4, 0, 100_000_000).next(3_000_000).unwrap();
    assert_eq!(next, base(5, 3_000_000, 103_000_000));
}

#[test]
fn base_rate_next_rounds_down() {
    let next = base(0, 0, 100_000_001).next(1).unwrap();
    assert_eq!(next.base_exchange_rate, 100_000_002);
    let next = base(0, 0, 99).next(1_000_000).unwrap();
    assert_eq!(next.base_exchange_rate, 99);
}

#[test]
fn base_rate_next_fails_on_overflow() {
    assert_eq!(base(u64::MAX, 0, 100_000_000).next(0), None);
    assert_eq!(base(0, 0, u64::MAX).next(1), None);
    assert_eq!(base(0, 0, u64::MAX).next(0).unwrap().base_exchange_rate, u64::MAX);
}

#[test]
fn validator_rate_next_for_an_active_validator() {
    let next = rate(100_000_000)
        .next(&base(8, 3_000_000, 103_000_000), &vec![stream(1_000)], State::Active)
        .unwrap();
    assert_eq!(next.epoch_index, 8);
    assert_eq!(next.validator_reward_rate, 2_700_000);
    assert_eq!(next.validator_exchange_rate, 102_700_000);
    assert_eq!(next.identity_key.0, [1; 32]);
}

#[test]
fn validator_rate_next_is_flat_unless_active() {
    for state in [State::Inactive, State::Disabled, State::Jailed, State::Tombstoned] {
        let mut current = rate(123_456_789);
        current.validator_reward_rate = 42;
        let next = current.next(&base(8, 3_000_000, 103_000_000), &vec![stream(1_000)], state)
            .unwrap();
        assert_eq!(next.epoch_index, 8);
        assert_eq!(next.validator_reward_rate, 42);
        assert_eq!(next.validator_exchange_rate, 123_456_789);
    }
}

#[test]
fn validator_rate_next_with_full_commission_earns_nothing() {
    let next = rate(100_000_000)
        .next(&base(8, 3_000_000, 103_000_000), &vec![stream(6_000), stream(4_000)], State::Active)
        .unwrap();
    assert_eq!(next.validator_reward_rate, 0);
    assert_eq!(next.validator_exchange_rate, 100_000_000);
}

#[test]
fn slash_takes_the_penalty_share_of_the_rate() {
    let slashed = rate(102_700_000).slash(Penalty(1_000_000));
    assert_eq!(slashed.validator_exchange_rate, 101_673_000);
    assert_eq!(slashed.epoch_index, 7);
    assert_eq!(rate(102_700_000).slash(Penalty(0)).validator_exchange_rate, 102_700_000);
    assert_eq!(rate(102_700_000).slash(Penalty(100_000_000)).validator_exchange_rate, 0);
}

#[test]
fn unbonded_amount_at_a_rate() {
    assert_eq!(rate(102_700_000).unbonded_amount(1_000), Some(1_027));
    assert_eq!(rate(100_000_000).unbonded_amount(u64::MAX), Some(u64::MAX));
    assert_eq!(rate(100_000_001).unbonded_amount(u64::MAX), None);
}

#[test]
fn voting_power_is_measured_at_the_base_rate() {
    let b = base(7, 0, 103_000_000);
    assert_eq!(rate(102_700_000).voting_power(1_000, &b), Some(997));
    assert_eq!(rate(100_000_000).voting_power(100, &base(0, 0, 100_000_000)), Some(100));
    assert_eq!(rate(100_000_000).voting_power(100, &base(0, 0, 0)), None);
    assert_eq!(rate(u64::MAX).voting_power(u64::MAX, &base(0, 0, 1)), None);
}

#[test]
fn reward_amount_of_a_funding_stream() {
    let next = base(8, 3_000_000, 103_000_000);
    let current = base(7, 0, 100_000_000);
    assert_eq!(stream(1_000).reward_amount(1_000_000, &next, &current), Some(3_000));
    assert_eq!(stream(0).reward_amount(1_000_000, &next, &current), Some(0));
}

#[test]
fn reward_amount_fails_where_a_stage_overflows() {
    let next = base(8, u64::MAX, 103_000_000);
    let current = base(7, 0, u64::MAX);
    assert_eq!(stream(10_000).reward_amount(u64::MAX, &next, &current), None);
}
