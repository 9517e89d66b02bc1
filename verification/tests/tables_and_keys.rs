use sha2::{Digest, Sha256};
use staking::address::{address_of_digest, validator_address};
use staking::chain::{ChainParameters, Epoch, MAX_VOTING_POWER};
use staking::changes::{total_delegated, total_undelegated, Delegate, Undelegate};
use staking::error::StakingError;
use staking::keys::{array_before, array_same, ConsensusKey, IdentityKey, PenaltyKey, TableKey};
use staking::penalty::Penalty;
use staking::table::Table;
use staking::uptime::Uptime;
use tendermint::PublicKey;
use staking::validator::{
    commission_within_whole, total_commission_bps, Address, FundingStream, Validator,
};

fn id(n: u8) -> IdentityKey {
    IdentityKey([n; 32])
}

#[test]
fn validator_address_is_the_truncated_sha256_of_the_key() {
    let address = validator_address(&ConsensusKey([0; 32]));
    assert_eq!(
        address.0,
        [102, 104, 122, 173, 248, 98, 189, 119, 108, 143, 193, 139, 142, 159, 142, 32, 8, 151, 20, 133]
    );
    let address = validator_address(&ConsensusKey([7; 32]));
    assert_eq!(
        address.0,
        [75, 176, 111, 142, 78, 58, 119, 21, 210, 1, 213, 115, 208, 170, 66, 55, 98, 229, 93, 171]
    );
}

#[test]
fn validator_address_agrees_with_the_digest() {
    let mut key = [0u8; 32];
    for (i, byte) in key.iter_mut().enumerate() {
        *byte = (i * 7 + 3) as u8;
    }
    let digest = Sha256::digest(key);
    assert_eq!(&validator_address(&ConsensusKey(key)).0[..], &digest[..20]);
}

#[test]
fn address_of_digest_takes_the_first_twenty_bytes() {
    let mut digest = [0u8; 32];
    for (i, byte) in digest.iter_mut().enumerate() {
        *byte = i as u8;
    }
    let address = address_of_digest(&digest);
    assert_eq!(address.0, [0, 1, 2, 3, 4, 5, 6, 7, 8, 9, 10, 11, 12, 13, 14, 15, 16, 17, 18, 19]);
}

#[test]
fn byte_arrays_are_ordered_lexicographically() {
    let mut low = [0u8; 32];
    let mut high = [0u8; 32];
    low[31] = 255;
    high[0] = 1;
    assert!(array_before(&low, &high));
    assert!(!array_before(&high, &low));
    assert!(!array_before(&low, &low));
    assert!(array_same(&low, &low));
    assert!(!array_same(&low, &high));
}

#[test]
fn identity_keys_order_by_their_bytes() {
    assert!(id(1).comes_before(&id(2)));
    assert!(!id(2).comes_before(&id(1)));
    assert!(!id(2).comes_before(&id(2)));
    assert!(id(2).same_as(&id(2)));
}

#[test]
fn penalty_keys_order_by_validator_then_epoch() {
    let a = PenaltyKey { validator: id(1), epoch_index: 9 };
    let b = PenaltyKey { validator: id(2), epoch_index: 0 };
    let c = PenaltyKey { validator: id(2), epoch_index: 1 };
    assert!(a.comes_before(&b));
    assert!(b.comes_before(&c));
    assert!(!c.comes_before(&b));
    assert!(c.same_as(&c));
    assert!(!b.same_as(&c));
}

#[test]
fn table_keeps_keys_in_ascending_order() {
    let mut table: Table<u64, u64> = Table::new();
    table.put(5, 50);
    table.put(1, 10);
    table.put(3, 30);
    table.put(5, 55);
    assert_eq!(table.len(), 3);
    assert_eq!(table.key_list(), vec![1, 3, 5]);
    assert_eq!(table.get(&5), Some(&55));
    assert_eq!(table.get(&1), Some(&10));
    assert_eq!(table.get(&2), None);
    assert_eq!(table.position(&3), Some(1));
    assert!(table.contains_key(&3));
    assert!(!table.contains_key(&4));
    assert_eq!(table.key_at(0), 1);
    assert_eq!(*table.value_at(2), 55);
}

#[test]
fn table_of_identity_keys() {
    let mut table: Table<IdentityKey, u64> = Table::new();
    table.put(id(9), 9);
    table.put(id(2), 2);
    table.put(id(4), 4);
    let keys: Vec<u8> = table.key_list().iter().map(|k| k.0[0]).collect();
    assert_eq!(keys, vec![2, 4, 9]);
    assert_eq!(table.get(&id(4)), Some(&4));
}

#[test]
fn epoch_from_height() {
    assert_eq!(Epoch::from_height(0, 10), Epoch { index: 0, duration: 10 });
    assert_eq!(Epoch::from_height(9, 10), Epoch { index: 0, duration: 10 });
    assert_eq!(Epoch::from_height(10, 10), Epoch { index: 1, duration: 10 });
    assert_eq!(Epoch::from_height(25, 10), Epoch { index: 2, duration: 10 });
}

#[test]
fn epoch_heights() {
    let epoch = Epoch { index: 3, duration: 10 };
    assert_eq!(epoch.start_height(), Some(30));
    assert_eq!(epoch.end_height(), Some(39));
    assert!(epoch.is_epoch_end(39));
    assert!(!epoch.is_epoch_end(38));
    assert!(!epoch.is_epoch_end(40));
    let far = Epoch { index: u64::MAX, duration: 2 };
    assert_eq!(far.start_height(), None);
    assert_eq!(far.end_height(), None);
    assert!(!far.is_epoch_end(0));
    let empty = Epoch { index: 3, duration: 0 };
    assert_eq!(empty.end_height(), None);
}

#[test]
fn chain_parameters_validity() {
    let good = ChainParameters {
        epoch_duration: 10,
        unbonding_epochs: 2,
        active_validator_limit: 3,
        base_reward_rate: 30_000,
        slashing_penalty_misbehavior: Penalty(10_000_000),
        slashing_penalty_downtime: Penalty(10_000),
        signed_blocks_window_len: 100,
        missed_blocks_maximum: 90,
    };
    assert!(good.is_valid());
    assert!(!ChainParameters { epoch_duration: 0, ..good }.is_valid());
    assert!(!ChainParameters { signed_blocks_window_len: 0, ..good }.is_valid());
    assert!(!ChainParameters { slashing_penalty_downtime: Penalty(100_000_001), ..good }.is_valid());
    assert!(!ChainParameters { slashing_penalty_misbehavior: Penalty(u64::MAX), ..good }.is_valid());
    assert_eq!(MAX_VOTING_POWER, 1_152_921_504_606_846_975);
    assert_eq!(MAX_VOTING_POWER, (i64::MAX / 8) as u64);
}

#[test]
fn commission_of_funding_streams() {
    let streams = vec![
        FundingStream { address: Address([1; 80]), rate_bps: 2_500 },
        FundingStream { address: Address([2; 80]), rate_bps: 7_500 },
    ];
    assert!(commission_within_whole(&streams));
    assert_eq!(total_commission_bps(&streams), 10_000);
    let too_much = vec![
        FundingStream { address: Address([1; 80]), rate_bps: 2_501 },
        FundingStream { address: Address([2; 80]), rate_bps: 7_500 },
    ];
    assert!(!commission_within_whole(&too_much));
    assert!(commission_within_whole(&Vec::new()));
}

#[test]
fn validator_new_rejects_too_much_commission() {
    let ok = Validator::new(
        id(1),
        ConsensusKey([1; 32]),
        vec![FundingStream { address: Address([1; 80]), rate_bps: 10_000 }],
        true,
    );
    assert!(ok.is_some());
    let validator = ok.unwrap();
    let copy = validator.clone();
    assert_eq!(copy.identity_key.0, [1; 32]);
    assert_eq!(copy.funding_streams.len(), 1);
    assert_eq!(copy.funding_streams[0].rate_bps, 10_000);
    assert!(copy.enabled);
    let bad = Validator::new(
        id(1),
        ConsensusKey([1; 32]),
        vec![FundingStream { address: Address([1; 80]), rate_bps: 10_001 }],
        true,
    );
    assert!(bad.is_none());
}

#[test]
fn totals_of_delegations_by_validator() {
    let delegations = vec![
        Delegate { validator_identity: id(1), epoch_index: 0, unbonded_amount: 5, delegation_amount: 5 },
        Delegate { validator_identity: id(2), epoch_index: 0, unbonded_amount: 7, delegation_amount: 7 },
        Delegate { validator_identity: id(1), epoch_index: 0, unbonded_amount: 11, delegation_amount: 10 },
    ];
    assert_eq!(total_delegated(&delegations, &id(1)), Some(15));
    assert_eq!(total_delegated(&delegations, &id(2)), Some(7));
    assert_eq!(total_delegated(&delegations, &id(3)), Some(0));
    let undelegations = vec![
        Undelegate { validator_identity: id(1), epoch_index: 0, unbonded_amount: 5, delegation_amount: 4 },
        Undelegate { validator_identity: id(1), epoch_index: 0, unbonded_amount: 5, delegation_amount: 3 },
    ];
    assert_eq!(total_undelegated(&undelegations, &id(1)), Some(7));
    assert_eq!(total_undelegated(&undelegations, &id(2)), Some(0));
}

#[test]
fn totals_beyond_the_signed_range_are_refused() {
    let big = i64::MAX as u64;
    let delegations = vec![
        Delegate { validator_identity: id(1), epoch_index: 0, unbonded_amount: 0, delegation_amount: big },
        Delegate { validator_identity: id(1), epoch_index: 0, unbonded_amount: 0, delegation_amount: 1 },
    ];
    assert_eq!(total_delegated(&delegations, &id(1)), None);
    assert_eq!(total_delegated(&delegations[..1].to_vec(), &id(1)), Some(big));
    let undelegations = vec![
        Undelegate { validator_identity: id(1), epoch_index: 0, unbonded_amount: 0, delegation_amount: big },
        Undelegate { validator_identity: id(1), epoch_index: 0, unbonded_amount: 0, delegation_amount: 1 },
    ];
    assert_eq!(total_undelegated(&undelegations, &id(1)), None);
}

#[test]
fn uptime_starts_with_every_block_signed() {
    let uptime = Uptime::new(10, 128);
    assert_eq!(uptime.num_missed_blocks(), 0);
    assert_eq!(uptime.window_len(), 128);
    assert_eq!(uptime.as_of_height(), 10);
}

#[test]
fn uptime_counts_missed_blocks_in_the_window() {
    let mut uptime = Uptime::new(0, 4);
    assert_eq!(uptime.mark_height_as_signed(1, false), Ok(()));
    assert_eq!(uptime.mark_height_as_signed(2, true), Ok(()));
    assert_eq!(uptime.mark_height_as_signed(3, false), Ok(()));
    assert_eq!(uptime.num_missed_blocks(), 2);
    assert_eq!(uptime.mark_height_as_signed(4, false), Ok(()));
    assert_eq!(uptime.num_missed_blocks(), 3);
    // The block at height 5 takes the slot of the block at height 1.
    assert_eq!(uptime.mark_height_as_signed(5, true), Ok(()));
    assert_eq!(uptime.num_missed_blocks(), 2);
    assert_eq!(uptime.as_of_height(), 5);
    let copy = uptime.clone();
    assert_eq!(copy.num_missed_blocks(), 2);
    assert_eq!(copy.as_of_height(), 5);
}

#[test]
fn uptime_refuses_a_height_out_of_sequence() {
    let mut uptime = Uptime::new(7, 4);
    assert_eq!(uptime.mark_height_as_signed(7, false), Err(StakingError::NonSequentialHeight));
    assert_eq!(uptime.mark_height_as_signed(9, false), Err(StakingError::NonSequentialHeight));
    assert_eq!(uptime.num_missed_blocks(), 0);
    assert_eq!(uptime.as_of_height(), 7);
    assert_eq!(uptime.mark_height_as_signed(8, false), Ok(()));
    assert_eq!(uptime.num_missed_blocks(), 1);
    let mut last = Uptime::new(u64::MAX, 4);
    assert_eq!(last.mark_height_as_signed(0, true), Err(StakingError::NonSequentialHeight));
}

#[test]
fn consensus_keys_order_as_the_consensus_engine_orders_them() {
    let mut keys: Vec<(ConsensusKey, PublicKey)> = Vec::new();
    for first in 0..=255u8 {
        let mut bytes = [first; 32];
        bytes[31] = first & 0x7f;
        bytes[7] = first.wrapping_mul(31);
        if let Some(key) = PublicKey::from_raw_ed25519(&bytes) {
            assert_eq!(key.to_bytes(), bytes.to_vec());
            keys.push((ConsensusKey(bytes), key));
        }
    }
    assert!(keys.len() >= 16);
    for (a, ka) in &keys {
        for (b, kb) in &keys {
            assert_eq!(a.comes_before(b), ka < kb);
            assert_eq!(a.same_as(b), ka == kb);
        }
    }
}
