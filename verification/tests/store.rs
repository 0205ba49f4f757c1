use snap_coin_pool::share_store::{
    checked_total_of, record_key, total_work_of, Award, MinerPayout, PayoutRecord, ShareStore,
    TreeEntry, WorkEntry, EXPIRY_INTERVAL_SECS, SHARE_EXPIRY_SECS,
};

fn award(miner: u8, hash: u8, work: u128, stored: Option<Vec<u8>>, now: u64) -> Award {
    ShareStore::award_share(&[miner; 32], 77, &[hash; 32], work, false, &stored, now).unwrap()
}

fn entry(key: Vec<u8>, value: Vec<u8>) -> TreeEntry {
    TreeEntry { key, value }
}

fn record() -> PayoutRecord {
    PayoutRecord {
        block_height: 9,
        block_hash: [1; 32],
        timestamp: 10,
        total_reward: 100,
        pool_fee: 2,
        payouts: vec![MinerPayout { miner: [5; 32], work: 8, amount: 98 }],
        deferred: vec![[6; 32]],
    }
}

#[test]
fn an_empty_store_holds_no_work() {
    let s = ShareStore::empty();
    assert_eq!(s.get_work().len(), 0);
    assert_eq!(s.total_work(), 0);
    assert_eq!(s.miner_work(&[1; 32]), 0);
}

#[test]
fn an_award_says_what_is_written() {
    let a = award(1, 2, 500, None, 1_234);
    assert_eq!(a.record.miner, [1; 32]);
    assert_eq!(a.record.block_height, 77);
    assert_eq!(a.record.block_hash, [2; 32]);
    assert_eq!(a.record.timestamp, 1_234);
    assert_eq!(a.record.work_units, 500);
    assert_eq!(a.new_work, 500);
    assert_eq!(a.work_value, 500u128.to_le_bytes().to_vec());
    assert_eq!(a.seen_value, 1_234u64.to_le_bytes().to_vec());
}

#[test]
fn an_award_adds_to_what_is_stored() {
    let stored = Some(300u128.to_le_bytes().to_vec());
    let a = award(1, 2, 500, stored, 0);
    assert_eq!(a.new_work, 800);
    assert_eq!(a.work_value, 800u128.to_le_bytes().to_vec());
    assert_eq!(a.record.work_units, 500);
}

#[test]
fn an_award_reads_older_databases() {
    assert_eq!(award(1, 2, 5, Some(7u64.to_le_bytes().to_vec()), 0).new_work, 12);
    assert_eq!(award(1, 2, 5, Some(vec![1, 2, 3]), 0).new_work, 5);
    assert_eq!(award(1, 2, 5, Some(vec![]), 0).new_work, 5);
}

#[test]
fn work_saturates() {
    let stored = Some((u128::MAX - 1).to_le_bytes().to_vec());
    assert_eq!(award(1, 2, 5, stored, 0).new_work, u128::MAX);
}

#[test]
fn a_duplicate_earns_nothing() {
    assert!(ShareStore::award_share(&[1; 32], 77, &[2; 32], 5, true, &None, 0).is_none());
}

#[test]
fn credit_goes_to_the_miner_alone() {
    let mut s = ShareStore::empty();
    s.credit(&award(1, 2, 500, None, 0));
    s.credit(&award(3, 4, 70, None, 0));
    s.credit(&award(1, 5, 20, Some(500u128.to_le_bytes().to_vec()), 0));
    assert_eq!(s.miner_work(&[1; 32]), 520);
    assert_eq!(s.miner_work(&[3; 32]), 70);
    assert_eq!(s.total_work(), 590);
    assert_eq!(s.checked_total_work(), Some(590));
    assert_eq!(s.get_work().len(), 2);
}

#[test]
fn totals_beyond_128_bits_are_noticed() {
    let mut s = ShareStore::empty();
    s.credit(&award(1, 2, u128::MAX, None, 0));
    assert_eq!(s.checked_total_work(), Some(u128::MAX));
    s.credit(&award(3, 2, 1, None, 0));
    assert_eq!(s.checked_total_work(), None);
    let work = vec![WorkEntry { miner: [1; 32], work: 3 }, WorkEntry { miner: [2; 32], work: 4 }];
    assert_eq!(checked_total_of(&work), Some(7));
    assert_eq!(total_work_of(&work), 7);
}

#[test]
fn opening_recovers_what_was_credited() {
    let mut s = ShareStore::empty();
    let first = award(1, 2, 500, None, 0);
    let second = award(3, 4, 70, None, 0);
    s.credit(&first);
    s.credit(&second);
    let reopened = ShareStore::open(&vec![
        entry(vec![1; 32], first.work_value),
        entry(vec![3; 32], second.work_value),
    ]);
    assert_eq!(reopened.miner_work(&[1; 32]), s.miner_work(&[1; 32]));
    assert_eq!(reopened.miner_work(&[3; 32]), s.miner_work(&[3; 32]));
    assert_eq!(reopened.total_work(), s.total_work());
}

#[test]
fn opening_passes_over_what_is_no_work() {
    let s = ShareStore::open(&vec![
        entry(vec![1; 31], 5u128.to_le_bytes().to_vec()),
        entry(vec![2; 32], vec![1, 2, 3]),
        entry(vec![3; 32], 9u64.to_le_bytes().to_vec()),
        entry(vec![4; 32], u128::MAX.to_le_bytes().to_vec()),
    ]);
    assert_eq!(s.get_work().len(), 2);
    assert_eq!(s.miner_work(&[3; 32]), 9);
    assert_eq!(s.miner_work(&[4; 32]), u128::MAX);
}

#[test]
fn a_payout_clears_the_paid_alone() {
    let mut s = ShareStore::empty();
    s.credit(&award(5, 1, 8, None, 0));
    s.credit(&award(6, 2, 9, None, 0));
    s.credit(&award(7, 3, 10, None, 0));
    let batch = ShareStore::record_payout_and_clear(record(), &vec![[5; 32], [7; 32], [99; 32]]);
    assert_eq!(batch.cleared, vec![[5; 32], [7; 32], [99; 32]]);
    assert_eq!(batch.record.block_height, 9);
    assert_eq!(batch.record.payouts[0].amount, 98);
    s.clear(&batch);
    assert_eq!(s.miner_work(&[5; 32]), 0);
    assert_eq!(s.miner_work(&[6; 32]), 9);
    assert_eq!(s.miner_work(&[7; 32]), 0);
    assert_eq!(s.total_work(), 9);
}

#[test]
fn recent_payouts_are_the_last_ones_first() {
    let tree: Vec<TreeEntry> = (0..4u64).map(|id| entry(record_key(id), vec![id as u8 + 10])).collect();
    assert_eq!(ShareStore::recent_payouts(&tree, 0).len(), 0);
    assert_eq!(ShareStore::recent_payouts(&tree, 1), vec![vec![13]]);
    assert_eq!(ShareStore::recent_payouts(&tree, 3), vec![vec![13], vec![12], vec![11]]);
    assert_eq!(ShareStore::recent_payouts(&tree, 9).len(), 4);
    assert_eq!(ShareStore::recent_payouts(&vec![], 9).len(), 0);
}

#[test]
fn work_survives_awards_payouts_and_reopening() {
    let mut s = ShareStore::empty();
    let mut tree: Vec<TreeEntry> = Vec::new();
    for (miner, work) in [(1u8, 5u128), (2, 6), (1, 7), (3, 8)] {
        let stored = tree.iter().find(|e| e.key == vec![miner; 32]).map(|e| e.value.clone());
        let a = award(miner, miner, work, stored, 0);
        s.credit(&a);
        tree.retain(|e| e.key != vec![miner; 32]);
        tree.push(entry(vec![miner; 32], a.work_value));
    }
    let batch = ShareStore::record_payout_and_clear(record(), &vec![[2; 32]]);
    s.clear(&batch);
    tree.retain(|e| e.key != vec![2; 32]);
    let reopened = ShareStore::open(&tree);
    for miner in 1..=4u8 {
        assert_eq!(reopened.miner_work(&[miner; 32]), s.miner_work(&[miner; 32]));
    }
    assert_eq!(reopened.miner_work(&[1; 32]), 12);
    assert_eq!(reopened.total_work(), 20);
}

#[test]
fn submitted_hashes_are_forgotten_after_an_hour() {
    let seen = vec![
        entry(vec![1], 1_000u64.to_le_bytes().to_vec()),
        entry(vec![2], 1_001u64.to_le_bytes().to_vec()),
        entry(vec![3], vec![0; 7]),
        entry(vec![4], 0u64.to_le_bytes().to_vec()),
    ];
    assert_eq!(ShareStore::expire_seen(&seen, 4_600), vec![vec![4]]);
    assert_eq!(ShareStore::expire_seen(&seen, 4_601), vec![vec![1], vec![4]]);
    assert_eq!(ShareStore::expire_seen(&seen, 4_602), vec![vec![1], vec![2], vec![4]]);
    assert_eq!(ShareStore::expire_seen(&seen, 100), Vec::<Vec<u8>>::new());
    assert_eq!(SHARE_EXPIRY_SECS, 3_600);
    assert_eq!(EXPIRY_INTERVAL_SECS, 300);
}

#[test]
fn an_awarded_hash_stays_seen_for_an_hour() {
    let a = award(1, 2, 5, None, 10_000);
    let seen = vec![entry(vec![2; 32], a.seen_value)];
    assert_eq!(ShareStore::expire_seen(&seen, 13_600).len(), 0);
    assert_eq!(ShareStore::expire_seen(&seen, 13_601), vec![vec![2; 32]]);
}

#[test]
fn record_keys_sort_like_ids() {
    let ids = [0u64, 1, 255, 256, 65_535, 65_536, u64::MAX - 1, u64::MAX];
    for pair in ids.windows(2) {
        assert!(record_key(pair[0]) < record_key(pair[1]));
    }
    assert_eq!(record_key(258), vec![0, 0, 0, 0, 0, 0, 1, 2]);
}
