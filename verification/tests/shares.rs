use snap_coin_pool::chain::{
    same_transactions, Block, BlockMetadata, Transaction, TransactionInput, TransactionOutput,
};
use snap_coin_pool::handle_share::{
    handle_share, judge_against_job, judge_against_network, judge_share, prune_expired,
    refresh_job, validate_difficulties, DifficultyError, ShareError,
};

fn transaction(id: u8, timestamp: u64) -> Transaction {
    Transaction {
        inputs: vec![TransactionInput {
            transaction_id: [id; 32],
            output_index: 2,
            signature: Some([id; 64]),
            output_owner: [id + 1; 32],
        }],
        outputs: vec![TransactionOutput { amount: 10, receiver: [id + 2; 32] }],
        transaction_id: Some([id; 32]),
        nonce: 3,
        timestamp,
    }
}

fn job(transactions: Vec<Transaction>) -> Block {
    Block {
        transactions,
        timestamp: 1_000,
        nonce: 0,
        meta: BlockMetadata {
            block_pow_difficulty: [0x10; 32],
            tx_pow_difficulty: [0x20; 32],
            previous_block: [3; 32],
            hash: None,
            merkle_tree_root: [4; 32],
            address_inclusion_filter: vec![1, 2, 3],
        },
    }
}

fn mined(mut block: Block, first: u8) -> Block {
    let mut hash = [0u8; 32];
    hash[0] = first;
    block.meta.hash = Some(hash);
    block.nonce = 99;
    block.timestamp = 2_000;
    block
}

fn outside_transaction(t: &Transaction) -> snap_coin::core::transaction::Transaction {
    snap_coin::core::transaction::Transaction {
        inputs: t
            .inputs
            .iter()
            .map(|i| snap_coin::core::transaction::TransactionInput {
                transaction_id: snap_coin::crypto::Hash::new_from_buf(i.transaction_id),
                output_index: i.output_index,
                signature: i.signature.map(|s| snap_coin::crypto::Signature::new_from_buf(&s)),
                output_owner: snap_coin::crypto::keys::Public::new_from_buf(&i.output_owner),
            })
            .collect(),
        outputs: t
            .outputs
            .iter()
            .map(|o| snap_coin::core::transaction::TransactionOutput {
                amount: o.amount,
                receiver: snap_coin::crypto::keys::Public::new_from_buf(&o.receiver),
            })
            .collect(),
        transaction_id: t.transaction_id.map(snap_coin::crypto::Hash::new_from_buf),
        nonce: t.nonce,
        timestamp: t.timestamp,
    }
}

const EASY: [u8; 32] = [0xFF; 32];

#[test]
fn the_job_with_a_good_hash_is_a_share() {
    let job = job(vec![transaction(1, 5_000)]);
    let block = mined(job.clone(), 1);
    assert_eq!(judge_share(&job, &block, &EASY, 5_000), Ok(255));
    assert_eq!(judge_against_job(&job, &block, &EASY), Ok(255));
}

#[test]
fn a_block_without_a_hash_is_no_share() {
    let job = job(vec![transaction(1, 5_000)]);
    assert_eq!(judge_share(&job, &job, &EASY, 5_000), Err(ShareError::BlockIncomplete));
    assert_eq!(judge_against_job(&job, &job, &EASY), Err(ShareError::BlockIncomplete));
    assert_eq!(handle_share(&job, &job, &EASY), Err(ShareError::BlockIncomplete));
}

#[test]
fn the_hash_has_to_meet_the_target() {
    let job = job(vec![]);
    let mut target = [0u8; 32];
    target[0] = 2;
    assert_eq!(judge_share(&job, &mined(job.clone(), 2), &target, 0), Ok(127));
    assert_eq!(
        judge_share(&job, &mined(job.clone(), 3), &target, 0),
        Err(ShareError::PowDifficultyIncorrect)
    );
}

#[test]
fn other_transactions_are_not_the_job() {
    let job = job(vec![transaction(1, 5_000)]);
    for other in [vec![], vec![transaction(2, 5_000)], vec![transaction(1, 5_000), transaction(1, 5_000)]] {
        let mut block = mined(job.clone(), 1);
        block.transactions = other;
        assert_eq!(judge_share(&job, &block, &EASY, 5_000), Err(ShareError::NotTheJob));
    }
}

#[test]
fn other_metadata_is_not_the_job() {
    let job = job(vec![]);
    let mut blocks = vec![mined(job.clone(), 1); 5];
    blocks[0].meta.block_pow_difficulty = [9; 32];
    blocks[1].meta.tx_pow_difficulty = [9; 32];
    blocks[2].meta.previous_block = [9; 32];
    blocks[3].meta.merkle_tree_root = [9; 32];
    blocks[4].meta.address_inclusion_filter = vec![9];
    for block in blocks.iter() {
        assert_eq!(judge_share(&job, block, &EASY, 0), Err(ShareError::NotTheJob));
    }
}

#[test]
fn transactions_expire_after_six_minutes() {
    let t = vec![transaction(1, 1_000), transaction(2, 1_001), transaction(3, 999)];
    // A transaction is dropped once its time, the expiration time of 350 s and a
    // margin of 10 s have passed.
    assert_eq!(prune_expired(&t, 1_359).len(), 3);
    assert_eq!(prune_expired(&t, 1_360).len(), 2);
    let kept = prune_expired(&t, 1_361);
    assert!(same_transactions(&kept, &vec![transaction(2, 1_001)]));
    assert_eq!(prune_expired(&t, u64::MAX).len(), 0);
    assert_eq!(snap_coin::economics::EXPIRATION_TIME, 350);
}

#[test]
fn transactions_from_the_far_future_do_not_expire() {
    let t = vec![transaction(1, u64::MAX)];
    assert_eq!(prune_expired(&t, u64::MAX).len(), 1);
}

#[test]
fn a_job_without_expired_transactions_stays_as_it_is() {
    let job = job(vec![transaction(1, 5_000)]);
    let fresh = refresh_job(&job, 5_100).unwrap();
    assert!(same_transactions(&fresh.transactions, &job.transactions));
    assert!(fresh.meta.same_but_for_hash(&job.meta));
}

#[test]
fn a_job_with_expired_transactions_gets_a_new_root_and_filter() {
    let job = job(vec![transaction(1, 100), transaction(2, 5_000), transaction(4, 5_001)]);
    let fresh = refresh_job(&job, 5_000).unwrap();
    let kept = vec![transaction(2, 5_000), transaction(4, 5_001)];
    assert!(same_transactions(&fresh.transactions, &kept));

    let ids: Vec<snap_coin::crypto::Hash> =
        kept.iter().map(|t| snap_coin::crypto::Hash::new_from_buf(t.transaction_id.unwrap())).collect();
    let root = snap_coin::crypto::merkle_tree::MerkleTree::build(&ids).root_hash();
    assert_eq!(fresh.meta.merkle_tree_root, root);
    assert_ne!(fresh.meta.merkle_tree_root, job.meta.merkle_tree_root);

    let outside: Vec<snap_coin::core::transaction::Transaction> =
        kept.iter().map(outside_transaction).collect();
    let filter = snap_coin::crypto::address_inclusion_filter::AddressInclusionFilter::create_filter(&outside)
        .unwrap();
    assert_eq!(fresh.meta.address_inclusion_filter, bincode::serialize(&filter).unwrap());

    assert_eq!(fresh.meta.previous_block, job.meta.previous_block);
    assert_eq!(fresh.meta.block_pow_difficulty, job.meta.block_pow_difficulty);
    assert_eq!(fresh.meta.tx_pow_difficulty, job.meta.tx_pow_difficulty);
}

#[test]
fn a_job_that_expires_altogether_has_the_zero_root() {
    let job = job(vec![transaction(1, 100)]);
    let fresh = refresh_job(&job, 5_000).unwrap();
    assert_eq!(fresh.transactions.len(), 0);
    assert_eq!(fresh.meta.merkle_tree_root, [0; 32]);
}

#[test]
fn a_refreshed_job_is_what_shares_are_held_against() {
    let job = job(vec![transaction(1, 100), transaction(2, 5_000)]);
    let fresh = refresh_job(&job, 5_000).unwrap();
    assert_eq!(judge_share(&job, &mined(fresh.clone(), 1), &EASY, 5_000), Ok(255));
    assert_eq!(
        judge_share(&job, &mined(job.clone(), 1), &EASY, 5_000),
        Err(ShareError::NotTheJob)
    );
    assert_eq!(judge_share(&job, &mined(job.clone(), 1), &EASY, 400), Ok(255));
}

#[test]
fn a_job_with_a_nameless_transaction_cannot_be_refreshed() {
    let mut nameless = transaction(2, 5_000);
    nameless.transaction_id = None;
    let job = job(vec![transaction(1, 100), nameless]);
    assert!(refresh_job(&job, 400).is_ok());
    assert!(matches!(refresh_job(&job, 5_000), Err(ShareError::JobTransactionIdMissing)));
    assert_eq!(
        judge_share(&job, &mined(job.clone(), 1), &EASY, 5_000),
        Err(ShareError::JobTransactionIdMissing)
    );
}

#[test]
fn shares_are_judged_by_the_clock() {
    let now = chrono::Utc::now().timestamp() as u64;
    let current = job(vec![transaction(1, now)]);
    assert_eq!(handle_share(&current, &mined(current.clone(), 1), &EASY), Ok(255));
    let stale = job(vec![transaction(1, now - 1_000)]);
    assert_eq!(
        handle_share(&stale, &mined(stale.clone(), 1), &EASY),
        Err(ShareError::NotTheJob)
    );
    assert_eq!(
        handle_share(&current, &mined(current.clone(), 1), &[0; 32]),
        Err(ShareError::PowDifficultyIncorrect)
    );
}

#[test]
fn an_easier_target_accepts_as_much() {
    let job = job(vec![]);
    let block = mined(job.clone(), 7);
    for first in 7..=255u8 {
        let mut target = [0u8; 32];
        target[0] = first;
        assert_eq!(judge_share(&job, &block, &target, 0), Ok(36));
    }
}

#[test]
fn blocks_are_held_against_the_network() {
    let block = mined(job(vec![transaction(1, 0)]), 0x10);
    assert_eq!(judge_against_network(&block, &[0x10; 32], &[0x20; 32], &[0x10; 32]), Ok(()));
    assert_eq!(
        judge_against_network(&block, &[0x10; 32], &[0x20; 32], &[0x0F; 32]),
        Err(DifficultyError::BlockPowDifficultyIncorrect)
    );
    assert_eq!(
        judge_against_network(&block, &[0x11; 32], &[0x20; 32], &[0xFF; 32]),
        Err(DifficultyError::DifficultyMismatch)
    );
    assert_eq!(
        judge_against_network(&block, &[0x10; 32], &[0x21; 32], &[0xFF; 32]),
        Err(DifficultyError::DifficultyMismatch)
    );
}

#[test]
fn transactions_ease_the_target_of_the_network() {
    let mut many = Vec::new();
    for _ in 0..100 {
        many.push(transaction(1, 0));
    }
    let eased = snap_coin::core::difficulty::calculate_block_difficulty(&[0x10; 32], 100);
    assert!(eased > [0x10; 32]);
    let mut at = mined(job(many), 0);
    at.meta.hash = Some(eased);
    assert_eq!(validate_difficulties(&at, &[0x10; 32], &[0x20; 32]), Ok(()));
    at.transactions = vec![];
    assert_eq!(
        validate_difficulties(&at, &[0x10; 32], &[0x20; 32]),
        Err(DifficultyError::BlockPowDifficultyIncorrect)
    );
}

#[test]
fn an_unmined_block_for_other_difficulties_is_a_mismatch() {
    let block = job(vec![]);
    assert_eq!(
        validate_difficulties(&block, &[0x99; 32], &[0x20; 32]),
        Err(DifficultyError::DifficultyMismatch)
    );
}
