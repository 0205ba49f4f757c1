use snap_coin_pool::chain::{Block, BlockMetadata};
use snap_coin_pool::events::PoolEvent;
use snap_coin_pool::handle_share::ShareError;
use snap_coin_pool::submission::{Submission, SubmissionError, SubmissionEvent, SubmissionStep};

const MINER: [u8; 32] = [0xCD; 32];

fn block(first: u8) -> Block {
    let mut hash = [0u8; 32];
    hash[0] = first;
    Block {
        transactions: vec![],
        timestamp: 0,
        nonce: 0,
        meta: BlockMetadata {
            block_pow_difficulty: [0x10; 32],
            tx_pow_difficulty: [0x20; 32],
            previous_block: [0; 32],
            hash: Some(hash),
            merkle_tree_root: [0; 32],
            address_inclusion_filter: vec![],
        },
    }
}

fn up_to_award(b: &Block) -> Submission {
    let mut s = Submission::begin();
    let events = [
        SubmissionEvent::Height(42),
        SubmissionEvent::Difficulty { transaction: [0x20; 32], block: [0x10; 32] },
        SubmissionEvent::MempoolRead,
        SubmissionEvent::Judged(Ok(15)),
    ];
    for e in events.iter() {
        assert_eq!(s.handle_new_block(e, b, &MINER, 9, 0).unwrap().len(), 0);
    }
    assert_eq!(s.step, SubmissionStep::Award);
    s
}

#[test]
fn a_submission_begins_with_the_height() {
    assert_eq!(Submission::begin().step, SubmissionStep::Height);
}

#[test]
fn a_share_below_the_network_is_accepted() {
    let b = block(0x11);
    let mut s = up_to_award(&b);
    let told = s.handle_new_block(&SubmissionEvent::Awarded { work_total: 77 }, &b, &MINER, 9, 500).unwrap();
    assert_eq!(s.step, SubmissionStep::Accepted);
    assert_eq!(told.len(), 1);
    match &told[0] {
        PoolEvent::ShareAccepted { miner, height, work_units, work_total, timestamp } => {
            assert_eq!(miner, "cdcdcdcd");
            assert_eq!((*height, *work_units, *work_total, *timestamp), (42, 9, 77, 500));
        }
        _ => panic!("another event"),
    }
}

#[test]
fn a_block_goes_to_the_node_and_is_paid_out() {
    let b = block(0x0F);
    let mut s = up_to_award(&b);
    let told = s.handle_new_block(&SubmissionEvent::Awarded { work_total: 77 }, &b, &MINER, 9, 500).unwrap();
    assert_eq!(s.step, SubmissionStep::Submit);
    assert_eq!(told.len(), 2);
    assert!(matches!(told[0], PoolEvent::ShareAccepted { .. }));
    match &told[1] {
        PoolEvent::BlockFound { height, hash, reward, timestamp } => {
            assert_eq!(*hash, format!("0f{}", "00".repeat(31)));
            assert_eq!((*height, *reward, *timestamp), (42, 10_000_000_000, 500));
        }
        _ => panic!("another event"),
    }
    assert_eq!(s.handle_new_block(&SubmissionEvent::Submitted, &b, &MINER, 9, 501).unwrap().len(), 0);
    assert_eq!(s.step, SubmissionStep::Payout);
    let told = s.handle_new_block(&SubmissionEvent::PaidOut { pool_fee: 200 }, &b, &MINER, 9, 502).unwrap();
    assert_eq!(s.step, SubmissionStep::Accepted);
    assert_eq!(told.len(), 1);
    match &told[0] {
        PoolEvent::PayoutComplete { height, miners_paid, total_reward, pool_fee, timestamp } => {
            assert_eq!((*height, *miners_paid), (42, 0));
            assert_eq!((*total_reward, *pool_fee, *timestamp), (10_000_000_000, 200, 502));
        }
        _ => panic!("another event"),
    }
}

#[test]
fn a_share_stays_accepted_where_the_block_fails() {
    let b = block(0x0F);
    let mut s = up_to_award(&b);
    s.handle_new_block(&SubmissionEvent::Awarded { work_total: 77 }, &b, &MINER, 9, 500).unwrap();
    let mut refused = s;
    assert_eq!(refused.handle_new_block(&SubmissionEvent::NotSubmitted, &b, &MINER, 9, 501).unwrap().len(), 0);
    assert_eq!(refused.step, SubmissionStep::Accepted);
    s.handle_new_block(&SubmissionEvent::Submitted, &b, &MINER, 9, 501).unwrap();
    assert_eq!(s.handle_new_block(&SubmissionEvent::PayoutFailed, &b, &MINER, 9, 502).unwrap().len(), 0);
    assert_eq!(s.step, SubmissionStep::Accepted);
}

#[test]
fn other_difficulties_do_not_reach_the_node() {
    let mut b = block(0x01);
    b.meta.block_pow_difficulty = [0xFF; 32];
    let mut s = up_to_award(&b);
    s.handle_new_block(&SubmissionEvent::Awarded { work_total: 0 }, &b, &MINER, 9, 0).unwrap();
    assert_eq!(s.step, SubmissionStep::Accepted);
}

#[test]
fn a_silent_node_turns_a_submission_down() {
    let b = block(1);
    let before = [
        SubmissionEvent::Height(42),
        SubmissionEvent::Difficulty { transaction: [0x20; 32], block: [0x10; 32] },
    ];
    for n in 0..=before.len() {
        let mut s = Submission::begin();
        for e in before[..n].iter() {
            s.handle_new_block(e, &b, &MINER, 9, 0).unwrap();
        }
        assert_eq!(s.handle_new_block(&SubmissionEvent::NodeFailed, &b, &MINER, 9, 0).unwrap().len(), 0);
        assert_eq!(s.step, SubmissionStep::Rejected(SubmissionError::Node));
    }
}

#[test]
fn a_bad_share_is_turned_down_without_a_word() {
    let b = block(1);
    for e in [
        ShareError::BlockIncomplete,
        ShareError::JobTransactionIdMissing,
        ShareError::AddressInclusionFilter,
        ShareError::NotTheJob,
        ShareError::PowDifficultyIncorrect,
    ] {
        let mut s = Submission::begin();
        s.step = SubmissionStep::Judge;
        let told = s.handle_new_block(&SubmissionEvent::Judged(Err(e)), &b, &MINER, 9, 0).unwrap();
        assert_eq!(told.len(), 0);
        assert_eq!(s.step, SubmissionStep::Rejected(SubmissionError::Share(e)));
        s.handle_new_block(&SubmissionEvent::Awarded { work_total: 1 }, &b, &MINER, 9, 0).unwrap();
        assert_eq!(s.step, SubmissionStep::Rejected(SubmissionError::Share(e)));
    }
}

#[test]
fn what_does_not_belong_to_the_step_changes_nothing() {
    let mut s = Submission::begin();
    let told = s.hear(&SubmissionEvent::PaidOut { pool_fee: 1 }, true, &None, &MINER, 9, 0);
    assert_eq!(told.len(), 0);
    assert_eq!(s.step, SubmissionStep::Height);
}

#[test]
fn a_block_without_a_hash_is_announced_as_unknown() {
    let mut s = up_to_award(&block(1));
    let told = s.hear(&SubmissionEvent::Awarded { work_total: 1 }, true, &None, &MINER, 9, 0);
    assert!(matches!(&told[1], PoolEvent::BlockFound { hash, .. } if hash == "unknown"));
}

#[test]
fn a_share_counts_at_any_height() {
    for (first, step) in [(0x11, SubmissionStep::Accepted), (0x0F, SubmissionStep::Award)] {
        let b = block(first);
        let mut s = up_to_award(&b);
        s.height = 64_000_000;
        let told = s.handle_new_block(&SubmissionEvent::Awarded { work_total: 1 }, &b, &MINER, 9, 0);
        // A block cannot be announced at a height without a reward.
        assert_eq!(told.is_some(), step == SubmissionStep::Accepted);
        assert_eq!(s.step, step);
    }
}

#[test]
fn the_verdict_is_that_on_the_share() {
    let mut job = block(1);
    job.meta.hash = None;
    let mut easy = [0u8; 32];
    easy[0] = 5;
    for (b, target, step) in [
        (block(5), easy, SubmissionStep::Award),
        (
            block(6),
            easy,
            SubmissionStep::Rejected(SubmissionError::Share(ShareError::PowDifficultyIncorrect)),
        ),
        (
            job.clone(),
            easy,
            SubmissionStep::Rejected(SubmissionError::Share(ShareError::BlockIncomplete)),
        ),
    ] {
        let mut s = Submission::begin();
        s.judge(&job, &b, &target);
        assert_eq!(s.step, SubmissionStep::Height);
        s.step = SubmissionStep::Judge;
        s.judge(&job, &b, &target);
        assert_eq!(s.step, step);
    }
}
