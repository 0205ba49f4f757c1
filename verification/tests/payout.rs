use snap_coin_pool::chain::{
    Block, BlockMetadata, Transaction, TransactionInput, TransactionOutput,
};
use snap_coin_pool::handle_block::{
    assemble_payout, build_payout_transaction, distributable, find_pool_reward, first_payout_step,
    next_payout_step, paid_miners, payout_record, plan_payout, PayoutError, PayoutEvent,
    PayoutFailure, PayoutStep, RewardOutput, MAX_OUTPUTS_PER_TX, MAX_POW_RETRIES,
};
use snap_coin_pool::share_store::WorkEntry;

const POOL: [u8; 32] = [7; 32];
const OPERATOR: [u8; 32] = [8; 32];

fn output(receiver: [u8; 32], amount: u64) -> TransactionOutput {
    TransactionOutput { amount, receiver }
}

fn transaction(id: Option<u8>, reward: bool, outputs: Vec<TransactionOutput>) -> Transaction {
    let inputs = if reward {
        vec![]
    } else {
        vec![TransactionInput {
            transaction_id: [1; 32],
            output_index: 0,
            signature: None,
            output_owner: [1; 32],
        }]
    };
    Transaction { inputs, outputs, transaction_id: id.map(|b| [b; 32]), nonce: 0, timestamp: 0 }
}

fn block(transactions: Vec<Transaction>) -> Block {
    Block {
        transactions,
        timestamp: 0,
        nonce: 0,
        meta: BlockMetadata {
            block_pow_difficulty: [0; 32],
            tx_pow_difficulty: [0; 32],
            previous_block: [0; 32],
            hash: None,
            merkle_tree_root: [0; 32],
            address_inclusion_filter: vec![],
        },
    }
}

fn work(list: &[(u8, u128)]) -> Vec<WorkEntry> {
    list.iter().map(|(m, w)| WorkEntry { miner: [*m; 32], work: *w }).collect()
}

#[test]
fn the_reward_is_the_first_output_to_the_pool() {
    let b = block(vec![
        transaction(Some(1), false, vec![output(POOL, 5)]),
        transaction(Some(2), true, vec![output([1; 32], 6)]),
        transaction(Some(3), true, vec![output([1; 32], 7), output(POOL, 8), output(POOL, 9)]),
    ]);
    let r = find_pool_reward(&b, &POOL).unwrap();
    assert_eq!(r.transaction_id, [3; 32]);
    assert_eq!(r.output_index, 1);
    assert_eq!(r.amount, 8);
}

#[test]
fn a_block_that_does_not_pay_the_pool_has_no_reward() {
    let b = block(vec![
        transaction(Some(1), false, vec![output(POOL, 5)]),
        transaction(Some(2), true, vec![output([1; 32], 6)]),
    ]);
    assert!(matches!(find_pool_reward(&b, &POOL), Err(PayoutError::InvalidRewardTransaction)));
    assert!(matches!(find_pool_reward(&block(vec![]), &POOL), Err(PayoutError::InvalidRewardTransaction)));
}

#[test]
fn a_reward_needs_an_id() {
    let b = block(vec![
        transaction(None, false, vec![output(POOL, 5)]),
        transaction(None, true, vec![output(POOL, 6)]),
        transaction(Some(1), true, vec![output(POOL, 7)]),
    ]);
    assert!(matches!(find_pool_reward(&b, &POOL), Err(PayoutError::RewardTransactionIdMissing)));
}

#[test]
fn the_fee_leaves_the_rest_to_the_miners() {
    assert_eq!(distributable(100, 2), 98);
    assert_eq!(distributable(100, 100), 0);
    assert_eq!(distributable(100, 101), 0);
}

#[test]
fn the_operator_gets_fee_and_dust() {
    let plan =
        plan_payout(100, &work(&[(1, 10), (2, 30)]), &vec![24, 73], &OPERATOR).unwrap();
    let paid: Vec<([u8; 32], u64)> = plan.outputs.iter().map(|o| (o.receiver, o.amount)).collect();
    assert_eq!(paid, vec![([2; 32], 73), ([1; 32], 24), (OPERATOR, 3)]);
    assert_eq!(plan.payouts[0].work, 30);
    assert_eq!(plan.payouts[1].amount, 24);
    assert_eq!(plan.deferred.len(), 0);
    assert_eq!(paid_miners(&plan), vec![[2; 32], [1; 32]]);
}

#[test]
fn miners_without_work_or_amount_are_not_paid() {
    let plan =
        plan_payout(100, &work(&[(1, 0), (2, 30), (3, 5)]), &vec![50, 40, 0], &OPERATOR).unwrap();
    let paid: Vec<([u8; 32], u64)> = plan.outputs.iter().map(|o| (o.receiver, o.amount)).collect();
    assert_eq!(paid, vec![([2; 32], 40), (OPERATOR, 60)]);
    assert_eq!(plan.deferred.len(), 0);
}

#[test]
fn without_work_the_operator_gets_everything() {
    let plan = plan_payout(100, &vec![], &vec![], &OPERATOR).unwrap();
    assert_eq!(plan.outputs.len(), 1);
    assert_eq!(plan.outputs[0].amount, 100);
    assert_eq!(plan.outputs[0].receiver, OPERATOR);
}

#[test]
fn a_payout_never_exceeds_the_reward() {
    assert!(matches!(
        plan_payout(0, &vec![], &vec![], &OPERATOR),
        Err(PayoutError::InvalidRewardTransactionAmount)
    ));
    assert!(matches!(
        plan_payout(100, &work(&[(1, 1), (2, 1)]), &vec![60, 41], &OPERATOR),
        Err(PayoutError::InvalidRewardTransactionAmount)
    ));
    assert!(matches!(
        plan_payout(100, &work(&[(1, 1), (2, 1)]), &vec![u64::MAX, u64::MAX], &OPERATOR),
        Err(PayoutError::InvalidRewardTransactionAmount)
    ));
    let exact = plan_payout(100, &work(&[(1, 1), (2, 1)]), &vec![60, 40], &OPERATOR).unwrap();
    assert_eq!(exact.outputs[2].amount, 0);
}

#[test]
fn the_largest_amounts_are_paid_first() {
    let mut miners = Vec::new();
    let mut amounts = Vec::new();
    for i in 0..200u8 {
        miners.push((i, 1u128));
        amounts.push(1_000 + i as u64);
    }
    let reward = 1_000_000;
    let plan = plan_payout(reward, &work(&miners), &amounts, &OPERATOR).unwrap();
    assert_eq!(plan.outputs.len(), MAX_OUTPUTS_PER_TX);
    assert_eq!(plan.payouts.len(), MAX_OUTPUTS_PER_TX - 1);
    assert_eq!(plan.payouts[0].miner, [199; 32]);
    assert_eq!(plan.payouts[126].miner, [73; 32]);
    assert_eq!(plan.deferred.len(), 73);
    assert_eq!(plan.deferred[0], [72; 32]);
    assert_eq!(plan.deferred[72], [0; 32]);
    assert_eq!(plan.outputs[127].receiver, OPERATOR);
    assert_eq!(plan.outputs.iter().map(|o| o.amount).sum::<u64>(), reward);
}

#[test]
fn as_many_miners_as_fit_are_paid_at_once() {
    for n in [127usize, 128] {
        let miners: Vec<(u8, u128)> = (0..n).map(|i| (i as u8, 1)).collect();
        let plan = plan_payout(1_000, &work(&miners), &vec![1; n], &OPERATOR).unwrap();
        assert_eq!(plan.payouts.len(), 127);
        assert_eq!(plan.deferred.len(), n - 127);
    }
}

#[test]
fn equal_amounts_keep_their_order() {
    let plan = plan_payout(
        100,
        &work(&[(1, 1), (2, 1), (3, 1), (4, 1)]),
        &vec![5, 9, 5, 9],
        &OPERATOR,
    )
    .unwrap();
    assert_eq!(paid_miners(&plan), vec![[2; 32], [4; 32], [1; 32], [3; 32]]);
}

#[test]
fn a_record_holds_the_plan() {
    let plan = plan_payout(100, &work(&[(1, 10)]), &vec![90], &OPERATOR).unwrap();
    let r = payout_record(plan.clone(), 5, Some([4; 32]), 6, 100, 2);
    assert_eq!((r.block_height, r.timestamp, r.total_reward, r.pool_fee), (5, 6, 100, 2));
    assert_eq!(r.block_hash, [4; 32]);
    assert_eq!(r.payouts.len(), 1);
    assert_eq!(payout_record(plan, 5, None, 6, 100, 2).block_hash, [0; 32]);
}

#[test]
fn a_payout_transaction_spends_the_reward() {
    let reward = RewardOutput { transaction_id: [3; 32], output_index: 4, amount: 100 };
    let t = assemble_payout(&reward, &POOL, &vec![output([1; 32], 60), output(OPERATOR, 40)], 9, Some([5; 64]));
    assert_eq!(t.inputs.len(), 1);
    assert_eq!(t.inputs[0].transaction_id, [3; 32]);
    assert_eq!(t.inputs[0].output_index, 4);
    assert_eq!(t.inputs[0].output_owner, POOL);
    assert_eq!(t.inputs[0].signature, Some([5; 64]));
    assert_eq!(t.outputs.len(), 2);
    assert_eq!(t.outputs[1].amount, 40);
    assert_eq!((t.transaction_id, t.nonce, t.timestamp), (None, 0, 9));
}

#[test]
fn a_payout_transaction_is_signed_by_the_pool() {
    let private = snap_coin::crypto::keys::Private::new_from_buf(&[9; 32]);
    let public = private.to_public();
    let reward = RewardOutput { transaction_id: [3; 32], output_index: 4, amount: 100 };
    let outputs = vec![output([1; 32], 60), output(OPERATOR, 40)];
    let before = chrono::Utc::now().timestamp() as u64;
    let t = build_payout_transaction(&reward, public.dump_buf(), &[9; 32], &outputs).unwrap();
    assert!(t.timestamp >= before);
    let signature = t.inputs[0].signature.unwrap();
    let outside = snap_coin::core::transaction::Transaction {
        inputs: vec![snap_coin::core::transaction::TransactionInput {
            transaction_id: snap_coin::crypto::Hash::new_from_buf([3; 32]),
            output_index: 4,
            signature: None,
            output_owner: public,
        }],
        outputs: outputs
            .iter()
            .map(|o| snap_coin::core::transaction::TransactionOutput {
                amount: o.amount,
                receiver: snap_coin::crypto::keys::Public::new_from_buf(&o.receiver),
            })
            .collect(),
        transaction_id: None,
        nonce: 0,
        timestamp: t.timestamp,
    };
    let signed = outside.get_input_signing_buf().unwrap();
    let signature = snap_coin::crypto::Signature::new_from_buf(&signature);
    assert!(signature.validate_with_public(&public, &signed).unwrap());
}

#[test]
fn a_payout_goes_through_its_steps() {
    let mut s = first_payout_step();
    assert_eq!(s, PayoutStep::Pow { attempt: 1 });
    s = next_payout_step(s, PayoutEvent::PowFailed);
    assert_eq!(s, PayoutStep::Pow { attempt: 2 });
    s = next_payout_step(s, PayoutEvent::PowFound);
    assert_eq!(s, PayoutStep::Submit);
    s = next_payout_step(s, PayoutEvent::Submitted);
    assert_eq!(s, PayoutStep::Record);
    s = next_payout_step(s, PayoutEvent::Recorded);
    assert_eq!(s, PayoutStep::Done);
    assert_eq!(next_payout_step(s, PayoutEvent::PowFailed), PayoutStep::Done);
}

#[test]
fn a_payout_fails_after_three_attempts() {
    let mut s = first_payout_step();
    for _ in 0..MAX_POW_RETRIES {
        assert!(matches!(s, PayoutStep::Pow { .. }));
        s = next_payout_step(s, PayoutEvent::PowFailed);
    }
    assert_eq!(s, PayoutStep::Failed(PayoutFailure::PowExhausted));
}

#[test]
fn a_payout_fails_where_a_step_fails() {
    let pow = first_payout_step();
    assert_eq!(
        next_payout_step(pow, PayoutEvent::PowTaskLost),
        PayoutStep::Failed(PayoutFailure::PowTaskLost)
    );
    assert_eq!(
        next_payout_step(PayoutStep::Submit, PayoutEvent::NotSubmitted),
        PayoutStep::Failed(PayoutFailure::NotSubmitted)
    );
    assert_eq!(
        next_payout_step(PayoutStep::Record, PayoutEvent::NotRecorded),
        PayoutStep::Failed(PayoutFailure::NotRecorded)
    );
    assert_eq!(next_payout_step(pow, PayoutEvent::Recorded), pow);
}
