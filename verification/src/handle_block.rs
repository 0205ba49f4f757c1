//! Distributing a block reward among the miners whose work found the block.

use vstd::prelude::*;

use crate::bytes::same_bytes;
use crate::chain::{
    opt_bytes, outputs_view, transactions_view, Block, InputView, OutputView, Transaction,
    TransactionInput, TransactionOutput, TransactionView,
};
use crate::share_store::{
    distinct_miners, keys_of, work_pairs, MinerPayout, PayoutBatch, PayoutRecord, StoreState,
    WorkEntry,
};
use crate::snapcoin::{ids_view, payout_signature, sign_payout};
use crate::table::{copy_all, lemma_distinct_prefix};

verus! {

/// How many outputs a transaction can have. One is the operator's.
pub const MAX_OUTPUTS_PER_TX: usize = 128;

/// How often the proof of work of a payout transaction is tried.
pub const MAX_POW_RETRIES: u32 = 3;

/// Why a block's reward cannot be distributed.
#[derive(Clone, Copy, PartialEq, Eq, Debug, Structural)]
pub enum PayoutError {
    /// A reward transaction in the block has no id to be spent by.
    RewardTransactionIdMissing,
    /// No reward transaction in the block pays the pool.
    InvalidRewardTransaction,
    /// The pool is paid nothing, or the payouts come to more than the reward.
    InvalidRewardTransactionAmount,
}

/// The output of a block that pays the pool.
#[derive(Clone, Copy, Debug)]
pub struct RewardOutput {
    pub transaction_id: [u8; 32],
    pub output_index: usize,
    pub amount: u64,
}

/// No output pays `key`.
pub open spec fn pays_nothing_to(outputs: Seq<OutputView>, key: Seq<u8>) -> bool {
    forall|i: int| 0 <= i < outputs.len() ==> (#[trigger] outputs[i]).receiver != key
}

/// The transaction is no reward, or a reward with an id that does not pay the
/// pool.
pub open spec fn is_passed_over(t: TransactionView, pool: Seq<u8>) -> bool {
    t.inputs.len() > 0 || (t.transaction_id is Some && pays_nothing_to(t.outputs, pool))
}

/// All transactions before the one at `t` are passed over.
pub open spec fn all_passed_over(s: Seq<TransactionView>, t: int, pool: Seq<u8>) -> bool {
    forall|u: int| 0 <= u < t ==> is_passed_over(#[trigger] s[u], pool)
}

/// Output `i` of the transaction at `t` is the first reward that pays the pool.
pub open spec fn is_pool_reward(s: Seq<TransactionView>, pool: Seq<u8>, t: int, i: int) -> bool {
    &&& 0 <= t < s.len()
    &&& all_passed_over(s, t, pool)
    &&& s[t].inputs.len() == 0
    &&& s[t].transaction_id is Some
    &&& 0 <= i < s[t].outputs.len()
    &&& s[t].outputs[i].receiver == pool
    &&& pays_nothing_to(s[t].outputs.take(i), pool)
}

/// The transaction at `t` is a reward without an id, and none before it pays the
/// pool.
pub open spec fn is_nameless_reward(s: Seq<TransactionView>, pool: Seq<u8>, t: int) -> bool {
    &&& 0 <= t < s.len()
    &&& all_passed_over(s, t, pool)
    &&& s[t].inputs.len() == 0
    &&& s[t].transaction_id is None
}

/// `r` is the first reward output of the block that pays the pool, or says why
/// there is none to be found.
pub open spec fn finds_pool_reward(
    s: Seq<TransactionView>,
    pool: Seq<u8>,
    r: Result<RewardOutput, PayoutError>,
) -> bool {
    match r {
        Ok(o) => exists|t: int, i: int| #[trigger]
            is_pool_reward(s, pool, t, i) && s[t].transaction_id == Some(o.transaction_id@)
                && o.output_index == i && o.amount == s[t].outputs[i].amount,
        Err(PayoutError::RewardTransactionIdMissing) => exists|t: int| #[trigger]
            is_nameless_reward(s, pool, t),
        Err(PayoutError::InvalidRewardTransaction) => all_passed_over(s, s.len() as int, pool),
        Err(PayoutError::InvalidRewardTransactionAmount) => false,
    }
}

/// The position of the first output that pays `key`, or the number of outputs.
fn first_output_to(outputs: &Vec<TransactionOutput>, key: &[u8; 32]) -> (i: usize)
    ensures
        i <= outputs@.len(),
        pays_nothing_to(outputs_view(outputs@).take(i as int), key@),
        i < outputs@.len() ==> outputs_view(outputs@)[i as int].receiver == key@,
{
    let mut i: usize = 0;
    while i < outputs.len()
        invariant
            i <= outputs@.len(),
            pays_nothing_to(outputs_view(outputs@).take(i as int), key@),
        decreases outputs.len() - i,
    {
        if same_bytes(&outputs[i].receiver, key) {
            return i;
        }
        i = i + 1;
    }
    i
}

/// The first output of a reward transaction in the block that pays the pool.
pub fn find_pool_reward(block: &Block, pool_public: &[u8; 32]) -> (r: Result<
    RewardOutput,
    PayoutError,
>)
    ensures
        finds_pool_reward(block@.transactions, pool_public@, r),
{
    let ghost s = block@.transactions;
    let mut t: usize = 0;
    while t < block.transactions.len()
        invariant
            t <= block.transactions@.len(),
            s == transactions_view(block.transactions@),
            all_passed_over(s, t as int, pool_public@),
        decreases block.transactions.len() - t,
    {
        let tx = &block.transactions[t];
        assert(s[t as int] == tx@);
        if tx.inputs.len() == 0 {
            let id = match tx.transaction_id {
                Some(id) => id,
                None => {
                    assert(is_nameless_reward(s, pool_public@, t as int));
                    return Err(PayoutError::RewardTransactionIdMissing);
                },
            };
            let i = first_output_to(&tx.outputs, pool_public);
            if i < tx.outputs.len() {
                assert(is_pool_reward(s, pool_public@, t as int, i as int));
                return Ok(
                    RewardOutput { transaction_id: id, output_index: i, amount: tx.outputs[i].amount },
                );
            }
            assert(outputs_view(tx.outputs@).take(i as int) =~= outputs_view(tx.outputs@));
        }
        t = t + 1;
    }
    Err(PayoutError::InvalidRewardTransaction)
}

/// What is left of a reward for the miners once the operator's fee is taken.
pub fn distributable(reward: u64, operator_fee: u64) -> (r: u64)
    ensures
        r == (if operator_fee > reward {
            0
        } else {
            reward - operator_fee
        }),
{
    reward.saturating_sub(operator_fee)
}

/// The miners with work who are due something, in the order of `work`.
pub open spec fn due(work: Seq<WorkEntry>, amounts: Seq<u64>) -> Seq<MinerPayout>
    decreases work.len(),
{
    if work.len() == 0 {
        Seq::empty()
    } else {
        let rest = due(work.drop_last(), amounts.drop_last());
        let w = work.last();
        if w.work > 0 && amounts.last() > 0 {
            rest.push(MinerPayout { miner: w.miner, work: w.work, amount: amounts.last() })
        } else {
            rest
        }
    }
}

/// `x` put behind everything in `s` that is as large.
pub open spec fn insert_by_amount(s: Seq<MinerPayout>, x: MinerPayout) -> Seq<MinerPayout>
    decreases s.len(),
{
    if s.len() == 0 || s.last().amount >= x.amount {
        s.push(x)
    } else {
        insert_by_amount(s.drop_last(), x).push(s.last())
    }
}

/// `s` with the largest amounts first; equal amounts keep their order.
pub open spec fn by_amount(s: Seq<MinerPayout>) -> Seq<MinerPayout>
    decreases s.len(),
{
    if s.len() == 0 {
        s
    } else {
        insert_by_amount(by_amount(s.drop_last()), s.last())
    }
}

/// The sum of the amounts.
pub open spec fn amount_sum(s: Seq<MinerPayout>) -> nat
    decreases s.len(),
{
    if s.len() == 0 {
        0
    } else {
        amount_sum(s.drop_last()) + s.last().amount as nat
    }
}

/// The amounts fall.
pub open spec fn largest_first(s: Seq<MinerPayout>) -> bool {
    forall|i: int, j: int|
        0 <= i < j < s.len() ==> (#[trigger] s[i]).amount >= (#[trigger] s[j]).amount
}

/// No amount is below `b`.
pub open spec fn at_least(s: Seq<MinerPayout>, b: u64) -> bool {
    forall|i: int| 0 <= i < s.len() ==> (#[trigger] s[i]).amount >= b
}

/// How many of `n` miners one transaction can pay.
pub open spec fn payable(n: nat) -> nat {
    if n < MAX_OUTPUTS_PER_TX {
        n
    } else {
        (MAX_OUTPUTS_PER_TX - 1) as nat
    }
}

/// The miners that are paid from this reward.
pub open spec fn paid_now(work: Seq<WorkEntry>, amounts: Seq<u64>) -> Seq<MinerPayout> {
    let sorted = by_amount(due(work, amounts));
    sorted.take(payable(sorted.len()) as int)
}

/// The miners that have to wait for the next reward.
pub open spec fn paid_later(work: Seq<WorkEntry>, amounts: Seq<u64>) -> Seq<MinerPayout> {
    let sorted = by_amount(due(work, amounts));
    sorted.skip(payable(sorted.len()) as int)
}

proof fn lemma_insert_position(s: Seq<MinerPayout>, x: MinerPayout, i: int)
    requires
        0 <= i <= s.len(),
        i > 0 ==> s[i - 1].amount >= x.amount,
        forall|j: int| i <= j < s.len() ==> (#[trigger] s[j]).amount < x.amount,
    ensures
        insert_by_amount(s, x) == s.insert(i, x),
    decreases s.len(),
{
    if s.len() == 0 || s.last().amount >= x.amount {
        assert(i == s.len());
        assert(s.insert(i, x) =~= s.push(x));
    } else {
        lemma_insert_position(s.drop_last(), x, i);
        assert(s.insert(i, x) =~= s.drop_last().insert(i, x).push(s.last()));
    }
}

proof fn lemma_insert_keeps(s: Seq<MinerPayout>, x: MinerPayout)
    ensures
        insert_by_amount(s, x).to_multiset() == s.to_multiset().insert(x),
        insert_by_amount(s, x).len() == s.len() + 1,
        largest_first(s) ==> largest_first(insert_by_amount(s, x)),
        s.len() > 0 && s.last().amount < x.amount ==> insert_by_amount(s, x).last() == s.last(),
        forall|b: u64|
            at_least(s, b) && x.amount >= b ==> #[trigger] at_least(insert_by_amount(s, x), b),
    decreases s.len(),
{
    broadcast use vstd::seq_lib::group_to_multiset_ensures;

    if s.len() == 0 || s.last().amount >= x.amount {
    } else {
        let t = s.drop_last();
        lemma_insert_keeps(t, x);
        let r = insert_by_amount(t, x);
        assert(s =~= t.push(s.last()));
        assert(s.to_multiset() =~= t.to_multiset().insert(s.last()));
        assert(r.push(s.last()).to_multiset() =~= s.to_multiset().insert(x));
        assert forall|b: u64| at_least(s, b) && x.amount >= b implies #[trigger] at_least(
            insert_by_amount(s, x),
            b,
        ) by {
            assert forall|i: int| 0 <= i < t.len() implies (#[trigger] t[i]).amount >= b by {
                assert(s[i].amount >= b);
            }
            assert(at_least(t, b));
            assert(at_least(r, b));
            assert(s[s.len() - 1].amount >= b);
        }
        if largest_first(s) {
            assert forall|i: int, j: int| 0 <= i < j < t.len() implies (#[trigger] t[i]).amount >= (
            #[trigger] t[j]).amount by {
                assert(s[i].amount >= s[j].amount);
            }
            let b = s.last().amount;
            assert forall|i: int| 0 <= i < t.len() implies (#[trigger] t[i]).amount >= b by {
                assert(s[i].amount >= s[s.len() - 1].amount);
            }
            assert(at_least(t, b));
            assert(at_least(r, b));
        }
    }
}

/// Sorting by amount moves entries and does nothing else.
pub proof fn law_sorting_keeps_every_payout(s: Seq<MinerPayout>)
    ensures
        by_amount(s).to_multiset() == s.to_multiset(),
        by_amount(s).len() == s.len(),
        largest_first(by_amount(s)),
    decreases s.len(),
{
    broadcast use vstd::seq_lib::group_to_multiset_ensures;

    if s.len() > 0 {
        let t = s.drop_last();
        law_sorting_keeps_every_payout(t);
        lemma_insert_keeps(by_amount(t), s.last());
        assert(s =~= t.push(s.last()));
    }
}

/// A distribution of a reward.
#[derive(Clone, Debug)]
pub struct PayoutPlan {
    /// What the payout transaction pays: the miners, then the operator.
    pub outputs: Vec<TransactionOutput>,
    /// The miners that are paid.
    pub payouts: Vec<MinerPayout>,
    /// The miners that keep their work for the next reward.
    pub deferred: Vec<[u8; 32]>,
}

/// The output that pays a miner.
pub open spec fn output_to(p: MinerPayout) -> OutputView {
    OutputView { amount: p.amount, receiver: p.miner@ }
}

/// The outputs that pay the miners and leave the rest to the operator.
pub open spec fn payout_outputs(paid: Seq<MinerPayout>, reward: u64, operator: Seq<u8>) -> Seq<
    OutputView,
> {
    paid.map_values(|p: MinerPayout| output_to(p)).push(
        OutputView { amount: (reward - amount_sum(paid)) as u64, receiver: operator },
    )
}

/// The keys of the miners.
pub open spec fn miners_of(s: Seq<MinerPayout>) -> Seq<[u8; 32]> {
    s.map_values(|p: MinerPayout| p.miner)
}

/// The sum of the amounts of the outputs.
pub open spec fn output_sum(s: Seq<OutputView>) -> nat
    decreases s.len(),
{
    if s.len() == 0 {
        0
    } else {
        output_sum(s.drop_last()) + s.last().amount as nat
    }
}

/// The miners with work who are due something.
fn miners_due(work: &Vec<WorkEntry>, amounts: &Vec<u64>) -> (r: Vec<MinerPayout>)
    requires
        work@.len() == amounts@.len(),
    ensures
        r@ == due(work@, amounts@),
{
    let mut r: Vec<MinerPayout> = Vec::new();
    let mut i: usize = 0;
    while i < work.len()
        invariant
            i <= work@.len(),
            work@.len() == amounts@.len(),
            r@ == due(work@.take(i as int), amounts@.take(i as int)),
        decreases work.len() - i,
    {
        assert(work@.take(i + 1).drop_last() =~= work@.take(i as int));
        assert(amounts@.take(i + 1).drop_last() =~= amounts@.take(i as int));
        if work[i].work > 0 && amounts[i] > 0 {
            r.push(MinerPayout { miner: work[i].miner, work: work[i].work, amount: amounts[i] });
        }
        i = i + 1;
    }
    assert(work@.take(i as int) =~= work@);
    assert(amounts@.take(i as int) =~= amounts@);
    r
}

/// Sorts by amount, the largest first; equal amounts keep their order.
fn sort_by_amount(s: &Vec<MinerPayout>) -> (r: Vec<MinerPayout>)
    ensures
        r@ == by_amount(s@),
{
    let mut r: Vec<MinerPayout> = Vec::new();
    let mut n: usize = 0;
    while n < s.len()
        invariant
            n <= s@.len(),
            r@ == by_amount(s@.take(n as int)),
        decreases s.len() - n,
    {
        let x = s[n];
        let mut i: usize = r.len();
        while i > 0 && r[i - 1].amount < x.amount
            invariant
                i <= r@.len(),
                forall|j: int| i <= j < r@.len() ==> (#[trigger] r@[j]).amount < x.amount,
            decreases i,
        {
            i = i - 1;
        }
        proof {
            lemma_insert_position(r@, x, i as int);
            assert(s@.take(n + 1).drop_last() =~= s@.take(n as int));
        }
        r.insert(i, x);
        n = n + 1;
    }
    assert(s@.take(n as int) =~= s@);
    r
}

proof fn lemma_output_sum(paid: Seq<MinerPayout>)
    ensures
        output_sum(paid.map_values(|p: MinerPayout| output_to(p))) == amount_sum(paid),
    decreases paid.len(),
{
    let outs = paid.map_values(|p: MinerPayout| output_to(p));
    if paid.len() > 0 {
        lemma_output_sum(paid.drop_last());
        assert(outs.drop_last() =~= paid.drop_last().map_values(|p: MinerPayout| output_to(p)));
    }
}

/// Distributes a reward. `amounts` holds what each miner of `work` is due in
/// proportion to its work; a miner without work is due nothing. The largest
/// amounts are paid now, as many as one transaction can pay; the operator gets
/// what is left of the reward.
pub fn plan_payout(
    reward: u64,
    work: &Vec<WorkEntry>,
    amounts: &Vec<u64>,
    operator: &[u8; 32],
) -> (r: Result<PayoutPlan, PayoutError>)
    requires
        work@.len() == amounts@.len(),
    ensures
        r is Ok <==> reward > 0 && amount_sum(paid_now(work@, amounts@)) <= reward,
        r is Err ==> r->Err_0 == PayoutError::InvalidRewardTransactionAmount,
        r is Ok ==> {
            &&& r->Ok_0.payouts@ == paid_now(work@, amounts@)
            &&& r->Ok_0.deferred@ == miners_of(paid_later(work@, amounts@))
            &&& outputs_view(r->Ok_0.outputs@) == payout_outputs(
                paid_now(work@, amounts@),
                reward,
                operator@,
            )
        },
{
    if reward == 0 {
        return Err(PayoutError::InvalidRewardTransactionAmount);
    }
    let sorted = sort_by_amount(&miners_due(work, amounts));
    let count: usize = if sorted.len() < MAX_OUTPUTS_PER_TX {
        sorted.len()
    } else {
        MAX_OUTPUTS_PER_TX - 1
    };
    let mut payouts: Vec<MinerPayout> = Vec::new();
    let mut outputs: Vec<TransactionOutput> = Vec::new();
    let mut left: u64 = reward;
    let mut i: usize = 0;
    let ghost paid = paid_now(work@, amounts@);
    while i < count
        invariant
            i <= count <= sorted@.len(),
            paid == paid_now(work@, amounts@),
            paid == sorted@.take(count as int),
            payouts@ == paid.take(i as int),
            outputs@.len() == i,
            forall|j: int| 0 <= j < i ==> (#[trigger] outputs@[j])@ == output_to(paid[j]),
            left + amount_sum(paid.take(i as int)) == reward,
        decreases count - i,
    {
        let p = sorted[i];
        proof {
            assert(paid.take(i + 1).drop_last() =~= paid.take(i as int));
            assert(paid.take(i + 1).last() == p);
            lemma_amount_sum_take(paid, i + 1);
        }
        if p.amount > left {
            return Err(PayoutError::InvalidRewardTransactionAmount);
        }
        left = left - p.amount;
        payouts.push(p);
        outputs.push(TransactionOutput { amount: p.amount, receiver: p.miner });
        i = i + 1;
        assert(payouts@ =~= paid.take(i as int));
    }
    assert(paid.take(i as int) =~= paid);
    outputs.push(TransactionOutput { amount: left, receiver: *operator });
    assert(outputs_view(outputs@) =~= payout_outputs(paid, reward, operator@));
    let mut deferred: Vec<[u8; 32]> = Vec::new();
    let ghost later = paid_later(work@, amounts@);
    while i < sorted.len()
        invariant
            count <= i <= sorted@.len(),
            later == sorted@.skip(count as int),
            deferred@ == miners_of(later.take(i - count)),
        decreases sorted.len() - i,
    {
        deferred.push(sorted[i].miner);
        i = i + 1;
        assert(deferred@ =~= miners_of(later.take(i - count)));
    }
    assert(later.take(i - count) =~= later);
    Ok(PayoutPlan { outputs, payouts, deferred })
}

/// The first payouts come to no more than all of them.
proof fn lemma_amount_sum_take(s: Seq<MinerPayout>, i: int)
    requires
        0 <= i <= s.len(),
    ensures
        amount_sum(s.take(i)) <= amount_sum(s),
    decreases s.len() - i,
{
    if i < s.len() {
        lemma_amount_sum_take(s, i + 1);
        assert(s.take(i + 1).drop_last() =~= s.take(i));
    } else {
        assert(s.take(i) =~= s);
    }
}

/// The miners that a plan pays.
pub fn paid_miners(plan: &PayoutPlan) -> (r: Vec<[u8; 32]>)
    ensures
        r@ == miners_of(plan.payouts@),
{
    let mut r: Vec<[u8; 32]> = Vec::new();
    let mut i: usize = 0;
    while i < plan.payouts.len()
        invariant
            i <= plan.payouts@.len(),
            r@ == miners_of(plan.payouts@.take(i as int)),
        decreases plan.payouts.len() - i,
    {
        r.push(plan.payouts[i].miner);
        i = i + 1;
        assert(r@ =~= miners_of(plan.payouts@.take(i as int)));
    }
    assert(plan.payouts@.take(i as int) =~= plan.payouts@);
    r
}

/// The record of a plan that was carried out. A block without a hash is recorded
/// with a hash of zeros.
pub fn payout_record(
    plan: PayoutPlan,
    block_height: u64,
    block_hash: Option<[u8; 32]>,
    timestamp: u64,
    total_reward: u64,
    pool_fee: u64,
) -> (r: PayoutRecord)
    ensures
        r.block_height == block_height,
        r.block_hash@ == (match block_hash {
            Some(hash) => hash@,
            None => Seq::new(32, |i: int| 0u8),
        }),
        r.timestamp == timestamp,
        r.total_reward == total_reward,
        r.pool_fee == pool_fee,
        r.payouts == plan.payouts,
        r.deferred == plan.deferred,
{
    let hash = match block_hash {
        Some(hash) => hash,
        None => [0u8; 32],
    };
    assert(block_hash is None ==> hash@ =~= Seq::new(32, |i: int| 0u8));
    PayoutRecord {
        block_height,
        block_hash: hash,
        timestamp,
        total_reward,
        pool_fee,
        payouts: plan.payouts,
        deferred: plan.deferred,
    }
}

/// The transaction that spends `reward` on the planned outputs, still without
/// its proof of work.
pub open spec fn payout_transaction(
    reward: RewardOutput,
    pool_public: Seq<u8>,
    pool_private: Seq<u8>,
    outputs: Seq<OutputView>,
    timestamp: u64,
) -> TransactionView {
    TransactionView {
        inputs: seq![
            InputView {
                transaction_id: reward.transaction_id@,
                output_index: reward.output_index,
                signature: Some(
                    payout_signature(
                        reward.transaction_id@,
                        reward.output_index as nat,
                        pool_public,
                        outputs,
                        pool_private,
                        timestamp,
                    ),
                ),
                output_owner: pool_public,
            },
        ],
        outputs,
        transaction_id: None,
        nonce: 0,
        timestamp,
    }
}

/// The payout transaction around a signature that was made at `timestamp`.
pub fn assemble_payout(
    reward: &RewardOutput,
    pool_public: &[u8; 32],
    outputs: &Vec<TransactionOutput>,
    timestamp: u64,
    signature: Option<[u8; 64]>,
) -> (t: Transaction)
    ensures
        t@ == (TransactionView {
            inputs: seq![
                InputView {
                    transaction_id: reward.transaction_id@,
                    output_index: reward.output_index,
                    signature: opt_bytes(signature),
                    output_owner: pool_public@,
                },
            ],
            outputs: outputs_view(outputs@),
            transaction_id: None,
            nonce: 0,
            timestamp,
        }),
{
    let mut inputs: Vec<TransactionInput> = Vec::new();
    inputs.push(
        TransactionInput {
            transaction_id: reward.transaction_id,
            output_index: reward.output_index,
            signature,
            output_owner: *pool_public,
        },
    );
    let t = Transaction {
        inputs,
        outputs: copy_all(outputs),
        transaction_id: None,
        nonce: 0,
        timestamp,
    };
    assert(crate::chain::inputs_view(inputs@) =~= seq![inputs@[0]@]);
    t
}

/// Builds and signs the transaction that carries out a plan, at the time of the
/// clock.
pub fn build_payout_transaction(
    reward: &RewardOutput,
    pool_public: &[u8; 32],
    pool_private: &[u8; 32],
    outputs: &Vec<TransactionOutput>,
) -> (r: Result<Transaction, String>)
    ensures
        r is Ok,
        r->Ok_0@ == payout_transaction(
            *reward,
            pool_public@,
            pool_private@,
            outputs_view(outputs@),
            r->Ok_0.timestamp,
        ),
{
    match sign_payout(
        &reward.transaction_id,
        reward.output_index,
        pool_public,
        outputs,
        pool_private,
    ) {
        Ok((timestamp, signature)) => Ok(
            assemble_payout(reward, pool_public, outputs, timestamp, signature),
        ),
        Err(e) => Err(e),
    }
}

/// A payout spends the reward to the last unit.
pub proof fn law_payout_spends_the_reward_exactly(
    work: Seq<WorkEntry>,
    amounts: Seq<u64>,
    reward: u64,
    operator: Seq<u8>,
)
    requires
        amount_sum(paid_now(work, amounts)) <= reward,
    ensures
        output_sum(payout_outputs(paid_now(work, amounts), reward, operator)) == reward,
{
    let paid = paid_now(work, amounts);
    lemma_output_sum(paid);
    let outs = payout_outputs(paid, reward, operator);
    assert(outs.drop_last() =~= paid.map_values(|p: MinerPayout| output_to(p)));
}

/// A payout fits into one transaction, its last output is the operator's, and
/// every other output pays a miner what it is due.
pub proof fn law_payout_fits_one_transaction(
    work: Seq<WorkEntry>,
    amounts: Seq<u64>,
    reward: u64,
    operator: Seq<u8>,
)
    requires
        amount_sum(paid_now(work, amounts)) <= reward,
    ensures
        1 <= payout_outputs(paid_now(work, amounts), reward, operator).len() <= MAX_OUTPUTS_PER_TX,
        payout_outputs(paid_now(work, amounts), reward, operator).last().receiver == operator,
        forall|i: int|
            0 <= i < paid_now(work, amounts).len() ==> #[trigger] payout_outputs(
                paid_now(work, amounts),
                reward,
                operator,
            )[i] == output_to(paid_now(work, amounts)[i]),
{
}

/// The miners whose work a payout clears are those that its transaction pays:
/// the receivers of all its outputs but the operator's, which is the last.
pub proof fn law_the_cleared_are_the_paid(
    work: Seq<WorkEntry>,
    amounts: Seq<u64>,
    reward: u64,
    operator: Seq<u8>,
    batch: PayoutBatch,
    miner: Seq<u8>,
)
    requires
        batch.cleared@ == miners_of(paid_now(work, amounts)),
    ensures
        ({
            let outs = payout_outputs(paid_now(work, amounts), reward, operator);
            &&& outs.drop_last().map_values(|o: OutputView| o.receiver) == ids_view(batch.cleared@)
            &&& keys_of(batch.cleared@).contains(miner) <==> exists|i: int|
                0 <= i < outs.len() - 1 && (#[trigger] outs[i]).receiver == miner
        }),
{
    let paid = paid_now(work, amounts);
    let outs = payout_outputs(paid, reward, operator);
    assert(outs.drop_last().map_values(|o: OutputView| o.receiver) =~= ids_view(batch.cleared@));
    if keys_of(batch.cleared@).contains(miner) {
        let i = choose|i: int|
            0 <= i < batch.cleared@.len() && (#[trigger] batch.cleared@[i])@ == miner;
        assert(outs[i].receiver == miner);
    }
    if exists|i: int| 0 <= i < outs.len() - 1 && (#[trigger] outs[i]).receiver == miner {
        let i = choose|i: int| 0 <= i < outs.len() - 1 && (#[trigger] outs[i]).receiver == miner;
        assert(batch.cleared@[i]@ == miner);
    }
}

/// Every miner that is due something is either paid or deferred, and only once
/// where it is listed once; no deferred miner is due more than a paid one; and
/// nobody is deferred unless the transaction is full.
pub proof fn law_largest_amounts_are_paid_first(work: Seq<WorkEntry>, amounts: Seq<u64>)
    ensures
        work.len() == amounts.len() && distinct_miners(work) ==> distinct_payees(
            paid_now(work, amounts) + paid_later(work, amounts),
        ),
        paid_now(work, amounts).to_multiset().add(paid_later(work, amounts).to_multiset()) == due(
            work,
            amounts,
        ).to_multiset(),
        forall|i: int, j: int|
            0 <= i < paid_now(work, amounts).len() && 0 <= j < paid_later(work, amounts).len()
                ==> (#[trigger] paid_now(work, amounts)[i]).amount >= (#[trigger] paid_later(
                work,
                amounts,
            )[j]).amount,
        paid_later(work, amounts).len() > 0 ==> paid_now(work, amounts).len() == MAX_OUTPUTS_PER_TX
            - 1,
{
    let d = due(work, amounts);
    let sorted = by_amount(d);
    law_sorting_keeps_every_payout(d);
    let n = payable(sorted.len()) as int;
    assert(sorted =~= sorted.take(n) + sorted.skip(n));
    vstd::seq_lib::lemma_multiset_commutative(sorted.take(n), sorted.skip(n));
    if work.len() == amounts.len() && distinct_miners(work) {
        lemma_due_distinct(work, amounts);
        lemma_by_amount_distinct(d);
    }
}

/// No miner occurs twice.
pub open spec fn distinct_payees(s: Seq<MinerPayout>) -> bool {
    forall|i: int, j: int|
        0 <= i < j < s.len() ==> (#[trigger] s[i]).miner@ != (#[trigger] s[j]).miner@
}

/// The miner does not occur.
spec fn is_absent(s: Seq<MinerPayout>, miner: Seq<u8>) -> bool {
    forall|i: int| 0 <= i < s.len() ==> (#[trigger] s[i]).miner@ != miner
}

proof fn lemma_insert_distinct(s: Seq<MinerPayout>, x: MinerPayout)
    requires
        distinct_payees(s),
        is_absent(s, x.miner@),
    ensures
        distinct_payees(insert_by_amount(s, x)),
        forall|m: Seq<u8>|
            is_absent(s, m) && m != x.miner@ ==> #[trigger] is_absent(insert_by_amount(s, x), m),
    decreases s.len(),
{
    if s.len() > 0 && s.last().amount < x.amount {
        let t = s.drop_last();
        let last = s.last().miner@;
        assert forall|i: int| 0 <= i < t.len() implies (#[trigger] t[i]).miner@ != last
            && t[i].miner@ != x.miner@ by {
            assert(s[i].miner@ != s[s.len() - 1].miner@);
        }
        assert forall|i: int, j: int| 0 <= i < j < t.len() implies (#[trigger] t[i]).miner@ != (
        #[trigger] t[j]).miner@ by {
            assert(s[i].miner@ != s[j].miner@);
        }
        lemma_insert_distinct(t, x);
        assert(is_absent(t, last));
        assert(s[s.len() - 1].miner@ != x.miner@);
        assert(is_absent(insert_by_amount(t, x), last));
        assert forall|m: Seq<u8>| is_absent(s, m) && m != x.miner@ implies #[trigger] is_absent(
            insert_by_amount(s, x),
            m,
        ) by {
            assert forall|i: int| 0 <= i < t.len() implies (#[trigger] t[i]).miner@ != m by {
                assert(s[i].miner@ != m);
            }
            assert(is_absent(t, m));
            assert(is_absent(insert_by_amount(t, x), m));
            assert(s[s.len() - 1].miner@ != m);
        }
    }
}

proof fn lemma_by_amount_distinct(s: Seq<MinerPayout>)
    requires
        distinct_payees(s),
    ensures
        distinct_payees(by_amount(s)),
        forall|m: Seq<u8>| is_absent(s, m) ==> #[trigger] is_absent(by_amount(s), m),
    decreases s.len(),
{
    if s.len() > 0 {
        let t = s.drop_last();
        assert forall|i: int, j: int| 0 <= i < j < t.len() implies (#[trigger] t[i]).miner@ != (
        #[trigger] t[j]).miner@ by {
            assert(s[i].miner@ != s[j].miner@);
        }
        lemma_by_amount_distinct(t);
        let x = s.last();
        assert forall|i: int| 0 <= i < t.len() implies (#[trigger] t[i]).miner@ != x.miner@ by {
            assert(s[i].miner@ != s[s.len() - 1].miner@);
        }
        assert(is_absent(t, x.miner@));
        assert(is_absent(by_amount(t), x.miner@));
        lemma_insert_distinct(by_amount(t), x);
        assert forall|m: Seq<u8>| is_absent(s, m) implies #[trigger] is_absent(by_amount(s), m) by {
            assert forall|i: int| 0 <= i < t.len() implies (#[trigger] t[i]).miner@ != m by {
                assert(s[i].miner@ != m);
            }
            assert(is_absent(t, m));
            assert(is_absent(by_amount(t), m));
            assert(s[s.len() - 1].miner@ != m);
        }
    }
}

proof fn lemma_due_distinct(work: Seq<WorkEntry>, amounts: Seq<u64>)
    requires
        work.len() == amounts.len(),
        distinct_miners(work),
    ensures
        distinct_payees(due(work, amounts)),
        forall|m: Seq<u8>|
            (forall|i: int| 0 <= i < work.len() ==> (#[trigger] work[i]).miner@ != m)
                ==> #[trigger] is_absent(due(work, amounts), m),
    decreases work.len(),
{
    if work.len() > 0 {
        let w = work.drop_last();
        let a = amounts.drop_last();
        assert(work_pairs(w) =~= work_pairs(work).take(w.len() as int));
        lemma_distinct_prefix(work_pairs(work), w.len() as int);
        lemma_due_distinct(w, a);
        let last = work.last().miner@;
        assert forall|i: int| 0 <= i < w.len() implies (#[trigger] w[i]).miner@ != last by {
            assert(work_pairs(work)[i].0 != work_pairs(work)[work.len() - 1].0);
        }
        assert(is_absent(due(w, a), last));
        assert forall|m: Seq<u8>|
            (forall|i: int| 0 <= i < work.len() ==> (#[trigger] work[i]).miner@ != m)
            implies #[trigger] is_absent(due(work, amounts), m) by {
            assert forall|i: int| 0 <= i < w.len() implies (#[trigger] w[i]).miner@ != m by {
                assert(work[i].miner@ != m);
            }
            assert(is_absent(due(w, a), m));
            assert(work[work.len() - 1].miner@ != m);
        }
    }
}

/// A deferred miner keeps its work: clearing the paid miners clears nobody who
/// was deferred.
pub proof fn law_deferred_miners_keep_their_work(
    work: Seq<WorkEntry>,
    amounts: Seq<u64>,
    s: StoreState,
    batch: PayoutBatch,
    j: int,
)
    requires
        work.len() == amounts.len(),
        distinct_miners(work),
        batch.cleared@ == miners_of(paid_now(work, amounts)),
        0 <= j < paid_later(work, amounts).len(),
    ensures
        !keys_of(batch.cleared@).contains(paid_later(work, amounts)[j].miner@),
        s.cache.dom().contains(paid_later(work, amounts)[j].miner@) ==> {
            &&& s.paid(batch).cache.dom().contains(paid_later(work, amounts)[j].miner@)
            &&& s.paid(batch).cache[paid_later(work, amounts)[j].miner@]
                == s.cache[paid_later(work, amounts)[j].miner@]
        },
{
    let d = due(work, amounts);
    lemma_due_distinct(work, amounts);
    lemma_by_amount_distinct(d);
    let sorted = by_amount(d);
    let n = payable(sorted.len()) as int;
    let k = paid_later(work, amounts)[j].miner@;
    assert(sorted[n + j].miner@ == k);
    if keys_of(batch.cleared@).contains(k) {
        let i = choose|i: int| 0 <= i < batch.cleared@.len() && (#[trigger] batch.cleared@[i])@ == k;
        assert(batch.cleared@[i] == sorted[i].miner);
        assert(sorted[i].miner@ != sorted[n + j].miner@);
    }
}

/// What comes next in carrying out a payout.
#[derive(Clone, Copy, PartialEq, Eq, Debug, Structural)]
pub enum PayoutStep {
    /// Search the proof of work of the transaction. Attempts count from one.
    Pow { attempt: u32 },
    /// Hand the transaction to the node.
    Submit,
    /// Record the payout and clear the paid miners' work.
    Record,
    /// The payout is complete.
    Done,
    /// The payout has failed.
    Failed(PayoutFailure),
}

/// How carrying out a payout can fail.
#[derive(Clone, Copy, PartialEq, Eq, Debug, Structural)]
pub enum PayoutFailure {
    /// No attempt found a proof of work.
    PowExhausted,
    /// The search broke off.
    PowTaskLost,
    /// The node did not take the transaction.
    NotSubmitted,
    /// The transaction is submitted, but the payout is not recorded.
    NotRecorded,
}

/// How a step of a payout went.
#[derive(Clone, Copy, PartialEq, Eq, Debug, Structural)]
pub enum PayoutEvent {
    PowFound,
    PowFailed,
    PowTaskLost,
    Submitted,
    NotSubmitted,
    Recorded,
    NotRecorded,
}

/// The step that follows when `step` went as `event` says. An event that does
/// not belong to the step changes nothing.
pub open spec fn payout_step(step: PayoutStep, event: PayoutEvent) -> PayoutStep {
    match (step, event) {
        (PayoutStep::Pow { .. }, PayoutEvent::PowFound) => PayoutStep::Submit,
        (PayoutStep::Pow { attempt }, PayoutEvent::PowFailed) => if attempt < MAX_POW_RETRIES {
            PayoutStep::Pow { attempt: (attempt + 1) as u32 }
        } else {
            PayoutStep::Failed(PayoutFailure::PowExhausted)
        },
        (PayoutStep::Pow { .. }, PayoutEvent::PowTaskLost) => PayoutStep::Failed(
            PayoutFailure::PowTaskLost,
        ),
        (PayoutStep::Submit, PayoutEvent::Submitted) => PayoutStep::Record,
        (PayoutStep::Submit, PayoutEvent::NotSubmitted) => PayoutStep::Failed(
            PayoutFailure::NotSubmitted,
        ),
        (PayoutStep::Record, PayoutEvent::Recorded) => PayoutStep::Done,
        (PayoutStep::Record, PayoutEvent::NotRecorded) => PayoutStep::Failed(
            PayoutFailure::NotRecorded,
        ),
        (step, _) => step,
    }
}

/// The first step of a payout.
pub fn first_payout_step() -> (r: PayoutStep)
    ensures
        r == (PayoutStep::Pow { attempt: 1 }),
{
    PayoutStep::Pow { attempt: 1 }
}

/// The step that follows; see `payout_step`.
pub fn next_payout_step(step: PayoutStep, event: PayoutEvent) -> (r: PayoutStep)
    ensures
        r == payout_step(step, event),
{
    match (step, event) {
        (PayoutStep::Pow { .. }, PayoutEvent::PowFound) => PayoutStep::Submit,
        (PayoutStep::Pow { attempt }, PayoutEvent::PowFailed) => if attempt < MAX_POW_RETRIES {
            PayoutStep::Pow { attempt: attempt + 1 }
        } else {
            PayoutStep::Failed(PayoutFailure::PowExhausted)
        },
        (PayoutStep::Pow { .. }, PayoutEvent::PowTaskLost) => PayoutStep::Failed(
            PayoutFailure::PowTaskLost,
        ),
        (PayoutStep::Submit, PayoutEvent::Submitted) => PayoutStep::Record,
        (PayoutStep::Submit, PayoutEvent::NotSubmitted) => PayoutStep::Failed(
            PayoutFailure::NotSubmitted,
        ),
        (PayoutStep::Record, PayoutEvent::Recorded) => PayoutStep::Done,
        (PayoutStep::Record, PayoutEvent::NotRecorded) => PayoutStep::Failed(
            PayoutFailure::NotRecorded,
        ),
        (step, _) => step,
    }
}

/// Where a payout stands after a history of events.
pub open spec fn payout_after(events: Seq<PayoutEvent>) -> PayoutStep
    decreases events.len(),
{
    if events.len() == 0 {
        PayoutStep::Pow { attempt: 1 }
    } else {
        payout_step(payout_after(events.drop_last()), events.last())
    }
}

/// `a` happened, and `b` after it.
pub open spec fn happened_in_order(events: Seq<PayoutEvent>, a: PayoutEvent, b: PayoutEvent) -> bool {
    exists|i: int, j: int|
        0 <= i < j < events.len() && #[trigger] events[i] == a && #[trigger] events[j] == b
}

proof fn lemma_submit_needs_pow(events: Seq<PayoutEvent>)
    requires
        payout_after(events) is Submit,
    ensures
        events.contains(PayoutEvent::PowFound),
    decreases events.len(),
{
    let before = events.drop_last();
    if payout_after(before) is Submit {
        lemma_submit_needs_pow(before);
        let i = choose|i: int| 0 <= i < before.len() && before[i] == PayoutEvent::PowFound;
        assert(events[i] == PayoutEvent::PowFound);
    } else {
        assert(events[events.len() - 1] == PayoutEvent::PowFound);
    }
}

/// The paid miners' work is cleared only after a proof of work was found and the
/// node has taken the transaction; whatever fails before leaves all work alone.
pub proof fn law_work_is_cleared_only_after_submission(events: Seq<PayoutEvent>)
    requires
        payout_after(events) is Record || payout_after(events) is Done || payout_after(events)
            == PayoutStep::Failed(PayoutFailure::NotRecorded),
    ensures
        happened_in_order(events, PayoutEvent::PowFound, PayoutEvent::Submitted),
    decreases events.len(),
{
    let before = events.drop_last();
    let s = payout_after(before);
    if s is Submit {
        lemma_submit_needs_pow(before);
        let i = choose|i: int| 0 <= i < before.len() && before[i] == PayoutEvent::PowFound;
        assert(events[i] == PayoutEvent::PowFound);
        assert(events[events.len() - 1] == PayoutEvent::Submitted);
    } else {
        law_work_is_cleared_only_after_submission(before);
        let (i, j) = choose|i: int, j: int|
            0 <= i < j < before.len() && #[trigger] before[i] == PayoutEvent::PowFound
                && #[trigger] before[j] == PayoutEvent::Submitted;
        assert(events[i] == PayoutEvent::PowFound);
        assert(events[j] == PayoutEvent::Submitted);
    }
}

/// A payout is tried at most three times, and a payout that has ended stays as
/// it ended.
pub proof fn law_payout_attempts_are_bounded(events: Seq<PayoutEvent>, event: PayoutEvent)
    ensures
        payout_after(events) matches PayoutStep::Pow { attempt } ==> 1 <= attempt
            <= MAX_POW_RETRIES,
        payout_after(events) is Done ==> payout_after(events.push(event)) is Done,
        payout_after(events) is Failed ==> payout_after(events.push(event)) == payout_after(events),
    decreases events.len(),
{
    assert(events.push(event).drop_last() =~= events);
    if events.len() > 0 {
        law_payout_attempts_are_bounded(events.drop_last(), events.last());
    }
}

/// The position of a miner with work that is due something.
spec fn is_due(work: Seq<WorkEntry>, amounts: Seq<u64>, i: int) -> bool {
    0 <= i < work.len() && work[i].work > 0 && amounts[i] > 0
}

/// The positions of which `x` is the payout.
spec fn positions_of(work: Seq<WorkEntry>, amounts: Seq<u64>, x: MinerPayout) -> Set<int> {
    Set::new(
        |i: int|
            is_due(work, amounts, i) && work[i].miner == x.miner && work[i].work == x.work
                && amounts[i] == x.amount,
    )
}

/// The positions that are due something.
spec fn due_positions(work: Seq<WorkEntry>, amounts: Seq<u64>) -> Set<int> {
    Set::new(|i: int| is_due(work, amounts, i))
}

proof fn lemma_due_counts(work: Seq<WorkEntry>, amounts: Seq<u64>, x: MinerPayout)
    requires
        work.len() == amounts.len(),
    ensures
        positions_of(work, amounts, x).finite(),
        due(work, amounts).to_multiset().count(x) == positions_of(work, amounts, x).len(),
        due_positions(work, amounts).finite(),
        due(work, amounts).len() == due_positions(work, amounts).len(),
    decreases work.len(),
{
    broadcast use vstd::seq_lib::group_to_multiset_ensures;

    if work.len() == 0 {
        assert(positions_of(work, amounts, x) =~= Set::<int>::empty());
        assert(due_positions(work, amounts) =~= Set::<int>::empty());
    } else {
        let w = work.drop_last();
        let a = amounts.drop_last();
        let n = work.len() - 1;
        lemma_due_counts(w, a, x);
        let before = positions_of(w, a, x);
        let all = positions_of(work, amounts, x);
        if is_due(work, amounts, n) && work[n].miner == x.miner && work[n].work == x.work
            && amounts[n] == x.amount {
            assert(all =~= before.insert(n));
        } else {
            assert(all =~= before);
        }
        if is_due(work, amounts, n) {
            assert(due_positions(work, amounts) =~= due_positions(w, a).insert(n));
        } else {
            assert(due_positions(work, amounts) =~= due_positions(w, a));
        }
    }
}

/// The miners that are paid and those that are deferred are together those with
/// work that are due something, each as often as it is listed, with the work and
/// the amount of its place in the list and no other.
pub proof fn law_everyone_gets_what_is_due(
    work: Seq<WorkEntry>,
    amounts: Seq<u64>,
    miner: [u8; 32],
    credited: u128,
    amount: u64,
)
    requires
        work.len() == amounts.len(),
    ensures
        ({
            let x = MinerPayout { miner, work: credited, amount };
            let places = Set::new(
                |i: int|
                    0 <= i < work.len() && work[i].work > 0 && amounts[i] > 0 && work[i].miner
                        == miner && work[i].work == credited && amounts[i] == amount,
            );
            &&& places.finite()
            &&& (paid_now(work, amounts) + paid_later(work, amounts)).to_multiset().count(x)
                == places.len()
        }),
{
    let x = MinerPayout { miner, work: credited, amount };
    lemma_due_counts(work, amounts, x);
    law_largest_amounts_are_paid_first(work, amounts);
    vstd::seq_lib::lemma_multiset_commutative(paid_now(work, amounts), paid_later(work, amounts));
    let places = Set::new(
        |i: int|
            0 <= i < work.len() && work[i].work > 0 && amounts[i] > 0 && work[i].miner == miner
                && work[i].work == credited && amounts[i] == amount,
    );
    assert(places =~= positions_of(work, amounts, x));
}

/// As many miners are paid as are due something, 127 at most, the larger amounts
/// before the smaller ones; the others are deferred. Where no more than 127 are
/// due something, each of them has an output of exactly its amount.
pub proof fn law_everyone_is_paid_while_there_is_room(
    work: Seq<WorkEntry>,
    amounts: Seq<u64>,
    reward: u64,
    operator: Seq<u8>,
    i: int,
)
    requires
        work.len() == amounts.len(),
    ensures
        ({
            let places = Set::new(
                |i: int| 0 <= i < work.len() && work[i].work > 0 && amounts[i] > 0,
            );
            let paid = paid_now(work, amounts);
            let outs = payout_outputs(paid, reward, operator);
            &&& places.finite()
            &&& paid.len() == vstd::math::min(places.len() as int, 127)
            &&& paid.len() + paid_later(work, amounts).len() == places.len()
            &&& forall|p: int, q: int|
                0 <= p < q < paid.len() ==> (#[trigger] paid[p]).amount >= (#[trigger] paid[q]).amount
            &&& places.len() <= 127 && 0 <= i < work.len() && work[i].work > 0 && amounts[i] > 0
                ==> exists|j: int|
                0 <= j < outs.len() - 1 && (#[trigger] outs[j]).amount == amounts[i]
                    && outs[j].receiver == work[i].miner@
        }),
{
    broadcast use vstd::seq_lib::group_to_multiset_ensures;

    let places = Set::new(|i: int| 0 <= i < work.len() && work[i].work > 0 && amounts[i] > 0);
    assert(places =~= due_positions(work, amounts));
    let d = due(work, amounts);
    let paid = paid_now(work, amounts);
    let outs = payout_outputs(paid, reward, operator);
    law_sorting_keeps_every_payout(d);
    lemma_due_counts(work, amounts, vstd::pervasive::arbitrary());
    assert(by_amount(d).len() == places.len());
    if places.len() <= 127 && 0 <= i < work.len() && work[i].work > 0 && amounts[i] > 0 {
        let x = MinerPayout { miner: work[i].miner, work: work[i].work, amount: amounts[i] };
        lemma_due_counts(work, amounts, x);
        let same = positions_of(work, amounts, x);
        assert(same.contains(i));
        if same.len() == 0 {
            assert(same =~= Set::<int>::empty());
        }
        assert(by_amount(d).to_multiset().count(x) > 0);
        assert(paid =~= by_amount(d));
        assert(paid.contains(x));
        let j = choose|j: int| 0 <= j < paid.len() && paid[j] == x;
        assert(outs[j].amount == amounts[i]);
    }
}

/// What the outputs pay adds up to the reward, and what the miners are paid adds
/// up to what the outputs but the last pay.
pub proof fn law_the_outputs_add_up(paid: Seq<MinerPayout>, reward: u64, operator: Seq<u8>)
    requires
        paid.fold_left(0int, |sum: int, p: MinerPayout| sum + p.amount) <= reward,
    ensures
        amount_sum(paid) == paid.fold_left(0int, |sum: int, p: MinerPayout| sum + p.amount),
        ({
            let outs = payout_outputs(paid, reward, operator);
            &&& outs.len() == paid.len() + 1
            &&& outs.fold_left(0int, |sum: int, o: OutputView| sum + o.amount) == reward
            &&& outs.drop_last().fold_left(0int, |sum: int, o: OutputView| sum + o.amount)
                == paid.fold_left(0int, |sum: int, p: MinerPayout| sum + p.amount)
            &&& outs.last().receiver == operator
        }),
{
    lemma_amount_sum_is_fold(paid);
    lemma_outputs_fold(paid);
    let outs = payout_outputs(paid, reward, operator);
    let mapped = paid.map_values(|p: MinerPayout| output_to(p));
    assert(outs.drop_last() =~= mapped);
    reveal(Seq::fold_left);
}

proof fn lemma_amount_sum_is_fold(s: Seq<MinerPayout>)
    ensures
        amount_sum(s) == s.fold_left(0int, |sum: int, p: MinerPayout| sum + p.amount),
    decreases s.len(),
{
    reveal(Seq::fold_left);
    if s.len() > 0 {
        lemma_amount_sum_is_fold(s.drop_last());
    }
}

proof fn lemma_outputs_fold(s: Seq<MinerPayout>)
    ensures
        s.map_values(|p: MinerPayout| output_to(p)).fold_left(
            0int,
            |sum: int, o: OutputView| sum + o.amount,
        ) == amount_sum(s),
    decreases s.len(),
{
    reveal(Seq::fold_left);
    let outs = s.map_values(|p: MinerPayout| output_to(p));
    if s.len() > 0 {
        lemma_outputs_fold(s.drop_last());
        assert(outs.drop_last() =~= s.drop_last().map_values(|p: MinerPayout| output_to(p)));
    }
}

/// The reward that is found is an output to the pool of a transaction without
/// inputs, and no such output comes before it.
pub proof fn law_the_reward_is_the_first_to_the_pool(
    s: Seq<TransactionView>,
    pool: Seq<u8>,
    o: RewardOutput,
    u: int,
    k: int,
)
    requires
        finds_pool_reward(s, pool, Ok(o)),
    ensures
        exists|t: int|
            0 <= t < s.len() && (#[trigger] s[t]).inputs.len() == 0 && s[t].transaction_id == Some(
                o.transaction_id@,
            ) && o.output_index < s[t].outputs.len() && s[t].outputs[o.output_index as int].receiver
                == pool && s[t].outputs[o.output_index as int].amount == o.amount && (0 <= u < t && 0
                <= k < s[u].outputs.len() && s[u].outputs[k].receiver == pool ==> s[u].inputs.len()
                > 0) && (0 <= k < o.output_index ==> s[t].outputs[k].receiver != pool),
{
    let (t, i) = choose|t: int, i: int| #[trigger]
        is_pool_reward(s, pool, t, i) && s[t].transaction_id == Some(o.transaction_id@)
            && o.output_index == i && o.amount == s[t].outputs[i].amount;
    assert(s[t].inputs.len() == 0);
    if 0 <= u < t && 0 <= k < s[u].outputs.len() && s[u].outputs[k].receiver == pool {
        assert(is_passed_over(s[u], pool));
        assert(s[u].inputs.len() > 0) by {
            if s[u].inputs.len() == 0 {
                assert(pays_nothing_to(s[u].outputs, pool));
                assert(s[u].outputs[k].receiver != pool);
            }
        }
    }
    if 0 <= k < i {
        assert(s[t].outputs.take(i)[k].receiver != pool);
    }
}

/// A block in which a transaction without inputs pays the pool, and in which all
/// such transactions have ids, has a reward; one that is without it has no such
/// output, or a transaction without inputs and without an id.
pub proof fn law_a_paid_pool_finds_its_reward(
    s: Seq<TransactionView>,
    pool: Seq<u8>,
    r: Result<RewardOutput, PayoutError>,
    t: int,
    i: int,
)
    requires
        finds_pool_reward(s, pool, r),
        0 <= t < s.len(),
        s[t].inputs.len() == 0,
        0 <= i < s[t].outputs.len(),
        s[t].outputs[i].receiver == pool,
    ensures
        r is Ok || r == Err::<RewardOutput, PayoutError>(PayoutError::RewardTransactionIdMissing),
        r is Err ==> exists|u: int|
            0 <= u <= t && (#[trigger] s[u]).inputs.len() == 0 && s[u].transaction_id is None,
{
    if r is Err {
        if r->Err_0 == PayoutError::InvalidRewardTransaction {
            assert(is_passed_over(s[t], pool));
            assert(s[t].outputs[i].receiver != pool);
        } else if r->Err_0 == PayoutError::RewardTransactionIdMissing {
            let u = choose|u: int| #[trigger] is_nameless_reward(s, pool, u);
            if u > t {
                assert(is_passed_over(s[t], pool));
                assert(s[t].outputs[i].receiver != pool);
            }
            assert(s[u].inputs.len() == 0);
        }
    }
}

/// A payout transaction spends one output, the reward, in the pool's name and with
/// the pool's signature over what it pays and when.
pub proof fn law_the_payout_spends_the_reward_output(
    reward: RewardOutput,
    pool_public: Seq<u8>,
    pool_private: Seq<u8>,
    outputs: Seq<OutputView>,
    timestamp: u64,
)
    ensures
        ({
            let t = payout_transaction(reward, pool_public, pool_private, outputs, timestamp);
            &&& t.inputs.len() == 1
            &&& t.inputs[0].transaction_id == reward.transaction_id@
            &&& t.inputs[0].output_index == reward.output_index
            &&& t.inputs[0].output_owner == pool_public
            &&& t.inputs[0].signature == Some(
                payout_signature(
                    reward.transaction_id@,
                    reward.output_index as nat,
                    pool_public,
                    outputs,
                    pool_private,
                    timestamp,
                ),
            )
            &&& t.outputs == outputs
            &&& t.timestamp == timestamp
        }),
{
}

/// A payout that finds its proof of work at the first, second or third attempt, is
/// taken by the node and is recorded, is done; one that does not by the third, or
/// that fails at a later step, has failed for that reason.
pub proof fn law_payouts_end_as_they_went(failures: nat)
    requires
        failures <= 2,
    ensures
        ({
            let tried = Seq::new(failures, |i: int| PayoutEvent::PowFailed);
            let found = tried.push(PayoutEvent::PowFound);
            let taken = found.push(PayoutEvent::Submitted);
            &&& payout_after(tried) == (PayoutStep::Pow { attempt: (failures + 1) as u32 })
            &&& payout_after(found) is Submit
            &&& payout_after(taken) is Record
            &&& payout_after(taken.push(PayoutEvent::Recorded)) is Done
            &&& payout_after(tried.push(PayoutEvent::PowTaskLost)) == PayoutStep::Failed(
                PayoutFailure::PowTaskLost,
            )
            &&& payout_after(found.push(PayoutEvent::NotSubmitted)) == PayoutStep::Failed(
                PayoutFailure::NotSubmitted,
            )
            &&& payout_after(taken.push(PayoutEvent::NotRecorded)) == PayoutStep::Failed(
                PayoutFailure::NotRecorded,
            )
            &&& failures == 2 ==> payout_after(tried.push(PayoutEvent::PowFailed))
                == PayoutStep::Failed(PayoutFailure::PowExhausted)
        }),
    decreases failures,
{
    let tried = Seq::new(failures, |i: int| PayoutEvent::PowFailed);
    let found = tried.push(PayoutEvent::PowFound);
    let taken = found.push(PayoutEvent::Submitted);
    if failures > 0 {
        law_payouts_end_as_they_went((failures - 1) as nat);
        assert(tried.drop_last() =~= Seq::new(
            (failures - 1) as nat,
            |i: int| PayoutEvent::PowFailed,
        ));
    }
    assert(found.drop_last() =~= tried);
    assert(taken.drop_last() =~= found);
    assert(taken.push(PayoutEvent::Recorded).drop_last() =~= taken);
    assert(tried.push(PayoutEvent::PowTaskLost).drop_last() =~= tried);
    assert(found.push(PayoutEvent::NotSubmitted).drop_last() =~= found);
    assert(taken.push(PayoutEvent::NotRecorded).drop_last() =~= taken);
    assert(tried.push(PayoutEvent::PowFailed).drop_last() =~= tried);
}

/// What does not belong to a step changes nothing.
pub proof fn law_payout_steps_wait_for_their_events(step: PayoutStep, event: PayoutEvent)
    ensures
        payout_step(step, event) != step ==> {
            ||| step is Pow && (event is PowFound || event is PowFailed || event is PowTaskLost)
            ||| step is Submit && (event is Submitted || event is NotSubmitted)
            ||| step is Record && (event is Recorded || event is NotRecorded)
        },
{
}

/// A transaction without inputs and without an id ends the search, unless the
/// pool is paid before.
pub proof fn law_a_nameless_reward_ends_the_search(
    s: Seq<TransactionView>,
    pool: Seq<u8>,
    r: Result<RewardOutput, PayoutError>,
    u: int,
)
    requires
        finds_pool_reward(s, pool, r),
        0 <= u < s.len(),
        s[u].inputs.len() == 0,
        s[u].transaction_id is None,
        forall|t: int, i: int|
            0 <= t < u && 0 <= i < s[t].outputs.len() && s[t].inputs.len() == 0 ==> (
            #[trigger] s[t].outputs[i]).receiver != pool,
    ensures
        r == Err::<RewardOutput, PayoutError>(PayoutError::RewardTransactionIdMissing),
{
    match r {
        Ok(o) => {
            let (t, i) = choose|t: int, i: int| #[trigger]
                is_pool_reward(s, pool, t, i) && s[t].transaction_id == Some(o.transaction_id@)
                    && o.output_index == i && o.amount == s[t].outputs[i].amount;
            if t < u {
                assert(s[t].outputs[i].receiver != pool);
            } else if u < t {
                assert(is_passed_over(s[u], pool));
            }
        },
        Err(e) => {
            if e == PayoutError::InvalidRewardTransaction {
                assert(is_passed_over(s[u], pool));
            }
        },
    }
}

spec fn has_amount(amount: u64) -> spec_fn(MinerPayout) -> bool {
    |p: MinerPayout| p.amount == amount
}

proof fn lemma_filter_push(s: Seq<MinerPayout>, x: MinerPayout, amount: u64)
    ensures
        s.push(x).filter(has_amount(amount)) == if x.amount == amount {
            s.filter(has_amount(amount)).push(x)
        } else {
            s.filter(has_amount(amount))
        },
{
    reveal(Seq::filter);
    assert(s.push(x).drop_last() =~= s);
}

proof fn lemma_insert_keeps_the_order(s: Seq<MinerPayout>, x: MinerPayout, amount: u64)
    ensures
        insert_by_amount(s, x).filter(has_amount(amount)) == s.push(x).filter(has_amount(amount)),
    decreases s.len(),
{
    if s.len() > 0 && s.last().amount < x.amount {
        let t = s.drop_last();
        lemma_insert_keeps_the_order(t, x, amount);
        lemma_filter_push(insert_by_amount(t, x), s.last(), amount);
        lemma_filter_push(t, x, amount);
        lemma_filter_push(s, x, amount);
        lemma_filter_push(t, s.last(), amount);
        assert(t.push(s.last()) =~= s);
    }
}

/// Among miners who are due the same amount, the order of the list stands.
pub proof fn law_equal_amounts_keep_their_order(s: Seq<MinerPayout>, amount: u64)
    ensures
        by_amount(s).filter(|p: MinerPayout| p.amount == amount) == s.filter(
            |p: MinerPayout| p.amount == amount,
        ),
    decreases s.len(),
{
    assert(has_amount(amount) == (|p: MinerPayout| p.amount == amount));
    if s.len() > 0 {
        let t = s.drop_last();
        law_equal_amounts_keep_their_order(t, amount);
        lemma_insert_keeps_the_order(by_amount(t), s.last(), amount);
        lemma_filter_push(by_amount(t), s.last(), amount);
        lemma_filter_push(t, s.last(), amount);
        assert(t.push(s.last()) =~= s);
    }
}

/// What is due to two lists of miners is what is due to the one, and then what is
/// due to the other.
pub proof fn law_due_goes_by_the_list(
    work: Seq<WorkEntry>,
    amounts: Seq<u64>,
    more_work: Seq<WorkEntry>,
    more_amounts: Seq<u64>,
)
    requires
        work.len() == amounts.len(),
        more_work.len() == more_amounts.len(),
    ensures
        due(work + more_work, amounts + more_amounts) == due(work, amounts) + due(
            more_work,
            more_amounts,
        ),
    decreases more_work.len(),
{
    let all = work + more_work;
    let all_amounts = amounts + more_amounts;
    if more_work.len() == 0 {
        assert(all =~= work);
        assert(all_amounts =~= amounts);
        assert(due(work, amounts) =~= due(work, amounts) + due(more_work, more_amounts));
    } else {
        law_due_goes_by_the_list(work, amounts, more_work.drop_last(), more_amounts.drop_last());
        assert(all.drop_last() =~= work + more_work.drop_last());
        assert(all_amounts.drop_last() =~= amounts + more_amounts.drop_last());
        assert(due(all, all_amounts) =~= due(work, amounts) + due(more_work, more_amounts));
    }
}

} // verus!
