//! What the pool has from `snap_coin`: the coin's constants, its reward
//! schedule, its keys, and the digests that stand in a block.

use snap_coin::crypto;
use snap_coin::crypto::address_inclusion_filter::AddressInclusionFilter;
use snap_coin::crypto::keys::{Private, Public};
use snap_coin::crypto::merkle_tree::MerkleTree;
use vstd::prelude::*;

use crate::bytes::{exp, lemma_exp_positive};
use crate::chain::{
    outputs_view, transactions_view, OutputView, Transaction, TransactionOutput, TransactionView,
};

verus! {

type SnapTransaction = snap_coin::core::transaction::Transaction;

type SnapInput = snap_coin::core::transaction::TransactionInput;

type SnapOutput = snap_coin::core::transaction::TransactionOutput;

/// `snap_coin::economics::EXPIRATION_TIME`: the seconds after which an
/// unconfirmed transaction expires.
#[verifier::external_body]
pub(crate) fn expiration_time() -> (secs: u64)
    ensures
        secs == 350,
{
    snap_coin::economics::EXPIRATION_TIME
}

/// `snap_coin::core::block::MAX_TRANSACTIONS_PER_BLOCK`: how many transactions
/// a block can hold.
#[verifier::external_body]
pub(crate) fn max_transactions_per_block() -> (count: usize)
    ensures
        count == 500,
{
    snap_coin::core::block::MAX_TRANSACTIONS_PER_BLOCK
}

/// `snap_coin::core::utils::slice_vec`: the part of a list from `start` up to
/// `end`, as far as the list goes. It panics where `end` lies before a `start`
/// that lies in the list.
#[verifier::external_body]
pub(crate) fn slice_transactions(list: &Vec<Transaction>, start: usize, end: usize) -> (part:
    &[Transaction])
    requires
        start <= end || start >= list@.len(),
    ensures
        part@ == (if start >= list@.len() {
            Seq::<Transaction>::empty()
        } else if end >= list@.len() {
            list@.skip(start as int)
        } else {
            list@.subrange(start as int, end as int)
        }),
{
    snap_coin::core::utils::slice_vec(list, start, end)
}

/// The height from which on `snap_coin` computes no reward: its halving count
/// no longer fits the shift that halves the reward.
pub const REWARD_HEIGHT_LIMIT: u64 = 64_000_000;

/// The reward for the block at a height: ten billion, halved every million
/// blocks, at least one.
pub open spec fn reward_at(height: nat) -> nat {
    let halved = 10_000_000_000nat / exp(2, height / 1_000_000);
    if halved == 0 {
        1
    } else {
        halved
    }
}

/// `snap_coin::economics::get_block_reward`. Its shift overflows from
/// `REWARD_HEIGHT_LIMIT` on.
#[verifier::external_body]
fn snap_block_reward(height: usize) -> (reward: u64)
    requires
        height < REWARD_HEIGHT_LIMIT,
    ensures
        reward == reward_at(height as nat),
{
    snap_coin::economics::get_block_reward(height)
}

/// The reward for the block at `height`.
pub fn block_reward(height: u64) -> (reward: u64)
    requires
        height < REWARD_HEIGHT_LIMIT,
    ensures
        reward == reward_at(height as nat),
{
    snap_block_reward(height as usize)
}

/// The key that a base-36 string spells for `Private::new_from_base36`.
pub uninterp spec fn private_key_of(text: Seq<char>) -> Option<Seq<u8>>;

/// The key that a base-36 string spells for `Public::new_from_base36`.
pub uninterp spec fn public_key_of(text: Seq<char>) -> Option<Seq<u8>>;

/// The public half of a private key, as `Private::to_public` derives it.
pub uninterp spec fn public_half(private_key: Seq<u8>) -> Seq<u8>;

/// `Private::new_from_base36`: the key that the text spells, if it spells one.
/// Which texts spell a key, and which key, is left to the name.
#[verifier::external_body]
pub(crate) fn parse_private_key(text: &str) -> (key: Option<[u8; 32]>)
    ensures
        crate::chain::opt_bytes(key) == private_key_of(text@),
{
    Private::new_from_base36(text).map(|k| *k.dump_buf())
}

/// `Public::new_from_base36`: the key that the text spells, if it spells one.
/// Which texts spell a key, and which key, is left to the name.
#[verifier::external_body]
pub(crate) fn parse_public_key(text: &str) -> (key: Option<[u8; 32]>)
    ensures
        crate::chain::opt_bytes(key) == public_key_of(text@),
{
    Public::new_from_base36(text).map(|k| *k.dump_buf())
}

/// `Private::to_public`: the public half of the key pair.
#[verifier::external_body]
pub(crate) fn derive_public_key(private_key: &[u8; 32]) -> (key: [u8; 32])
    ensures
        key@ == public_half(private_key@),
{
    *Private::new_from_buf(private_key).to_public().dump_buf()
}

/// The root of the Merkle tree over a list of transaction ids.
pub uninterp spec fn merkle_root_of(ids: Seq<Seq<u8>>) -> Seq<u8>;

/// The bytes of a list of arrays.
pub open spec fn ids_view(ids: Seq<[u8; 32]>) -> Seq<Seq<u8>> {
    ids.map_values(|id: [u8; 32]| id@)
}

/// `MerkleTree::build` and the root of what it builds. The root of no
/// transactions is zero; of others it is left to the name.
#[verifier::external_body]
pub(crate) fn merkle_root(ids: &Vec<[u8; 32]>) -> (root: [u8; 32])
    ensures
        root@ == merkle_root_of(ids_view(ids@)),
        ids@.len() == 0 ==> root@ == Seq::new(32, |i: int| 0u8),
{
    let hashes: Vec<_> = ids.iter().map(|id| crypto::Hash::new_from_buf(*id)).collect();
    MerkleTree::build(&hashes).root_hash()
}

/// The serialised address inclusion filter over a list of transactions.
pub uninterp spec fn address_filter_of(transactions: Seq<TransactionView>) -> Seq<u8>;

/// `AddressInclusionFilter::create_filter`, serialised with `bincode`.
/// There always is one: the first has no way to fail, and the second has none for
/// numbers and bytes. The filter is decided by the transactions; which filter it
/// is, is left to the name. Its size comes from logarithms of floating-point numbers, which are
/// taken to round alike everywhere, as every node of the chain takes them to.
#[verifier::external_body]
pub(crate) fn address_filter(transactions: &Vec<Transaction>) -> (filter: Option<Vec<u8>>)
    ensures
        filter is Some,
        filter->0@ == address_filter_of(transactions_view(transactions@)),
{
    let txs: Vec<_> = transactions.iter().map(|t| SnapTransaction {
        inputs: t.inputs.iter().map(|i| SnapInput {
            transaction_id: crypto::Hash::new_from_buf(i.transaction_id),
            output_index: i.output_index,
            signature: i.signature.as_ref().map(crypto::Signature::new_from_buf),
            output_owner: Public::new_from_buf(&i.output_owner),
        }).collect(),
        outputs: t.outputs.iter().map(|o| SnapOutput {
            amount: o.amount, receiver: Public::new_from_buf(&o.receiver),
        }).collect(),
        transaction_id: t.transaction_id.map(crypto::Hash::new_from_buf),
        nonce: t.nonce,
        timestamp: t.timestamp,
    }).collect();
    bincode::serialize(&AddressInclusionFilter::create_filter(&txs).ok()?).ok()
}

/// A block target as it is eased for the number of transactions in the block.
pub uninterp spec fn eased_block_target(target: Seq<u8>, transactions: nat) -> Seq<u8>;

/// `snap_coin::core::difficulty::calculate_block_difficulty`: the target that
/// a block with so many transactions has to meet. How much the transactions
/// ease it is left to the name.
#[verifier::external_body]
pub(crate) fn block_target_for(target: &[u8; 32], transactions: usize) -> (eased: [u8; 32])
    ensures
        eased@ == eased_block_target(target@, transactions as nat),
{
    snap_coin::core::difficulty::calculate_block_difficulty(target, transactions)
}

/// The signature that lets the owner of an output spend it on `outputs`, in a
/// transaction made at `timestamp`.
pub uninterp spec fn payout_signature(
    transaction_id: Seq<u8>,
    output_index: nat,
    output_owner: Seq<u8>,
    outputs: Seq<OutputView>,
    private_key: Seq<u8>,
    timestamp: u64,
) -> Seq<u8>;

/// `snap_coin::core::transaction::Transaction::new_transaction_now` for a
/// transaction with one input: the time it was made at, and the signature of its
/// input. The time is the clock's, of which nothing is promised; the signature is
/// left to the name. It fails only where the transaction cannot be encoded for
/// signing, and numbers, arrays, and lists and options of them always can be: the
/// encoder of `bincode` writes them to memory, and that writer takes all bytes.
#[verifier::external_body]
pub(crate) fn sign_payout(
    transaction_id: &[u8; 32],
    output_index: usize,
    output_owner: &[u8; 32],
    outputs: &Vec<TransactionOutput>,
    private_key: &[u8; 32],
) -> (r: Result<(u64, Option<[u8; 64]>), String>)
    ensures
        r is Ok,
        crate::chain::opt_bytes(r->Ok_0.1) == Some(
            payout_signature(
                transaction_id@,
                output_index as nat,
                output_owner@,
                outputs_view(outputs@),
                private_key@,
                r->Ok_0.0,
            ),
        ),
{
    let input = SnapInput {
        transaction_id: crypto::Hash::new_from_buf(*transaction_id),
        output_index,
        signature: None,
        output_owner: Public::new_from_buf(output_owner),
    };
    let paid = outputs.iter().map(|o| SnapOutput {
        amount: o.amount, receiver: Public::new_from_buf(&o.receiver),
    }).collect();
    let mut keys = vec![Private::new_from_buf(private_key)];
    let tx = SnapTransaction::new_transaction_now(vec![input], paid, &mut keys);
    let tx = tx.map_err(|e| e.to_string())?;
    Ok((tx.timestamp, tx.inputs[0].signature.map(|s| s.dump_buf())))
}

/// `chrono::Utc::now`, in seconds since the epoch. Nothing is promised of it.
#[verifier::external_body]
pub(crate) fn utc_now_secs() -> u64 {
    chrono::Utc::now().timestamp() as u64
}

/// The reward starts at ten billion, is halved with every million blocks, and is
/// never less than one.
pub proof fn law_the_reward_is_halved(height: nat)
    ensures
        height < 1_000_000 ==> reward_at(height) == 10_000_000_000,
        reward_at(height + 1_000_000) == vstd::math::max(reward_at(height) as int / 2, 1),
{
    let n = height / 1_000_000;
    let p = exp(2, n);
    assert((height + 1_000_000) / 1_000_000 == n + 1);
    assert(exp(2, n + 1) == 2 * p);
    lemma_exp_positive(2, n);
    assert(10_000_000_000nat / (2 * p) == (10_000_000_000nat / p) / 2) by {
        vstd::arithmetic::div_mod::lemma_div_denominator(10_000_000_000, p as int, 2);
        assert(p * 2 == 2 * p) by (nonlinear_arith);
    }
    if height < 1_000_000 {
        assert(n == 0);
        assert(p == 1);
        assert(10_000_000_000nat / 1nat == 10_000_000_000nat);
    }
}

/// A reward is at least one and at most ten billion.
pub proof fn law_rewards_are_bounded(height: nat)
    ensures
        1 <= reward_at(height) <= 10_000_000_000,
{
    let p = exp(2, height / 1_000_000);
    lemma_exp_positive(2, height / 1_000_000);
    assert(10_000_000_000nat / p <= 10_000_000_000nat) by (nonlinear_arith)
        requires
            p > 0,
    ;
}

} // verus!
