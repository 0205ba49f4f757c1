//! Judging a share: a submitted block counts when it is the current job with a
//! hash that meets the miner's target.

use vstd::prelude::*;

use crate::bytes::{be_value, law_big_endian, same_bytes};
use crate::chain::{
    law_metadata_agree_by_field, same_transactions, transactions_view, Block, BlockMetadata,
    BlockView, MetadataView, Transaction, TransactionView,
};
use crate::difficulty::{difficulty_of, share_difficulty_from_hash};
use crate::magnitude::Magnitude;
use crate::snapcoin::{
    address_filter, address_filter_of, block_target_for, eased_block_target,
    expiration_time, ids_view, merkle_root, merkle_root_of, utc_now_secs,
};

verus! {

/// Why a share is rejected.
#[derive(Clone, Copy, PartialEq, Eq, Debug, Structural)]
pub enum ShareError {
    /// The submitted block has no hash.
    BlockIncomplete,
    /// A transaction that stays in the job has no id to build the Merkle tree
    /// from.
    JobTransactionIdMissing,
    /// The address inclusion filter of the job cannot be built. It always can be.
    AddressInclusionFilter,
    /// The submitted block is not the job.
    NotTheJob,
    /// The hash does not meet the target.
    PowDifficultyIncorrect,
}

/// The seconds that an expired transaction may stay in a job.
pub const EXPIRY_MARGIN_SECS: u64 = 10;

/// The difficulty that a hash has met; see `share_difficulty_from_hash`.
pub fn block_difficulty_from_hash(hash_bytes: &[u8]) -> (r: u64)
    ensures
        r == difficulty_of(be_value(hash_bytes@)),
{
    share_difficulty_from_hash(hash_bytes)
}

/// A transaction from time `timestamp` no longer belongs in a job at time
/// `now`.
pub open spec fn has_expired(timestamp: u64, now: u64) -> bool {
    timestamp + 350 + EXPIRY_MARGIN_SECS < now
}

/// The transactions that still belong in a job at time `now`, in their order.
pub open spec fn live_transactions(s: Seq<TransactionView>, now: u64) -> Seq<TransactionView> {
    s.filter(|t: TransactionView| !has_expired(t.timestamp, now))
}

/// All transactions have an id.
pub open spec fn have_ids(s: Seq<TransactionView>) -> bool {
    forall|i: int| 0 <= i < s.len() ==> (#[trigger] s[i]).transaction_id is Some
}

/// The ids of transactions that all have one.
pub open spec fn ids_of(s: Seq<TransactionView>) -> Seq<Seq<u8>> {
    s.map_values(|t: TransactionView| t.transaction_id->0)
}

/// The job as it stands at time `now`: expired transactions are gone, and where
/// any went, the Merkle root and the address filter are those of the rest.
pub open spec fn current_job(job: BlockView, now: u64) -> Result<BlockView, ShareError> {
    let kept = live_transactions(job.transactions, now);
    if kept.len() == job.transactions.len() {
        Ok(job)
    } else if !have_ids(kept) {
        Err(ShareError::JobTransactionIdMissing)
    } else {
        Ok(
            BlockView {
                transactions: kept,
                meta: MetadataView {
                    merkle_tree_root: merkle_root_of(ids_of(kept)),
                    address_inclusion_filter: address_filter_of(kept),
                    ..job.meta
                },
                ..job
            },
        )
    }
}

/// What a submitted block is worth against an up-to-date job: its difficulty,
/// where its transactions and its metadata but for the hash are those of the
/// job, and its hash meets the target.
pub open spec fn verdict(job: BlockView, block: BlockView, target: Seq<u8>) -> Result<
    u64,
    ShareError,
> {
    if block.meta.hash is None {
        Err(ShareError::BlockIncomplete)
    } else if job.transactions != block.transactions {
        Err(ShareError::NotTheJob)
    } else if job.meta.without_hash() != block.meta.without_hash() {
        Err(ShareError::NotTheJob)
    } else if be_value(block.meta.hash->0) > be_value(target) {
        Err(ShareError::PowDifficultyIncorrect)
    } else {
        Ok(difficulty_of(be_value(block.meta.hash->0)) as u64)
    }
}

/// What a submitted block is worth against a job at time `now`.
pub open spec fn share_verdict(job: BlockView, block: BlockView, target: Seq<u8>, now: u64) -> Result<
    u64,
    ShareError,
> {
    if block.meta.hash is None {
        Err(ShareError::BlockIncomplete)
    } else {
        match current_job(job, now) {
            Ok(current) => verdict(current, block, target),
            Err(e) => Err(e),
        }
    }
}

/// The transactions that still belong in a job.
pub fn prune_expired(transactions: &Vec<Transaction>, now: u64) -> (kept: Vec<Transaction>)
    ensures
        transactions_view(kept@) == live_transactions(transactions_view(transactions@), now),
        kept@.len() <= transactions@.len(),
{
    let margin: u128 = expiration_time() as u128 + EXPIRY_MARGIN_SECS as u128;
    let mut kept: Vec<Transaction> = Vec::new();
    let mut i: usize = 0;
    let ghost all = transactions_view(transactions@);
    assert(all.take(0) =~= Seq::<TransactionView>::empty());
    assert(transactions_view(kept@) =~= live_transactions(all.take(0), now)) by {
        reveal(Seq::filter);
    }
    while i < transactions.len()
        invariant
            i <= transactions.len(),
            margin == 350 + EXPIRY_MARGIN_SECS,
            all == transactions_view(transactions@),
            transactions_view(kept@) == live_transactions(all.take(i as int), now),
            kept@.len() <= i,
        decreases transactions.len() - i,
    {
        let t = &transactions[i];
        let ghost before = kept@;
        if !(t.timestamp as u128 + margin < now as u128) {
            kept.push(t.copy());
        }
        proof {
            reveal(Seq::filter);
            let next = all.take(i + 1);
            assert(next.drop_last() =~= all.take(i as int));
            assert(next.last() == t@);
            if !has_expired(t.timestamp, now) {
                assert(transactions_view(kept@) =~= transactions_view(before).push(t@));
            }
        }
        i = i + 1;
    }
    assert(all.take(i as int) =~= all);
    kept
}

/// Where no transaction goes, none changes.
proof fn lemma_nothing_expired(s: Seq<TransactionView>, now: u64)
    requires
        live_transactions(s, now).len() == s.len(),
    ensures
        live_transactions(s, now) == s,
    decreases s.len(),
{
    reveal(Seq::filter);
    if s.len() > 0 {
        let pred = |t: TransactionView| !has_expired(t.timestamp, now);
        s.drop_last().lemma_filter_len(pred);
        lemma_nothing_expired(s.drop_last(), now);
        assert(s =~= s.drop_last().push(s.last()));
    }
}

/// The ids of the transactions, if all have one.
fn collect_ids(transactions: &Vec<Transaction>) -> (r: Option<Vec<[u8; 32]>>)
    ensures
        r is Some <==> have_ids(transactions_view(transactions@)),
        r is Some ==> ids_view(r->0@) == ids_of(transactions_view(transactions@)),
{
    let mut ids: Vec<[u8; 32]> = Vec::new();
    let mut i: usize = 0;
    let ghost all = transactions_view(transactions@);
    while i < transactions.len()
        invariant
            i <= transactions.len(),
            all == transactions_view(transactions@),
            ids@.len() == i,
            forall|j: int| 0 <= j < i ==> (#[trigger] all[j]).transaction_id == Some(ids@[j]@),
        decreases transactions.len() - i,
    {
        assert(all[i as int] == transactions@[i as int]@);
        match transactions[i].transaction_id {
            Some(id) => ids.push(id),
            None => return None,
        }
        i = i + 1;
    }
    assert(ids_view(ids@) =~= ids_of(all));
    Some(ids)
}

/// The job brought up to date; see `current_job`.
pub fn refresh_job(job: &Block, now: u64) -> (r: Result<Block, ShareError>)
    ensures
        r is Ok <==> current_job(job@, now) is Ok,
        r is Ok ==> r->Ok_0@ == current_job(job@, now)->Ok_0,
        r is Err ==> current_job(job@, now) == Err::<BlockView, ShareError>(r->Err_0),
{
    let kept = prune_expired(&job.transactions, now);
    if kept.len() == job.transactions.len() {
        proof {
            lemma_nothing_expired(job@.transactions, now);
        }
        return Ok(job.copy());
    }
    let ids = match collect_ids(&kept) {
        Some(ids) => ids,
        None => return Err(ShareError::JobTransactionIdMissing),
    };
    let filter = match address_filter(&kept) {
        Some(filter) => filter,
        None => return Err(ShareError::AddressInclusionFilter),
    };
    let root = merkle_root(&ids);
    Ok(
        Block {
            transactions: kept,
            timestamp: job.timestamp,
            nonce: job.nonce,
            meta: BlockMetadata {
                block_pow_difficulty: job.meta.block_pow_difficulty,
                tx_pow_difficulty: job.meta.tx_pow_difficulty,
                previous_block: job.meta.previous_block,
                hash: job.meta.hash,
                merkle_tree_root: root,
                address_inclusion_filter: filter,
            },
        },
    )
}

/// Judges a submitted block against an up-to-date job; see `verdict`.
pub fn judge_against_job(job: &Block, new_block: &Block, target: &[u8; 32]) -> (r: Result<
    u64,
    ShareError,
>)
    ensures
        r == verdict(job@, new_block@, target@),
{
    let hash = match new_block.meta.hash {
        Some(hash) => hash,
        None => return Err(ShareError::BlockIncomplete),
    };
    if !same_transactions(&job.transactions, &new_block.transactions) {
        return Err(ShareError::NotTheJob);
    }
    if !job.meta.same_but_for_hash(&new_block.meta) {
        return Err(ShareError::NotTheJob);
    }
    if Magnitude::from_bytes_be(&hash).exceeds(&Magnitude::from_bytes_be(target)) {
        return Err(ShareError::PowDifficultyIncorrect);
    }
    Ok(share_difficulty_from_hash(&hash))
}

/// Judges a submitted block against the job that miners were given, at time
/// `now`; see `share_verdict`.
pub fn judge_share(job: &Block, new_block: &Block, target: &[u8; 32], now: u64) -> (r: Result<
    u64,
    ShareError,
>)
    ensures
        r == share_verdict(job@, new_block@, target@, now),
{
    if new_block.meta.hash.is_none() {
        return Err(ShareError::BlockIncomplete);
    }
    match refresh_job(job, now) {
        Ok(current) => judge_against_job(&current, new_block, target),
        Err(e) => Err(e),
    }
}

/// Judges a submitted block against the job that miners were given, by the
/// clock: the difficulty of the share, or why it is rejected.
pub fn handle_share(job: &Block, new_block: &Block, target: &[u8; 32]) -> (r: Result<
    u64,
    ShareError,
>)
    ensures
        exists|now: u64| r == #[trigger] share_verdict(job@, new_block@, target@, now),
{
    let now = utc_now_secs();
    judge_share(job, new_block, target, now)
}

/// How a block falls short of the network's difficulties.
#[derive(Clone, Copy, PartialEq, Eq, Debug, Structural)]
pub enum DifficultyError {
    /// The block was mined for other difficulties.
    DifficultyMismatch,
    /// The hash does not meet the target of the network.
    BlockPowDifficultyIncorrect,
}

/// Whether a block was mined for the network's difficulties and, if so, whether
/// its hash meets the network's target, eased for its transactions.
pub open spec fn network_verdict(
    block: BlockView,
    block_difficulty: Seq<u8>,
    tx_difficulty: Seq<u8>,
    eased_target: Seq<u8>,
) -> Result<(), DifficultyError> {
    if block.meta.block_pow_difficulty != block_difficulty || block.meta.tx_pow_difficulty
        != tx_difficulty {
        Err(DifficultyError::DifficultyMismatch)
    } else if be_value(block.meta.hash->0) > be_value(eased_target) {
        Err(DifficultyError::BlockPowDifficultyIncorrect)
    } else {
        Ok(())
    }
}

/// Judges a block against the network's difficulties, where `eased_target` is
/// the block target eased for the block's transactions.
pub fn judge_against_network(
    block: &Block,
    block_difficulty: &[u8; 32],
    tx_difficulty: &[u8; 32],
    eased_target: &[u8; 32],
) -> (r: Result<(), DifficultyError>)
    requires
        block@.meta.block_pow_difficulty == block_difficulty@ && block@.meta.tx_pow_difficulty
            == tx_difficulty@ ==> block.meta.hash is Some,
    ensures
        r == network_verdict(block@, block_difficulty@, tx_difficulty@, eased_target@),
{
    if !same_bytes(&block.meta.block_pow_difficulty, block_difficulty) || !same_bytes(
        &block.meta.tx_pow_difficulty,
        tx_difficulty,
    ) {
        return Err(DifficultyError::DifficultyMismatch);
    }
    let hash = block.meta.hash.unwrap();
    if Magnitude::from_bytes_be(&hash).exceeds(&Magnitude::from_bytes_be(eased_target)) {
        return Err(DifficultyError::BlockPowDifficultyIncorrect);
    }
    Ok(())
}

/// Judges a mined block against the network's difficulties.
pub fn validate_difficulties(
    block: &Block,
    block_difficulty: &[u8; 32],
    tx_difficulty: &[u8; 32],
) -> (r: Result<(), DifficultyError>)
    requires
        block@.meta.block_pow_difficulty == block_difficulty@ && block@.meta.tx_pow_difficulty
            == tx_difficulty@ ==> block.meta.hash is Some,
    ensures
        r == network_verdict(
            block@,
            block_difficulty@,
            tx_difficulty@,
            eased_block_target(block_difficulty@, block@.transactions.len()),
        ),
{
    let eased = block_target_for(block_difficulty, block.transactions.len());
    judge_against_network(block, block_difficulty, tx_difficulty, &eased)
}

/// An accepted share has a hash that meets the target, and counts for at least
/// the difficulty of the target.
pub proof fn law_accepted_share_meets_target(
    job: BlockView,
    block: BlockView,
    target: Seq<u8>,
    now: u64,
)
    requires
        share_verdict(job, block, target, now) is Ok,
    ensures
        block.meta.hash is Some,
        be_value(block.meta.hash->0) <= be_value(target),
        be_value(block.meta.hash->0) > 0 ==> share_verdict(job, block, target, now)->Ok_0
            >= difficulty_of(be_value(target)),
{
    let hash = be_value(block.meta.hash->0);
    if hash > 0 {
        crate::difficulty::law_larger_hash_is_less_difficult(hash, be_value(target));
    }
}

/// The job as it stands, with a hash that meets the target, is accepted, and for
/// the difficulty of the hash. A job stands where none of its transactions has
/// expired, or where those that have not have ids.
pub proof fn law_the_job_is_accepted(
    job: BlockView,
    block: BlockView,
    target: Seq<u8>,
    now: u64,
)
    requires
        live_transactions(job.transactions, now).len() == job.transactions.len() || have_ids(
            live_transactions(job.transactions, now),
        ),
        block.transactions == current_job(job, now)->Ok_0.transactions,
        block.meta.without_hash() == current_job(job, now)->Ok_0.meta.without_hash(),
        block.meta.hash is Some,
        be_value(block.meta.hash->0) <= be_value(target),
    ensures
        current_job(job, now) is Ok,
        share_verdict(job, block, target, now) == Ok::<u64, ShareError>(
            difficulty_of(be_value(block.meta.hash->0)) as u64,
        ),
{
}

/// A share that is accepted at a target is accepted, for the same difficulty,
/// at every easier one.
pub proof fn law_easier_target_accepts_as_much(
    job: BlockView,
    block: BlockView,
    target: Seq<u8>,
    easier: Seq<u8>,
    now: u64,
)
    requires
        share_verdict(job, block, target, now) is Ok,
        be_value(target) <= be_value(easier),
    ensures
        share_verdict(job, block, easier, now) == share_verdict(job, block, target, now),
{
}

/// A share is accepted only for the transactions of the job that have not
/// expired, and only with the job's own metadata where none has.
pub proof fn law_accepted_share_is_the_job(
    job: BlockView,
    block: BlockView,
    target: Seq<u8>,
    now: u64,
)
    requires
        share_verdict(job, block, target, now) is Ok,
    ensures
        block.transactions == live_transactions(job.transactions, now),
        block.transactions.len() == job.transactions.len() ==> block.meta.without_hash()
            == job.meta.without_hash(),
{
    let kept = live_transactions(job.transactions, now);
    if kept.len() == job.transactions.len() {
        lemma_nothing_expired(job.transactions, now);
    }
}

/// Only its time takes a transaction out of a job: the parts of a list are pruned
/// on their own and joined in their order, and of a single transaction it stays
/// exactly where its time and six minutes have not passed.
pub proof fn law_only_time_takes_transactions_out(
    a: Seq<TransactionView>,
    b: Seq<TransactionView>,
    t: TransactionView,
    now: u64,
)
    ensures
        live_transactions(a + b, now) == live_transactions(a, now) + live_transactions(b, now),
        live_transactions(Seq::<TransactionView>::empty(), now).len() == 0,
        t.timestamp + 360 >= now ==> live_transactions(seq![t], now) == seq![t],
        t.timestamp + 360 < now ==> live_transactions(seq![t], now).len() == 0,
        live_transactions(a, now).contains(t) <==> a.contains(t) && t.timestamp + 360 >= now,
{
    let pred = |t: TransactionView| !has_expired(t.timestamp, now);
    Seq::filter_distributes_over_add(a, b, pred);
    reveal(Seq::filter);
    assert(seq![t].drop_last() =~= Seq::<TransactionView>::empty());
    assert(live_transactions(seq![t].drop_last(), now) =~= Seq::<TransactionView>::empty());
    if t.timestamp + 360 >= now {
        assert(live_transactions(seq![t], now) =~= seq![t]);
    }
    if live_transactions(a, now).contains(t) {
        a.lemma_filter_contains_rev(pred, t);
        let live = live_transactions(a, now);
        let i = choose|i: int| 0 <= i < live.len() && live[i] == t;
        a.lemma_filter_pred(pred, i);
    }
    if a.contains(t) && t.timestamp + 360 >= now {
        let i = choose|i: int| 0 <= i < a.len() && a[i] == t;
        a.lemma_filter_contains(pred, i);
    }
}

proof fn lemma_all_live(s: Seq<TransactionView>, now: u64)
    requires
        forall|i: int| 0 <= i < s.len() ==> (#[trigger] s[i]).timestamp + 360 >= now,
    ensures
        live_transactions(s, now) == s,
    decreases s.len(),
{
    reveal(Seq::filter);
    if s.len() > 0 {
        let t = s.drop_last();
        assert forall|i: int| 0 <= i < t.len() implies (#[trigger] t[i]).timestamp + 360 >= now by {
            assert(s[i].timestamp + 360 >= now);
        }
        lemma_all_live(t, now);
        assert(s[s.len() - 1].timestamp + 360 >= now);
        assert(s =~= t.push(s.last()));
    }
}

/// While none of its transactions has expired, the job stands as it was handed
/// out: a block is accepted exactly where it has a hash, the job's transactions,
/// the job's metadata but for the hash, and the hash is at most the target.
pub proof fn law_a_fresh_job_stands_as_handed_out(
    job: BlockView,
    block: BlockView,
    target: Seq<u8>,
    now: u64,
)
    requires
        forall|i: int|
            0 <= i < job.transactions.len() ==> (#[trigger] job.transactions[i]).timestamp + 360
                >= now,
    ensures
        live_transactions(job.transactions, now) == job.transactions,
        current_job(job, now) == Ok::<BlockView, ShareError>(job),
        share_verdict(job, block, target, now) is Ok <==> block.meta.hash is Some
            && block.transactions == job.transactions && block.meta.block_pow_difficulty
            == job.meta.block_pow_difficulty && block.meta.tx_pow_difficulty
            == job.meta.tx_pow_difficulty && block.meta.previous_block == job.meta.previous_block
            && block.meta.merkle_tree_root == job.meta.merkle_tree_root
            && block.meta.address_inclusion_filter == job.meta.address_inclusion_filter && be_value(
            block.meta.hash->0,
        ) <= be_value(target),
{
    lemma_all_live(job.transactions, now);
    law_metadata_agree_by_field(job.meta, block.meta);
}

/// Where a transaction has expired, the job goes on with the others: it needs
/// their ids, from which its Merkle root is built, and its filter is built from
/// them; everything else of the job stays.
pub proof fn law_a_pruned_job_is_rebuilt(job: BlockView, now: u64, expired: int)
    requires
        0 <= expired < job.transactions.len(),
        job.transactions[expired].timestamp + 360 < now,
    ensures
        ({
            let live = live_transactions(job.transactions, now);
            let nameless = exists|i: int|
                0 <= i < live.len() && (#[trigger] live[i]).transaction_id is None;
            let r = current_job(job, now);
            &&& nameless ==> r == Err::<BlockView, ShareError>(ShareError::JobTransactionIdMissing)
            &&& !nameless ==> {
                &&& r is Ok
                &&& r->Ok_0.transactions == live
                &&& r->Ok_0.meta.merkle_tree_root == merkle_root_of(
                    Seq::new(live.len(), |i: int| live[i].transaction_id->0),
                )
                &&& r->Ok_0.meta.address_inclusion_filter == address_filter_of(live)
                &&& r->Ok_0.meta.block_pow_difficulty == job.meta.block_pow_difficulty
                &&& r->Ok_0.meta.tx_pow_difficulty == job.meta.tx_pow_difficulty
                &&& r->Ok_0.meta.previous_block == job.meta.previous_block
                &&& r->Ok_0.meta.hash == job.meta.hash
                &&& r->Ok_0.timestamp == job.timestamp
                &&& r->Ok_0.nonce == job.nonce
            }
        }),
{
    let live = live_transactions(job.transactions, now);
    let t = job.transactions[expired];
    law_only_time_takes_transactions_out(job.transactions, Seq::empty(), t, now);
    if live.len() == job.transactions.len() {
        lemma_nothing_expired(job.transactions, now);
        assert(live[expired] == t);
        assert(live.contains(t));
    }
    assert(ids_of(live) =~= Seq::new(live.len(), |i: int| live[i].transaction_id->0));
}

/// Against the job as it stands, a block is turned down for the first thing that
/// is wrong with it: no hash, other transactions or metadata than the job's, or a
/// hash above the target. Nothing else turns it down, and an accepted one counts
/// for the difficulty of its hash.
pub proof fn law_a_share_is_turned_down_for_a_reason(
    job: BlockView,
    block: BlockView,
    target: Seq<u8>,
    now: u64,
)
    requires
        current_job(job, now) is Ok,
    ensures
        ({
            let standing = current_job(job, now)->Ok_0;
            let is_job = block.transactions == standing.transactions
                && block.meta.block_pow_difficulty == standing.meta.block_pow_difficulty
                && block.meta.tx_pow_difficulty == standing.meta.tx_pow_difficulty
                && block.meta.previous_block == standing.meta.previous_block
                && block.meta.merkle_tree_root == standing.meta.merkle_tree_root
                && block.meta.address_inclusion_filter == standing.meta.address_inclusion_filter;
            let above = be_value(block.meta.hash->0) > be_value(target);
            let r = share_verdict(job, block, target, now);
            &&& block.meta.hash is None ==> r == Err::<u64, ShareError>(ShareError::BlockIncomplete)
            &&& block.meta.hash is Some && !is_job ==> r == Err::<u64, ShareError>(
                ShareError::NotTheJob,
            )
            &&& block.meta.hash is Some && is_job && above ==> r == Err::<u64, ShareError>(
                ShareError::PowDifficultyIncorrect,
            )
            &&& block.meta.hash is Some && is_job && !above ==> r is Ok && r->Ok_0 == difficulty_of(
                be_value(block.meta.hash->0),
            )
        }),
{
    law_metadata_agree_by_field(current_job(job, now)->Ok_0.meta, block.meta);
}

/// Where the job cannot stand, a block with a hash is turned down for that.
pub proof fn law_a_job_that_cannot_stand_takes_no_share(
    job: BlockView,
    block: BlockView,
    target: Seq<u8>,
    now: u64,
)
    requires
        current_job(job, now) is Err,
    ensures
        block.meta.hash is Some ==> share_verdict(job, block, target, now) == Err::<u64, ShareError>(
            current_job(job, now)->Err_0,
        ),
        block.meta.hash is None ==> share_verdict(job, block, target, now) == Err::<u64, ShareError>(
            ShareError::BlockIncomplete,
        ),
{
}

/// A block meets the network exactly where it carries the network's two
/// difficulties and its hash, as a number of all its bytes, is at most the eased
/// target; with other difficulties it is a mismatch, whatever its hash.
pub proof fn law_a_block_meets_the_network_by_its_whole_hash(
    block: BlockView,
    block_difficulty: Seq<u8>,
    tx_difficulty: Seq<u8>,
    eased_target: Seq<u8>,
)
    ensures
        ({
            let r = network_verdict(block, block_difficulty, tx_difficulty, eased_target);
            let mined_for = block.meta.block_pow_difficulty == block_difficulty
                && block.meta.tx_pow_difficulty == tx_difficulty;
            let hash = (block.meta.hash->0).fold_left(0int, |read: int, b: u8| read * 256 + b);
            let limit = eased_target.fold_left(0int, |read: int, b: u8| read * 256 + b);
            &&& r is Ok <==> mined_for && hash <= limit
            &&& r == Err::<(), DifficultyError>(DifficultyError::DifficultyMismatch) <==> !mined_for
            &&& r == Err::<(), DifficultyError>(DifficultyError::BlockPowDifficultyIncorrect) <==>
                mined_for && hash > limit
        }),
{
    law_big_endian(block.meta.hash->0);
    law_big_endian(eased_target);
}

} // verus!
