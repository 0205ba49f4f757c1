//! Work accounting: what each miner is owed credit for, which shares were
//! already counted, and what was paid out.
//!
//! The database has four trees. `shares` maps a miner's key to the miner's
//! unpaid work, `seen` maps a block hash to the time it was first submitted,
//! `payouts` and `metadata` map record ids to serialised records. This module
//! decides what is written to them; a `ShareStore` is the work of all miners as
//! it is kept in memory.

use vstd::prelude::*;

use crate::bytes::{
    be_value, exp, from_le_bytes, law_little_endian, le_value, lemma_be_value_first,
    lemma_exp_literals, lemma_exp_monotonic, lemma_le_value_bound, same_bytes, to_be_bytes,
    to_le_bytes,
};
use crate::table::{
    copy_all, distinct_firsts, lemma_distinct_prefix, lemma_pairs_map, lemma_pairs_push, lemma_pairs_remove,
    lemma_pairs_update, occurs, pairs_map,
};

verus! {

/// Seconds after which a submitted hash is forgotten.
pub const SHARE_EXPIRY_SECS: u64 = 3600;

/// Seconds between two passes over the submitted hashes.
pub const EXPIRY_INTERVAL_SECS: u64 = 300;

/// One accepted share.
#[derive(Clone, Copy, Debug)]
pub struct ShareRecord {
    pub miner: [u8; 32],
    pub block_height: u64,
    pub block_hash: [u8; 32],
    pub timestamp: u64,
    /// Work credited for this share.
    pub work_units: u128,
}

/// One payout and what it paid to whom.
#[derive(Clone, Debug)]
pub struct PayoutRecord {
    pub block_height: u64,
    pub block_hash: [u8; 32],
    pub timestamp: u64,
    pub total_reward: u64,
    pub pool_fee: u64,
    pub payouts: Vec<MinerPayout>,
    pub deferred: Vec<[u8; 32]>,
}

/// What one miner was paid.
#[derive(Clone, Copy, Debug)]
pub struct MinerPayout {
    pub miner: [u8; 32],
    /// Work credited, not a number of shares.
    pub work: u128,
    pub amount: u64,
}

/// A miner's unpaid work.
#[derive(Clone, Copy, Debug)]
pub struct WorkEntry {
    pub miner: [u8; 32],
    pub work: u128,
}

/// A key and a value of a tree.
#[derive(Clone, Debug)]
pub struct TreeEntry {
    pub key: Vec<u8>,
    pub value: Vec<u8>,
}

/// Miners and their work as pairs.
pub open spec fn work_pairs(s: Seq<WorkEntry>) -> Seq<(Seq<u8>, u128)> {
    s.map_values(|e: WorkEntry| (e.miner@, e.work))
}

/// No miner occurs twice.
pub open spec fn distinct_miners(s: Seq<WorkEntry>) -> bool {
    distinct_firsts(work_pairs(s))
}

/// Miners' work by key.
pub open spec fn work_map(s: Seq<WorkEntry>) -> Map<Seq<u8>, u128> {
    pairs_map(work_pairs(s))
}

/// The work of all miners together.
pub open spec fn total_of(m: Map<Seq<u8>, u128>) -> nat
    decreases m.dom().len(),
    when m.dom().finite()
{
    if m.dom().len() == 0 {
        0
    } else {
        let k = m.dom().choose();
        m[k] as nat + total_of(m.remove(k))
    }
}

/// The order in which work is added up does not matter.
pub proof fn lemma_total_remove(m: Map<Seq<u8>, u128>, k: Seq<u8>)
    requires
        m.dom().finite(),
        m.dom().contains(k),
    ensures
        total_of(m) == m[k] as nat + total_of(m.remove(k)),
    decreases m.dom().len(),
{
    let c = m.dom().choose();
    assert(m.dom().len() > 0);
    assert(m.dom().contains(c));
    if c != k {
        let mc = m.remove(c);
        let mk = m.remove(k);
        lemma_total_remove(mc, k);
        lemma_total_remove(mk, c);
        assert(mc.remove(k) =~= mk.remove(c));
    }
}

/// Adding a miner's work adds to the total.
pub proof fn lemma_total_insert(m: Map<Seq<u8>, u128>, k: Seq<u8>, v: u128)
    requires
        m.dom().finite(),
        !m.dom().contains(k),
    ensures
        total_of(m.insert(k, v)) == total_of(m) + v,
{
    lemma_total_remove(m.insert(k, v), k);
    assert(m.insert(k, v).remove(k) =~= m);
}

/// The unpaid work of all miners, by key.
pub struct ShareStore {
    entries: Vec<WorkEntry>,
}

impl View for ShareStore {
    type V = Map<Seq<u8>, u128>;

    closed spec fn view(&self) -> Map<Seq<u8>, u128> {
        work_map(self.entries@)
    }
}

impl ShareStore {
    /// No miner is listed twice.
    #[verifier::type_invariant]
    spec fn wf(self) -> bool {
        distinct_miners(self.entries@)
    }

    /// The position of a miner in the list, or the length of the list.
    fn position(&self, miner: &[u8; 32]) -> (i: usize)
        ensures
            i <= self.entries@.len(),
            i < self.entries@.len() ==> self.entries@[i as int].miner@ == miner@,
            i == self.entries@.len() ==> !occurs(work_pairs(self.entries@), miner@),
    {
        let mut i: usize = 0;
        while i < self.entries.len()
            invariant
                i <= self.entries@.len(),
                forall|j: int|
                    0 <= j < i ==> (#[trigger] work_pairs(self.entries@)[j]).0 != miner@,
            decreases self.entries.len() - i,
        {
            if same_bytes(&self.entries[i].miner, miner) {
                return i;
            }
            i = i + 1;
        }
        i
    }

    /// A store without work.
    pub fn empty() -> (s: ShareStore)
        ensures
            s@ == Map::<Seq<u8>, u128>::empty(),
    {
        ShareStore { entries: Vec::new() }
    }

    /// Sets a miner's work.
    fn set(&mut self, miner: &[u8; 32], work: u128)
        ensures
            final(self)@ == old(self)@.insert(miner@, work),
    {
        proof {
            use_type_invariant(&*self);
        }
        let i = self.position(miner);
        let ghost before = work_pairs(self.entries@);
        let mut entries: Vec<WorkEntry> = Vec::new();
        std::mem::swap(&mut entries, &mut self.entries);
        if i < entries.len() {
            entries.set(i, WorkEntry { miner: *miner, work });
            proof {
                lemma_pairs_update(before, i as int, work);
                assert(work_pairs(entries@) =~= before.update(i as int, (miner@, work)));
            }
        } else {
            entries.push(WorkEntry { miner: *miner, work });
            proof {
                lemma_pairs_push(before, miner@, work);
                assert(work_pairs(entries@) =~= before.push((miner@, work)));
            }
        }
        self.entries = entries;
    }

    /// Removes a miner's work.
    fn remove(&mut self, miner: &[u8; 32])
        ensures
            final(self)@ == old(self)@.remove(miner@),
    {
        proof {
            use_type_invariant(&*self);
        }
        let i = self.position(miner);
        let ghost before = work_pairs(self.entries@);
        if i < self.entries.len() {
            let mut entries: Vec<WorkEntry> = Vec::new();
            std::mem::swap(&mut entries, &mut self.entries);
            entries.remove(i);
            proof {
                lemma_pairs_remove(before, i as int);
                assert(work_pairs(entries@) =~= before.remove(i as int));
            }
            self.entries = entries;
        } else {
            proof {
                lemma_pairs_map(before);
                assert(pairs_map(before).remove(miner@) =~= pairs_map(before));
            }
        }
    }

    /// The store as it is loaded from the `shares` tree. Entries whose key is
    /// not a key, or whose value is not a number of 8 or 16 bytes, are passed
    /// over.
    pub fn open(shares: &Vec<TreeEntry>) -> (s: ShareStore)
        ensures
            s@ == loaded(shares@),
    {
        let mut s = ShareStore::empty();
        let mut i: usize = 0;
        while i < shares.len()
            invariant
                i <= shares@.len(),
                s@ == loaded(shares@.take(i as int)),
            decreases shares.len() - i,
        {
            let e = &shares[i];
            assert(shares@.take(i + 1).drop_last() =~= shares@.take(i as int));
            if e.key.len() == 32 {
                if let Some(work) = parse_work(&e.value) {
                    let key = to_key(&e.key);
                    s.set(&key, work);
                }
            }
            i = i + 1;
        }
        assert(shares@.take(i as int) =~= shares@);
        s
    }

    /// What awarding a share writes, where `seen` says whether the `seen` tree
    /// holds the block hash, and `stored` is what the `shares` tree holds for the
    /// miner. A share that was already counted is a duplicate and earns nothing.
    pub fn award_share(
        miner: &[u8; 32],
        block_height: u64,
        block_hash: &[u8; 32],
        work_units: u128,
        seen: bool,
        stored: &Option<Vec<u8>>,
        now: u64,
    ) -> (r: Option<Award>)
        ensures
            r is None <==> seen,
            r is Some ==> awards(
                r->0,
                miner@,
                block_height,
                block_hash@,
                work_units,
                stored_bytes(*stored),
                now,
            ),
    {
        if seen {
            return None;
        }
        let previous: u128 = match stored {
            Some(value) => match parse_work(value) {
                Some(work) => work,
                None => 0,
            },
            None => 0,
        };
        let new_work = previous.saturating_add(work_units);
        proof {
            lemma_exp_literals();
        }
        Some(
            Award {
                record: ShareRecord {
                    miner: *miner,
                    block_height,
                    block_hash: *block_hash,
                    timestamp: now,
                    work_units,
                },
                new_work,
                work_value: to_le_bytes(new_work, 16),
                seen_value: to_le_bytes(now as u128, 8),
            },
        )
    }

    /// Takes over an award that was written to the database.
    pub fn credit(&mut self, award: &Award)
        ensures
            final(self)@ == old(self)@.insert(award.record.miner@, award.new_work),
    {
        self.set(&award.record.miner, award.new_work);
    }

    /// A snapshot of all miners' unpaid work.
    pub fn get_work(&self) -> (r: Vec<WorkEntry>)
        ensures
            distinct_miners(r@),
            work_map(r@) == self@,
    {
        proof {
            use_type_invariant(self);
        }
        copy_all(&self.entries)
    }

    /// The unpaid work of all miners together.
    pub fn total_work(&self) -> (r: u128)
        requires
            total_of(self@) <= u128::MAX,
        ensures
            r == total_of(self@),
    {
        proof {
            use_type_invariant(self);
        }
        total_work_of(&self.entries)
    }

    /// The unpaid work of all miners together, where it can be held.
    pub fn checked_total_work(&self) -> (r: Option<u128>)
        ensures
            r is Some <==> total_of(self@) <= u128::MAX,
            r is Some ==> r->0 == total_of(self@),
    {
        proof {
            use_type_invariant(self);
        }
        checked_total_of(&self.entries)
    }

    /// A miner's unpaid work; none for a miner that is not known.
    pub fn miner_work(&self, miner: &[u8; 32]) -> (r: u128)
        ensures
            r == (if self@.dom().contains(miner@) {
                self@[miner@]
            } else {
                0
            }),
    {
        let i = self.position(miner);
        proof {
            use_type_invariant(self);
            lemma_pairs_map(work_pairs(self.entries@));
            if i < self.entries@.len() {
                assert(work_pairs(self.entries@)[i as int].0 == miner@);
            }
        }
        if i < self.entries.len() {
            self.entries[i].work
        } else {
            0
        }
    }

    /// What recording a payout writes, to be applied as one: the record, and the
    /// removal of the paid miners from the `shares` tree.
    pub fn record_payout_and_clear(record: PayoutRecord, paid_miners: &Vec<[u8; 32]>) -> (r:
        PayoutBatch)
        ensures
            r.record == record,
            r.cleared@ == paid_miners@,
    {
        PayoutBatch { record, cleared: copy_all(paid_miners) }
    }

    /// Takes over a payout that was written to the database: the paid miners'
    /// work is gone.
    pub fn clear(&mut self, batch: &PayoutBatch)
        ensures
            final(self)@ == old(self)@.remove_keys(keys_of(batch.cleared@)),
    {
        let mut i: usize = 0;
        let ghost before = self@;
        assert(before.remove_keys(keys_of(batch.cleared@.take(0))) =~= before);
        while i < batch.cleared.len()
            invariant
                i <= batch.cleared@.len(),
                self@ == before.remove_keys(keys_of(batch.cleared@.take(i as int))),
            decreases batch.cleared.len() - i,
        {
            let ghost done = batch.cleared@.take(i as int);
            let ghost next = batch.cleared@.take(i + 1);
            self.remove(&batch.cleared[i]);
            proof {
                let k = batch.cleared@[i as int]@;
                assert(next =~= done.push(batch.cleared@[i as int]));
                assert forall|x: Seq<u8>| keys_of(next).contains(x) <==> keys_of(done).contains(x)
                    || x == k by {
                    if keys_of(done).contains(x) {
                        let j = choose|j: int| 0 <= j < done.len() && (#[trigger] done[j])@ == x;
                        assert(next[j]@ == x);
                    }
                    if x == k {
                        assert(next[i as int]@ == x);
                    }
                    if keys_of(next).contains(x) {
                        let j = choose|j: int| 0 <= j < next.len() && (#[trigger] next[j])@ == x;
                        if j < i {
                            assert(done[j]@ == x);
                        }
                    }
                }
                assert(before.remove_keys(keys_of(done)).remove(k) =~= before.remove_keys(
                    keys_of(next),
                ));
            }
            i = i + 1;
        }
        assert(batch.cleared@.take(i as int) =~= batch.cleared@);
    }

    /// The values of the `payouts` tree that were written last, the newest first;
    /// see `newest`.
    pub fn recent_payouts(payouts: &Vec<TreeEntry>, limit: usize) -> (r: Vec<Vec<u8>>)
        ensures
            keys_view(r@) == newest(values_view(payouts@), limit as nat),
    {
        let count: usize = if limit < payouts.len() {
            limit
        } else {
            payouts.len()
        };
        let mut r: Vec<Vec<u8>> = Vec::new();
        let mut i: usize = 0;
        let ghost wanted = newest(values_view(payouts@), limit as nat);
        while i < count
            invariant
                i <= count <= payouts@.len(),
                count == wanted.len(),
                wanted == newest(values_view(payouts@), limit as nat),
                keys_view(r@) == wanted.take(i as int),
            decreases count - i,
        {
            let e = &payouts[payouts.len() - 1 - i];
            let ghost before = r@;
            r.push(copy_all(&e.value));
            proof {
                assert(e.value@ == wanted[i as int]);
                assert(keys_view(r@) =~= keys_view(before).push(e.value@));
                assert(wanted.take(i + 1) =~= wanted.take(i as int).push(wanted[i as int]));
            }
            i = i + 1;
        }
        assert(wanted.take(i as int) =~= wanted);
        r
    }

    /// The keys of the `seen` tree that are old enough to be forgotten.
    pub fn expire_seen(seen: &Vec<TreeEntry>, now: u64) -> (r: Vec<Vec<u8>>)
        ensures
            keys_view(r@) == stale_keys(seen@, now),
    {
        let cutoff: u64 = now.saturating_sub(SHARE_EXPIRY_SECS);
        let mut r: Vec<Vec<u8>> = Vec::new();
        let mut i: usize = 0;
        assert(keys_view(r@) =~= stale_keys(seen@.take(0), now));
        while i < seen.len()
            invariant
                i <= seen@.len(),
                cutoff == (if now >= SHARE_EXPIRY_SECS {
                    now - SHARE_EXPIRY_SECS
                } else {
                    0
                }),
                keys_view(r@) == stale_keys(seen@.take(i as int), now),
            decreases seen.len() - i,
        {
            let e = &seen[i];
            let ghost before = r@;
            assert(seen@.take(i + 1).drop_last() =~= seen@.take(i as int));
            if e.value.len() == 8 && from_le_bytes(&e.value) < cutoff as u128 {
                r.push(copy_all(&e.key));
                assert(keys_view(r@) =~= keys_view(before).push(e.key@));
            }
            i = i + 1;
        }
        assert(seen@.take(i as int) =~= seen@);
        r
    }
}

/// What awarding a share writes.
#[derive(Clone, Debug)]
pub struct Award {
    /// For the `metadata` tree, under a new record id.
    pub record: ShareRecord,
    /// The miner's unpaid work with this share.
    pub new_work: u128,
    /// For the `shares` tree, under the miner's key.
    pub work_value: Vec<u8>,
    /// For the `seen` tree, under the block hash.
    pub seen_value: Vec<u8>,
}

/// What recording a payout writes.
#[derive(Clone, Debug)]
pub struct PayoutBatch {
    /// For the `payouts` tree, under a new record id.
    pub record: PayoutRecord,
    /// To be removed from the `shares` tree.
    pub cleared: Vec<[u8; 32]>,
}

/// The work that a value of the `shares` tree spells: 16 bytes, or 8 in an
/// older database.
pub open spec fn decode_work(value: Seq<u8>) -> Option<u128> {
    if value.len() == 16 || value.len() == 8 {
        Some(le_value(value) as u128)
    } else {
        None
    }
}

fn parse_work(value: &Vec<u8>) -> (r: Option<u128>)
    ensures
        r == decode_work(value@),
        r is Some ==> r->0 == le_value(value@),
{
    if value.len() == 16 || value.len() == 8 {
        Some(from_le_bytes(value))
    } else {
        None
    }
}

/// A byte string of 32 bytes as a key.
fn to_key(v: &Vec<u8>) -> (key: [u8; 32])
    requires
        v@.len() == 32,
    ensures
        key@ == v@,
{
    let mut key = [0u8; 32];
    let mut i: usize = 0;
    while i < 32
        invariant
            i <= 32,
            v@.len() == 32,
            forall|j: int| 0 <= j < i ==> key@[j] == v@[j],
        decreases 32 - i,
    {
        key[i] = v[i];
        i = i + 1;
    }
    assert(key@ =~= v@);
    key
}

/// The work that a list of entries of the `shares` tree holds.
pub open spec fn loaded(shares: Seq<TreeEntry>) -> Map<Seq<u8>, u128>
    decreases shares.len(),
{
    if shares.len() == 0 {
        Map::empty()
    } else {
        let rest = loaded(shares.drop_last());
        let e = shares.last();
        if e.key@.len() == 32 && decode_work(e.value@) is Some {
            rest.insert(e.key@, decode_work(e.value@)->0)
        } else {
            rest
        }
    }
}

/// The bytes of an optional value.
pub open spec fn stored_bytes(v: Option<Vec<u8>>) -> Option<Seq<u8>> {
    match v {
        Some(v) => Some(v@),
        None => None,
    }
}

/// The work that the `shares` tree holds for a miner: none where it holds
/// nothing, or nothing that spells work.
pub open spec fn work_in(stored: Option<Seq<u8>>) -> nat {
    match stored {
        Some(value) => match decode_work(value) {
            Some(work) => work as nat,
            None => 0,
        },
        None => 0,
    }
}

/// `a`, or the largest 128-bit number where `a` is larger.
pub open spec fn saturated(a: nat) -> nat {
    if a > u128::MAX {
        u128::MAX as nat
    } else {
        a
    }
}

/// `a` is what awarding the share writes, where the `shares` tree holds `stored`
/// for the miner.
pub open spec fn awards(
    a: Award,
    miner: Seq<u8>,
    block_height: u64,
    block_hash: Seq<u8>,
    work_units: u128,
    stored: Option<Seq<u8>>,
    now: u64,
) -> bool {
    &&& a.record.miner@ == miner
    &&& a.record.block_height == block_height
    &&& a.record.block_hash@ == block_hash
    &&& a.record.timestamp == now
    &&& a.record.work_units == work_units
    &&& a.new_work == saturated(work_in(stored) + work_units as nat)
    &&& a.work_value@.len() == 16
    &&& le_value(a.work_value@) == a.new_work
    &&& a.seen_value@.len() == 8
    &&& le_value(a.seen_value@) == now
}

/// The work of a list of distinct miners together, where it can be held.
pub fn checked_total_of(work: &Vec<WorkEntry>) -> (r: Option<u128>)
    requires
        distinct_miners(work@),
    ensures
        r is Some <==> total_of(work_map(work@)) <= u128::MAX,
        r is Some ==> r->0 == total_of(work_map(work@)),
{
    let mut r: u128 = 0;
    let mut i: usize = 0;
    while i < work.len()
        invariant
            i <= work@.len(),
            distinct_miners(work@),
            r == total_of(work_map(work@.take(i as int))),
        decreases work.len() - i,
    {
        proof {
            lemma_total_take(work@, i + 1);
            lemma_total_step(work@, i as int);
        }
        match r.checked_add(work[i].work) {
            Some(sum) => {
                r = sum;
            },
            None => return None,
        }
        i = i + 1;
    }
    assert(work@.take(i as int) =~= work@);
    Some(r)
}

/// The work of a list of distinct miners together.
pub fn total_work_of(work: &Vec<WorkEntry>) -> (r: u128)
    requires
        distinct_miners(work@),
        total_of(work_map(work@)) <= u128::MAX,
    ensures
        r == total_of(work_map(work@)),
{
    checked_total_of(work).unwrap()
}

/// One more miner adds that miner's work to the total.
proof fn lemma_total_step(s: Seq<WorkEntry>, i: int)
    requires
        distinct_miners(s),
        0 <= i < s.len(),
    ensures
        total_of(work_map(s.take(i + 1))) == total_of(work_map(s.take(i))) + s[i].work,
{
    let p = work_pairs(s);
    let t = work_pairs(s.take(i));
    assert(t =~= p.take(i));
    assert(work_pairs(s.take(i + 1)) =~= t.push(p[i]));
    lemma_distinct_prefix(p, i);
    lemma_pairs_map(t);
    if occurs(t, p[i].0) {
        let j = choose|j: int| 0 <= j < t.len() && (#[trigger] t[j]).0 == p[i].0;
        assert(p[j].0 != p[i].0);
    }
    lemma_pairs_push(t, p[i].0, p[i].1);
    lemma_total_insert(pairs_map(t), p[i].0, p[i].1);
}

/// Some of the miners have no more work than all of them.
proof fn lemma_total_take(s: Seq<WorkEntry>, i: int)
    requires
        distinct_miners(s),
        0 <= i <= s.len(),
    ensures
        total_of(work_map(s.take(i))) <= total_of(work_map(s)),
    decreases s.len() - i,
{
    if i < s.len() {
        lemma_total_take(s, i + 1);
        lemma_total_step(s, i);
    } else {
        assert(s.take(i) =~= s);
    }
}

/// The keys in a list of arrays.
pub open spec fn keys_of(s: Seq<[u8; 32]>) -> Set<Seq<u8>> {
    Set::new(|k: Seq<u8>| exists|i: int| 0 <= i < s.len() && (#[trigger] s[i])@ == k)
}

/// The bytes of a list of byte strings.
pub open spec fn keys_view(s: Seq<Vec<u8>>) -> Seq<Seq<u8>> {
    s.map_values(|k: Vec<u8>| k@)
}

/// The values of a list of entries.
pub open spec fn values_view(s: Seq<TreeEntry>) -> Seq<Seq<u8>> {
    s.map_values(|e: TreeEntry| e.value@)
}

/// The last of a list, at most `limit` of them, and the very last one first.
pub open spec fn newest<T>(s: Seq<T>, limit: nat) -> Seq<T> {
    Seq::new(
        if limit < s.len() {
            limit
        } else {
            s.len()
        },
        |i: int| s[s.len() - 1 - i],
    )
}

/// A value of the `seen` tree is a time more than an hour before `now`.
pub open spec fn is_stale(value: Seq<u8>, now: u64) -> bool {
    value.len() == 8 && le_value(value) + SHARE_EXPIRY_SECS < now
}

/// The keys of a list of entries of the `seen` tree that are stale, in order.
pub open spec fn stale_keys(seen: Seq<TreeEntry>, now: u64) -> Seq<Seq<u8>>
    decreases seen.len(),
{
    if seen.len() == 0 {
        Seq::empty()
    } else {
        let rest = stale_keys(seen.drop_last(), now);
        if is_stale(seen.last().value@, now) {
            rest.push(seen.last().key@)
        } else {
            rest
        }
    }
}

/// The contents of the database trees and the work that is kept in memory. The
/// payouts are listed in the order of their ids.
#[verifier::ext_equal]
pub struct StoreState {
    pub shares: Map<Seq<u8>, Seq<u8>>,
    pub seen: Map<Seq<u8>, Seq<u8>>,
    pub payouts: Seq<PayoutRecord>,
    pub cache: Map<Seq<u8>, u128>,
}

/// The work that the `shares` tree holds, by miner.
pub open spec fn work_of_tree(shares: Map<Seq<u8>, Seq<u8>>) -> Map<Seq<u8>, u128> {
    Map::new(
        |k: Seq<u8>| shares.dom().contains(k) && k.len() == 32 && decode_work(shares[k]) is Some,
        |k: Seq<u8>| decode_work(shares[k])->0,
    )
}

/// What a tree holds under a key.
pub open spec fn lookup(tree: Map<Seq<u8>, Seq<u8>>, key: Seq<u8>) -> Option<Seq<u8>> {
    if tree.dom().contains(key) {
        Some(tree[key])
    } else {
        None
    }
}

/// Something that changes the store: a share that is counted, or a payout. A
/// duplicate changes nothing.
pub enum StoreStep {
    Award(Award),
    Payout(PayoutBatch),
}

/// The records of the payouts among the steps, in their order.
pub open spec fn recorded(steps: Seq<StoreStep>) -> Seq<PayoutRecord>
    decreases steps.len(),
{
    if steps.len() == 0 {
        Seq::empty()
    } else {
        match steps.last() {
            StoreStep::Award(_) => recorded(steps.drop_last()),
            StoreStep::Payout(b) => recorded(steps.drop_last()).push(b.record),
        }
    }
}

/// A share with this hash is counted among the steps.
pub open spec fn is_counted(steps: Seq<StoreStep>, hash: Seq<u8>) -> bool
    decreases steps.len(),
{
    steps.len() > 0 && (is_counted(steps.drop_last(), hash) || (steps.last() matches
        StoreStep::Award(a) && a.record.block_hash@ == hash))
}

impl StoreState {
    /// The work in memory is the work in the database.
    pub open spec fn in_sync(self) -> bool {
        self.cache == work_of_tree(self.shares)
    }

    /// After an award has been written and taken over.
    pub open spec fn awarded(self, a: Award) -> StoreState {
        StoreState {
            shares: self.shares.insert(a.record.miner@, a.work_value@),
            seen: self.seen.insert(a.record.block_hash@, a.seen_value@),
            cache: self.cache.insert(a.record.miner@, a.new_work),
            ..self
        }
    }

    /// After a payout has been written and taken over.
    pub open spec fn paid(self, b: PayoutBatch) -> StoreState {
        StoreState {
            shares: self.shares.remove_keys(keys_of(b.cleared@)),
            payouts: self.payouts.push(b.record),
            cache: self.cache.remove_keys(keys_of(b.cleared@)),
            ..self
        }
    }

    /// After the store was closed and opened again: the work in memory is what the
    /// database holds.
    pub open spec fn reopened(self) -> StoreState {
        StoreState { cache: work_of_tree(self.shares), ..self }
    }

    /// The step is one that the store takes: an award is of a share that was not
    /// counted before, on what the database holds for the miner.
    pub open spec fn takes(self, step: StoreStep) -> bool {
        match step {
            StoreStep::Award(a) => {
                &&& !self.seen.dom().contains(a.record.block_hash@)
                &&& awards(
                    a,
                    a.record.miner@,
                    a.record.block_height,
                    a.record.block_hash@,
                    a.record.work_units,
                    lookup(self.shares, a.record.miner@),
                    a.record.timestamp,
                )
            },
            StoreStep::Payout(_) => true,
        }
    }

    /// After a step.
    pub open spec fn stepped(self, step: StoreStep) -> StoreState {
        match step {
            StoreStep::Award(a) => self.awarded(a),
            StoreStep::Payout(b) => self.paid(b),
        }
    }

    /// After a list of steps.
    pub open spec fn after(self, steps: Seq<StoreStep>) -> StoreState
        decreases steps.len(),
    {
        if steps.len() == 0 {
            self
        } else {
            self.after(steps.drop_last()).stepped(steps.last())
        }
    }

    /// The store takes all steps, one after the other.
    pub open spec fn takes_all(self, steps: Seq<StoreStep>) -> bool
        decreases steps.len(),
    {
        steps.len() == 0 || (self.takes_all(steps.drop_last()) && self.after(
            steps.drop_last(),
        ).takes(steps.last()))
    }

    /// After stale hashes have been forgotten at time `now`.
    pub open spec fn expired(self, now: u64) -> StoreState {
        StoreState {
            seen: self.seen.remove_keys(
                Set::new(
                    |k: Seq<u8>| self.seen.dom().contains(k) && is_stale(self.seen[k], now),
                ),
            ),
            ..self
        }
    }
}

/// The work in memory stays the work in the database when a share is awarded
/// on what the database holds for the miner.
pub proof fn law_award_keeps_cache_in_sync(
    s: StoreState,
    a: Award,
    miner: Seq<u8>,
    block_height: u64,
    block_hash: Seq<u8>,
    work_units: u128,
    now: u64,
)
    requires
        s.in_sync(),
        miner.len() == 32,
        awards(a, miner, block_height, block_hash, work_units, lookup(s.shares, miner), now),
    ensures
        s.awarded(a).in_sync(),
{
    assert(s.awarded(a).cache =~= work_of_tree(s.awarded(a).shares));
}

/// An award adds the share's work to the miner's work, up to the largest number
/// that can be held, and leaves every other miner's work alone.
pub proof fn law_award_credits_the_miner_alone(
    s: StoreState,
    a: Award,
    miner: Seq<u8>,
    block_height: u64,
    block_hash: Seq<u8>,
    work_units: u128,
    now: u64,
    other: Seq<u8>,
)
    requires
        s.in_sync(),
        miner.len() == 32,
        awards(a, miner, block_height, block_hash, work_units, lookup(s.shares, miner), now),
        other != miner,
    ensures
        s.awarded(a).cache.dom().contains(miner),
        s.cache.dom().contains(miner) ==> s.awarded(a).cache[miner] == saturated(
            s.cache[miner] as nat + work_units as nat,
        ),
        !s.cache.dom().contains(miner) ==> s.awarded(a).cache[miner] == work_units,
        s.awarded(a).cache.dom().contains(other) == s.cache.dom().contains(other),
        s.cache.dom().contains(other) ==> s.awarded(a).cache[other] == s.cache[other],
{
}

/// The total grows by exactly the work of the awarded share where the miner's
/// work can hold it.
pub proof fn law_award_grows_the_total(
    s: StoreState,
    a: Award,
    miner: Seq<u8>,
    block_height: u64,
    block_hash: Seq<u8>,
    work_units: u128,
    now: u64,
)
    requires
        s.in_sync(),
        s.cache.dom().finite(),
        miner.len() == 32,
        awards(a, miner, block_height, block_hash, work_units, lookup(s.shares, miner), now),
        work_in(lookup(s.shares, miner)) + work_units <= u128::MAX,
    ensures
        total_of(s.awarded(a).cache) == total_of(s.cache) + work_units,
{
    let rest = s.cache.remove(miner);
    let after = s.awarded(a).cache;
    lemma_total_remove(after, miner);
    assert(after.remove(miner) =~= rest);
    if s.cache.dom().contains(miner) {
        lemma_total_remove(s.cache, miner);
    } else {
        assert(rest =~= s.cache);
    }
}

/// A share that was awarded is a duplicate from then on, as long as its hash is
/// not forgotten; no other share becomes one.
pub proof fn law_awarded_share_is_a_duplicate(s: StoreState, a: Award, other: Seq<u8>)
    requires
        other != a.record.block_hash@,
    ensures
        s.awarded(a).seen.dom().contains(a.record.block_hash@),
        s.awarded(a).seen.dom().contains(other) == s.seen.dom().contains(other),
{
}

/// An awarded share stays a duplicate for an hour, whatever expires meanwhile,
/// and is forgotten after that.
pub proof fn law_duplicates_are_refused_for_an_hour(
    s: StoreState,
    a: Award,
    miner: Seq<u8>,
    block_height: u64,
    block_hash: Seq<u8>,
    work_units: u128,
    stored: Option<Seq<u8>>,
    awarded_at: u64,
    now: u64,
)
    requires
        awards(a, miner, block_height, block_hash, work_units, stored, awarded_at),
    ensures
        s.awarded(a).expired(now).seen.dom().contains(block_hash) <==> now <= awarded_at
            + SHARE_EXPIRY_SECS,
{
}

/// Forgetting hashes touches no work.
pub proof fn law_expiry_touches_no_work(s: StoreState, now: u64)
    ensures
        s.expired(now).shares == s.shares,
        s.expired(now).cache == s.cache,
        s.in_sync() ==> s.expired(now).in_sync(),
{
}

/// A payout clears the paid miners' work, in memory as in the database, and
/// leaves every other miner's work and the duplicate detection alone; together
/// with that its record becomes the newest one, and the older ones are kept.
pub proof fn law_payout_clears_the_paid_alone(
    s: StoreState,
    b: PayoutBatch,
    miner: Seq<u8>,
    limit: nat,
)
    requires
        s.in_sync(),
    ensures
        s.paid(b).in_sync(),
        s.paid(b).seen == s.seen,
        s.paid(b).cache == s.cache.remove_keys(keys_of(b.cleared@)),
        newest(s.paid(b).payouts, 1) == seq![b.record],
        newest(s.paid(b).payouts, limit + 1) == seq![b.record] + newest(s.payouts, limit),
        keys_of(b.cleared@).contains(miner) ==> !s.paid(b).cache.dom().contains(miner),
        !keys_of(b.cleared@).contains(miner) ==> {
            &&& s.paid(b).cache.dom().contains(miner) == s.cache.dom().contains(miner)
            &&& s.cache.dom().contains(miner) ==> s.paid(b).cache[miner] == s.cache[miner]
        },
{
    assert(s.paid(b).cache =~= work_of_tree(s.paid(b).shares));
    assert(newest(s.paid(b).payouts, 1) =~= seq![b.record]);
    assert(newest(s.paid(b).payouts, limit + 1) =~= seq![b.record] + newest(s.payouts, limit));
}

/// Whatever shares are counted and payouts made, the work in memory stays the
/// work in the database, every payout is kept in its order, and every share that
/// was counted is a duplicate.
pub proof fn law_any_history_is_kept(s: StoreState, steps: Seq<StoreStep>, hash: Seq<u8>)
    requires
        s.in_sync(),
        s.takes_all(steps),
    ensures
        s.after(steps).in_sync(),
        s.after(steps).payouts == s.payouts + recorded(steps),
        s.after(steps).seen.dom().contains(hash) <==> s.seen.dom().contains(hash) || is_counted(
            steps,
            hash,
        ),
    decreases steps.len(),
{
    if steps.len() > 0 {
        let before = s.after(steps.drop_last());
        law_any_history_is_kept(s, steps.drop_last(), hash);
        match steps.last() {
            StoreStep::Award(a) => {
                law_award_keeps_cache_in_sync(
                    before,
                    a,
                    a.record.miner@,
                    a.record.block_height,
                    a.record.block_hash@,
                    a.record.work_units,
                    a.record.timestamp,
                );
            },
            StoreStep::Payout(b) => {
                law_payout_clears_the_paid_alone(before, b, hash, 0);
                assert(s.after(steps).payouts =~= s.payouts + recorded(steps));
            },
        }
    } else {
        assert(s.payouts + recorded(steps) =~= s.payouts);
    }
}

/// The contents of a list of entries of a tree.
pub open spec fn tree_of(entries: Seq<TreeEntry>) -> Map<Seq<u8>, Seq<u8>>
    decreases entries.len(),
{
    if entries.len() == 0 {
        Map::empty()
    } else {
        tree_of(entries.drop_last()).insert(entries.last().key@, entries.last().value@)
    }
}

/// No key occurs twice, as in a tree.
pub open spec fn distinct_keys(entries: Seq<TreeEntry>) -> bool {
    forall|i: int, j: int|
        0 <= i < j < entries.len() ==> (#[trigger] entries[i]).key@ != (#[trigger] entries[j]).key@
}

proof fn lemma_tree_of(entries: Seq<TreeEntry>)
    ensures
        forall|k: Seq<u8>| #[trigger]
            tree_of(entries).dom().contains(k) ==> exists|i: int|
                0 <= i < entries.len() && (#[trigger] entries[i]).key@ == k,
    decreases entries.len(),
{
    if entries.len() > 0 {
        let t = entries.drop_last();
        lemma_tree_of(t);
        assert forall|k: Seq<u8>| #[trigger]
            tree_of(entries).dom().contains(k) implies exists|i: int|
            0 <= i < entries.len() && (#[trigger] entries[i]).key@ == k by {
            if k == entries.last().key@ {
                assert(entries[entries.len() - 1].key@ == k);
            } else {
                assert(tree_of(t).dom().contains(k));
                let i = choose|i: int| 0 <= i < t.len() && (#[trigger] t[i]).key@ == k;
                assert(entries[i].key@ == k);
            }
        }
    }
}

/// Opening the store finds the work that the `shares` tree holds: what was in
/// memory while it was in sync.
pub proof fn law_open_recovers_the_work(entries: Seq<TreeEntry>)
    requires
        distinct_keys(entries),
    ensures
        loaded(entries) == work_of_tree(tree_of(entries)),
    decreases entries.len(),
{
    if entries.len() > 0 {
        let t = entries.drop_last();
        assert forall|i: int, j: int| 0 <= i < j < t.len() implies (#[trigger] t[i]).key@ != (
        #[trigger] t[j]).key@ by {
            assert(entries[i].key@ != entries[j].key@);
        }
        law_open_recovers_the_work(t);
        lemma_tree_of(t);
        let k = entries.last().key@;
        if tree_of(t).dom().contains(k) {
            let i = choose|i: int| 0 <= i < t.len() && (#[trigger] t[i]).key@ == k;
            assert(entries[i].key@ != entries[entries.len() - 1].key@);
        }
    }
    assert(loaded(entries) =~= work_of_tree(tree_of(entries)));
}

/// Closing the store and opening it again changes nothing, whatever shares were
/// counted and payouts made since it was opened: the work that is loaded from the
/// entries of the `shares` tree is the work that was in memory, the payouts are
/// those that were recorded, and the shares that were counted are duplicates.
pub proof fn law_reopening_changes_nothing(
    disk: StoreState,
    steps: Seq<StoreStep>,
    entries: Seq<TreeEntry>,
    hash: Seq<u8>,
    limit: nat,
)
    requires
        disk.reopened().takes_all(steps),
        distinct_keys(entries),
        tree_of(entries) == disk.reopened().after(steps).shares,
    ensures
        ({
            let last = disk.reopened().after(steps);
            &&& last.reopened() == last
            &&& loaded(entries) == last.cache
            &&& newest(last.reopened().payouts, limit) == newest(
                disk.payouts + recorded(steps),
                limit,
            )
            &&& is_counted(steps, hash) ==> last.reopened().seen.dom().contains(hash)
        }),
{
    law_any_history_is_kept(disk.reopened(), steps, hash);
    law_open_recovers_the_work(entries);
}

/// The keys that are handed out to be forgotten are those of the tree whose time
/// is stale, and no others.
pub proof fn law_expiry_finds_exactly_the_stale(entries: Seq<TreeEntry>, now: u64)
    requires
        distinct_keys(entries),
    ensures
        forall|k: Seq<u8>| #[trigger]
            stale_keys(entries, now).contains(k) <==> tree_of(entries).dom().contains(k)
                && is_stale(tree_of(entries)[k], now),
    decreases entries.len(),
{
    if entries.len() > 0 {
        let t = entries.drop_last();
        let last = entries.last();
        assert forall|i: int, j: int| 0 <= i < j < t.len() implies (#[trigger] t[i]).key@ != (
        #[trigger] t[j]).key@ by {
            assert(entries[i].key@ != entries[j].key@);
        }
        law_expiry_finds_exactly_the_stale(t, now);
        lemma_tree_of(t);
        if tree_of(t).dom().contains(last.key@) {
            let i = choose|i: int| 0 <= i < t.len() && (#[trigger] t[i]).key@ == last.key@;
            assert(entries[i].key@ != entries[entries.len() - 1].key@);
        }
        let rest = stale_keys(t, now);
        assert forall|k: Seq<u8>| #[trigger]
            stale_keys(entries, now).contains(k) <==> tree_of(entries).dom().contains(k)
                && is_stale(tree_of(entries)[k], now) by {
            assert(rest.contains(k) <==> tree_of(t).dom().contains(k) && is_stale(
                tree_of(t)[k],
                now,
            ));
            if is_stale(last.value@, now) {
                let all = rest.push(last.key@);
                if rest.contains(k) {
                    let i = choose|i: int| 0 <= i < rest.len() && rest[i] == k;
                    assert(all[i] == k);
                }
                if k == last.key@ {
                    assert(all[rest.len() as int] == k);
                }
                if all.contains(k) && k != last.key@ {
                    let i = choose|i: int| 0 <= i < all.len() && all[i] == k;
                    assert(rest[i] == k);
                }
            }
        }
    } else {
        assert(tree_of(entries).dom() =~= Set::<Seq<u8>>::empty());
    }
}

/// Byte strings of one length, compared from the front.
pub open spec fn sorts_before(a: Seq<u8>, b: Seq<u8>) -> bool
    decreases a.len(),
{
    if a.len() == 0 || b.len() == 0 {
        a.len() < b.len()
    } else if a.first() != b.first() {
        a.first() < b.first()
    } else {
        sorts_before(a.drop_first(), b.drop_first())
    }
}

proof fn lemma_order(a: Seq<u8>, b: Seq<u8>)
    requires
        a.len() == b.len(),
    ensures
        sorts_before(a, b) <==> be_value(a) < be_value(b),
    decreases a.len(),
{
    if a.len() > 0 {
        lemma_be_value_first(a);
        lemma_be_value_first(b);
        let p = exp(256, (a.len() - 1) as nat);
        let x = a[0] as nat;
        let y = b[0] as nat;
        if x < y {
            assert((x + 1) * p <= y * p) by (nonlinear_arith)
                requires
                    x + 1 <= y,
            ;
        } else if y < x {
            assert((y + 1) * p <= x * p) by (nonlinear_arith)
                requires
                    y + 1 <= x,
            ;
        } else {
            lemma_order(a.drop_first(), b.drop_first());
        }
    }
}

/// A tree lists records in the order of their ids, so that the last ones are the
/// most recent ones.
pub proof fn law_record_keys_sort_like_ids(key: Seq<u8>, other: Seq<u8>, id: u64, later: u64)
    requires
        key.len() == 8,
        other.len() == 8,
        be_value(key) == id,
        be_value(other) == later,
    ensures
        sorts_before(key, other) <==> id < later,
{
    lemma_order(key, other);
}

/// The key of the record with this id: the trees list records in the order of
/// their ids.
pub fn record_key(id: u64) -> (key: Vec<u8>)
    ensures
        key@.len() == 8,
        be_value(key@) == id,
{
    to_be_bytes(id)
}

/// Sixteen or eight bytes spell work, from the least significant byte on, and no
/// other number of bytes does.
pub proof fn law_how_work_is_spelled(value: Seq<u8>)
    ensures
        decode_work(value) is Some <==> value.len() == 16 || value.len() == 8,
        decode_work(value) is Some ==> decode_work(value)->0 == value.reverse().fold_left(
            0int,
            |read: int, b: u8| read * 256 + b,
        ),
{
    law_little_endian(value);
    lemma_le_value_bound(value);
    if value.len() == 16 || value.len() == 8 {
        lemma_exp_monotonic(256, value.len(), 16);
        lemma_exp_literals();
    }
}

/// What an award writes: the time of the share under its hash, and under the miner
/// the work that was stored there, if any, and that of the share, or the most
/// that 128 bits can hold.
pub proof fn law_what_an_award_writes(
    a: Award,
    miner: Seq<u8>,
    block_height: u64,
    block_hash: Seq<u8>,
    work_units: u128,
    stored: Option<Seq<u8>>,
    now: u64,
)
    requires
        awards(a, miner, block_height, block_hash, work_units, stored, now),
    ensures
        ({
            let before: int = if stored is Some && (stored->0.len() == 16 || stored->0.len() == 8) {
                stored->0.reverse().fold_left(0int, |read: int, b: u8| read * 256 + b)
            } else {
                0
            };
            let after = a.work_value@.reverse().fold_left(0int, |read: int, b: u8| read * 256 + b);
            &&& after == vstd::math::min(before + work_units, u128::MAX as int)
            &&& a.new_work == after
            &&& a.work_value@.len() == 16
            &&& a.seen_value@.len() == 8
            &&& a.seen_value@.reverse().fold_left(0int, |read: int, b: u8| read * 256 + b) == now
            &&& a.record.miner@ == miner
            &&& a.record.block_height == block_height
            &&& a.record.block_hash@ == block_hash
            &&& a.record.timestamp == now
            &&& a.record.work_units == work_units
        }),
{
    if stored is Some {
        law_how_work_is_spelled(stored->0);
    }
    law_little_endian(a.work_value@);
    law_little_endian(a.seen_value@);
}

/// A list of miners holds for each the work that it is listed with, and for no
/// others any.
pub proof fn law_what_a_list_of_work_holds(s: Seq<WorkEntry>, i: int, miner: Seq<u8>)
    requires
        forall|p: int, q: int|
            0 <= p < q < s.len() ==> (#[trigger] s[p]).miner@ != (#[trigger] s[q]).miner@,
    ensures
        distinct_miners(s),
        0 <= i < s.len() ==> work_map(s).dom().contains(s[i].miner@) && work_map(s)[s[i].miner@]
            == s[i].work,
        work_map(s).dom().contains(miner) ==> exists|j: int|
            0 <= j < s.len() && (#[trigger] s[j]).miner@ == miner,
{
    let p = work_pairs(s);
    assert forall|a: int, b: int| 0 <= a < b < p.len() implies (#[trigger] p[a]).0 != (
    #[trigger] p[b]).0 by {
        assert(s[a].miner@ != s[b].miner@);
    }
    lemma_pairs_map(p);
    if 0 <= i < s.len() {
        assert(p[i].0 == s[i].miner@);
    }
    if work_map(s).dom().contains(miner) {
        let j = choose|j: int| 0 <= j < p.len() && (#[trigger] p[j]).0 == miner;
        assert(s[j].miner@ == miner);
    }
}

/// Nobody has no work, and each miner's work counts once.
pub proof fn law_how_work_adds_up(m: Map<Seq<u8>, u128>, miner: Seq<u8>, work: u128)
    requires
        m.dom().finite(),
    ensures
        total_of(Map::<Seq<u8>, u128>::empty()) == 0,
        !m.dom().contains(miner) ==> total_of(m.insert(miner, work)) == total_of(m) + work,
        m.dom().contains(miner) ==> total_of(m.insert(miner, work)) + m[miner] == total_of(m) + work,
        m.dom().contains(miner) ==> total_of(m.remove(miner)) + m[miner] == total_of(m),
{
    if m.dom().contains(miner) {
        lemma_total_remove(m, miner);
        lemma_total_insert(m.remove(miner), miner, work);
        assert(m.remove(miner).insert(miner, work) =~= m.insert(miner, work));
    } else {
        lemma_total_insert(m, miner, work);
    }
}

/// Opening the store finds, under each key of 32 bytes, the work that 16 or 8
/// bytes there spell, and nothing else.
pub proof fn law_what_is_found_when_opening(entries: Seq<TreeEntry>, key: Seq<u8>)
    requires
        distinct_keys(entries),
    ensures
        loaded(entries).dom().contains(key) <==> key.len() == 32 && exists|i: int|
            0 <= i < entries.len() && (#[trigger] entries[i]).key@ == key && (
            entries[i].value@.len() == 16 || entries[i].value@.len() == 8),
        forall|i: int|
            0 <= i < entries.len() && (#[trigger] entries[i]).key@ == key && loaded(
                entries,
            ).dom().contains(key) ==> loaded(entries)[key] == entries[i].value@.reverse().fold_left(
                0int,
                |read: int, b: u8| read * 256 + b,
            ),
    decreases entries.len(),
{
    if entries.len() > 0 {
        let t = entries.drop_last();
        let last = entries.last();
        assert forall|i: int, j: int| 0 <= i < j < t.len() implies (#[trigger] t[i]).key@ != (
        #[trigger] t[j]).key@ by {
            assert(entries[i].key@ != entries[j].key@);
        }
        law_what_is_found_when_opening(t, key);
        law_how_work_is_spelled(last.value@);
        assert forall|i: int| 0 <= i < t.len() implies (#[trigger] entries[i]).key@ != last.key@
            && entries[i] == t[i] by {
            assert(entries[i].key@ != entries[entries.len() - 1].key@);
        }
        assert(entries[entries.len() - 1] == last);
        if key == last.key@ {
            if exists|i: int|
                0 <= i < t.len() && (#[trigger] t[i]).key@ == key && (t[i].value@.len() == 16
                    || t[i].value@.len() == 8) {
                let i = choose|i: int|
                    0 <= i < t.len() && (#[trigger] t[i]).key@ == key && (t[i].value@.len() == 16
                        || t[i].value@.len() == 8);
                assert(entries[i].key@ != last.key@);
            }
        } else {
            if loaded(t).dom().contains(key) {
                let i = choose|i: int|
                    0 <= i < t.len() && (#[trigger] t[i]).key@ == key && (t[i].value@.len() == 16
                        || t[i].value@.len() == 8);
                assert(entries[i].key@ == key);
            }
            assert forall|i: int|
                0 <= i < entries.len() && (#[trigger] entries[i]).key@ == key && loaded(
                    entries,
                ).dom().contains(key) implies loaded(entries)[key]
                == entries[i].value@.reverse().fold_left(
                0int,
                |read: int, b: u8| read * 256 + b,
            ) by {
                assert(t[i].key@ == key);
            }
        }
    }
}

/// A hash is forgotten when the eight bytes of its time spell one more than an
/// hour ago.
pub proof fn law_when_a_hash_is_forgotten(value: Seq<u8>, now: u64)
    ensures
        is_stale(value, now) <==> value.len() == 8 && value.reverse().fold_left(
            0int,
            |read: int, b: u8| read * 256 + b,
        ) + 3600 < now,
{
    law_little_endian(value);
}

/// The newest of a list: what was added last comes first, before the newest of
/// what was there.
pub proof fn law_the_newest_come_first<T>(s: Seq<T>, x: T, limit: nat)
    ensures
        newest(s, 0).len() == 0,
        newest(Seq::<T>::empty(), limit).len() == 0,
        newest(s.push(x), limit + 1) == seq![x] + newest(s, limit),
{
    assert(newest(s.push(x), limit + 1) =~= seq![x] + newest(s, limit));
}

/// The keys of a list are those that occur in it.
pub proof fn law_keys_of_a_list(s: Seq<[u8; 32]>, key: Seq<u8>)
    ensures
        keys_of(s).contains(key) <==> exists|i: int|
            0 <= i < s.len() && (#[trigger] s[i])@ == key,
{
}

/// Lists of byte strings and of entries are viewed element by element.
pub proof fn law_lists_are_viewed_in_order(s: Seq<Vec<u8>>, e: Seq<TreeEntry>, i: int)
    ensures
        keys_view(s).len() == s.len(),
        0 <= i < s.len() ==> keys_view(s)[i] == s[i]@,
        values_view(e).len() == e.len(),
        0 <= i < e.len() ==> values_view(e)[i] == e[i].value@,
{
}

} // verus!
