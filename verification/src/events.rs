//! What the pool tells its dashboard.

use vstd::prelude::*;

use crate::text::{hex, hex_encode, hex_short};

verus! {

/// An event in the life of the pool.
#[derive(Clone, Debug)]
pub enum PoolEvent {
    MinerConnected { miner: String, ip: String, timestamp: u64 },
    MinerDisconnected { miner: String, ip: String, timestamp: u64 },
    ShareAccepted {
        miner: String,
        height: u64,
        work_units: u128,
        work_total: u128,
        timestamp: u64,
    },
    ShareRejected { miner: String, reason: String, timestamp: u64 },
    BlockFound { height: u64, hash: String, reward: u64, timestamp: u64 },
    PayoutComplete {
        height: u64,
        miners_paid: usize,
        total_reward: u64,
        pool_fee: u64,
        timestamp: u64,
    },
    /// The first answer of the node after a connect or reconnect.
    NodeConnected { addr: String, tcp_connect_ms: u64, first_ok_ms: u64, timestamp: u64 },
    /// How the node answers; sent at most once a second.
    NodeHealth {
        addr: String,
        ok: bool,
        rtt_ms: u64,
        fails: u32,
        last_ok_ts: u64,
        timestamp: u64,
    },
    /// The state of the network; sent along with `NodeHealth`.
    NetworkStats {
        hashrate_hs: u64,
        difficulty: u64,
        height: u64,
        reward: u64,
        last_hash: String,
        last_block_secs_ago: u64,
        avg_block_time_secs: u64,
        timestamp: u64,
    },
}

/// The contents of a `PoolEvent`.
pub enum EventView {
    MinerConnected { miner: Seq<char>, ip: Seq<char>, timestamp: u64 },
    MinerDisconnected { miner: Seq<char>, ip: Seq<char>, timestamp: u64 },
    ShareAccepted {
        miner: Seq<char>,
        height: u64,
        work_units: u128,
        work_total: u128,
        timestamp: u64,
    },
    ShareRejected { miner: Seq<char>, reason: Seq<char>, timestamp: u64 },
    BlockFound { height: u64, hash: Seq<char>, reward: u64, timestamp: u64 },
    PayoutComplete {
        height: u64,
        miners_paid: usize,
        total_reward: u64,
        pool_fee: u64,
        timestamp: u64,
    },
    NodeConnected { addr: Seq<char>, tcp_connect_ms: u64, first_ok_ms: u64, timestamp: u64 },
    NodeHealth {
        addr: Seq<char>,
        ok: bool,
        rtt_ms: u64,
        fails: u32,
        last_ok_ts: u64,
        timestamp: u64,
    },
    NetworkStats {
        hashrate_hs: u64,
        difficulty: u64,
        height: u64,
        reward: u64,
        last_hash: Seq<char>,
        last_block_secs_ago: u64,
        avg_block_time_secs: u64,
        timestamp: u64,
    },
}

impl View for PoolEvent {
    type V = EventView;

    open spec fn view(&self) -> EventView {
        match *self {
            PoolEvent::MinerConnected { miner, ip, timestamp } => EventView::MinerConnected {
                miner: miner@,
                ip: ip@,
                timestamp,
            },
            PoolEvent::MinerDisconnected { miner, ip, timestamp } => EventView::MinerDisconnected {
                miner: miner@,
                ip: ip@,
                timestamp,
            },
            PoolEvent::ShareAccepted {
                miner,
                height,
                work_units,
                work_total,
                timestamp,
            } => EventView::ShareAccepted {
                miner: miner@,
                height,
                work_units,
                work_total,
                timestamp,
            },
            PoolEvent::ShareRejected { miner, reason, timestamp } => EventView::ShareRejected {
                miner: miner@,
                reason: reason@,
                timestamp,
            },
            PoolEvent::BlockFound { height, hash, reward, timestamp } => EventView::BlockFound {
                height,
                hash: hash@,
                reward,
                timestamp,
            },
            PoolEvent::PayoutComplete {
                height,
                miners_paid,
                total_reward,
                pool_fee,
                timestamp,
            } => EventView::PayoutComplete {
                height,
                miners_paid,
                total_reward,
                pool_fee,
                timestamp,
            },
            PoolEvent::NodeConnected {
                addr,
                tcp_connect_ms,
                first_ok_ms,
                timestamp,
            } => EventView::NodeConnected { addr: addr@, tcp_connect_ms, first_ok_ms, timestamp },
            PoolEvent::NodeHealth {
                addr,
                ok,
                rtt_ms,
                fails,
                last_ok_ts,
                timestamp,
            } => EventView::NodeHealth { addr: addr@, ok, rtt_ms, fails, last_ok_ts, timestamp },
            PoolEvent::NetworkStats {
                hashrate_hs,
                difficulty,
                height,
                reward,
                last_hash,
                last_block_secs_ago,
                avg_block_time_secs,
                timestamp,
            } => EventView::NetworkStats {
                hashrate_hs,
                difficulty,
                height,
                reward,
                last_hash: last_hash@,
                last_block_secs_ago,
                avg_block_time_secs,
                timestamp,
            },
        }
    }
}

/// The contents of an optional event.
pub open spec fn opt_event(e: Option<PoolEvent>) -> Option<EventView> {
    match e {
        Some(e) => Some(e@),
        None => None,
    }
}

/// A miner has shaken hands.
pub fn miner_connected(miner: &[u8; 32], ip: &String, timestamp: u64) -> (e: PoolEvent)
    ensures
        e@ == (EventView::MinerConnected { miner: hex(miner@.take(4)), ip: ip@, timestamp }),
{
    PoolEvent::MinerConnected { miner: hex_short(miner), ip: ip.clone(), timestamp }
}

/// A miner's connection has ended.
pub fn miner_disconnected(miner: &[u8; 32], ip: &String, timestamp: u64) -> (e: PoolEvent)
    ensures
        e@ == (EventView::MinerDisconnected { miner: hex(miner@.take(4)), ip: ip@, timestamp }),
{
    PoolEvent::MinerDisconnected { miner: hex_short(miner), ip: ip.clone(), timestamp }
}

/// A share was accepted.
pub fn share_accepted(
    miner: &[u8; 32],
    height: u64,
    work_units: u128,
    work_total: u128,
    timestamp: u64,
) -> (e: PoolEvent)
    ensures
        e@ == (EventView::ShareAccepted {
            miner: hex(miner@.take(4)),
            height,
            work_units,
            work_total,
            timestamp,
        }),
{
    PoolEvent::ShareAccepted { miner: hex_short(miner), height, work_units, work_total, timestamp }
}

/// A share was rejected.
pub fn share_rejected(miner: &[u8; 32], reason: &String, timestamp: u64) -> (e: PoolEvent)
    ensures
        e@ == (EventView::ShareRejected {
            miner: hex(miner@.take(4)),
            reason: reason@,
            timestamp,
        }),
{
    PoolEvent::ShareRejected { miner: hex_short(miner), reason: reason.clone(), timestamp }
}

/// The spelling of a block hash, or `unknown` where there is none.
pub open spec fn hash_text(hash: Option<Seq<u8>>) -> Seq<char> {
    match hash {
        Some(h) => hex(h),
        None => "unknown"@,
    }
}

/// The spelling of a block hash; see `hash_text`.
pub fn spell_hash(hash: &Option<[u8; 32]>) -> (s: String)
    ensures
        s@ == hash_text(crate::chain::opt_bytes(*hash)),
{
    match hash {
        Some(h) => hex_encode(h),
        None => "unknown".to_owned(),
    }
}

/// A hash is spelled in hexadecimal; without one it is unknown.
pub proof fn law_hashes_are_spelled(hash: Option<Seq<u8>>)
    ensures
        hash is Some ==> hash_text(hash) == hex(hash->0),
        hash is None ==> hash_text(hash) == "unknown"@,
{
}

/// An optional event is there with its contents, or not there.
pub proof fn law_optional_events_keep_their_contents(e: Option<PoolEvent>)
    ensures
        opt_event(e) is Some <==> e is Some,
        e is Some ==> opt_event(e)->0 == e->0@,
{
}

} // verus!
