use snap_coin_pool::events::PoolEvent;
use snap_coin_pool::mempool::{MempoolPages, PageStep, MAX_MEMPOOL_PAGES};
use snap_coin_pool::chain::Transaction;
use snap_coin_pool::network_stats::{NodeQuery, NodeReply, StatsSnapshot, StatsStep};
use snap_coin_pool::node_metrics::NodeMetrics;
use snap_coin_pool::snapcoin::block_reward;

fn addr() -> String {
    "10.0.0.1:3003".to_string()
}

fn transaction(nonce: u64) -> Transaction {
    Transaction { inputs: vec![], outputs: vec![], transaction_id: None, nonce, timestamp: 0 }
}

#[test]
fn rewards_halve_every_million_blocks() {
    assert_eq!(block_reward(0), 10_000_000_000);
    assert_eq!(block_reward(999_999), 10_000_000_000);
    assert_eq!(block_reward(1_000_000), 5_000_000_000);
    assert_eq!(block_reward(33_000_000), 1);
    assert_eq!(block_reward(40_000_000), 1);
    assert_eq!(block_reward(63_999_999), 1);
}

#[test]
fn the_first_answer_reports_the_connection() {
    let mut m = NodeMetrics::new();
    m.begin_connect();
    m.connected(30);
    let r = m.on_answer(&addr(), 12, 5_000, 5);
    match r.connected {
        Some(PoolEvent::NodeConnected { addr, tcp_connect_ms, first_ok_ms, timestamp }) => {
            assert_eq!(addr, "10.0.0.1:3003");
            assert_eq!((tcp_connect_ms, first_ok_ms, timestamp), (30, 42, 5));
        }
        _ => panic!("no report"),
    }
    match r.health {
        Some(PoolEvent::NodeHealth { ok, rtt_ms, fails, last_ok_ts, timestamp, .. }) => {
            assert!(ok);
            assert_eq!((rtt_ms, fails, last_ok_ts, timestamp), (12, 0, 5, 5));
        }
        _ => panic!("no report"),
    }
    assert!(r.snapshot_due);
    assert!(m.ever_ok);
    assert_eq!(m.first_ok_ms, Some(42));
    assert!(m.on_answer(&addr(), 12, 9_000, 9).connected.is_none());
    m.begin_connect();
    assert!(m.on_answer(&addr(), 12, 19_000, 19).connected.is_some());
}

#[test]
fn health_is_reported_at_most_once_a_second() {
    let mut m = NodeMetrics::new();
    assert!(m.on_answer(&addr(), 1, 999, 0).health.is_none());
    assert!(m.on_answer(&addr(), 1, 1_000, 1).health.is_some());
    let early = m.on_answer(&addr(), 2, 1_999, 1);
    assert!(early.health.is_none());
    assert!(!early.snapshot_due);
    assert_eq!(m.last_rtt_ms, Some(2));
    assert!(m.maybe_emit_node_health(&addr(), true, None, 2_000, 2).is_some());
    assert!(m.maybe_emit_node_health(&addr(), true, None, 500, 2).is_none());
}

#[test]
fn failures_are_counted_until_an_answer() {
    let mut m = NodeMetrics::new();
    assert!(m.on_failure(&addr(), 500, 0).is_none());
    match m.on_failure(&addr(), 1_500, 1) {
        Some(PoolEvent::NodeHealth { ok, rtt_ms, fails, last_ok_ts, .. }) => {
            assert!(!ok);
            assert_eq!((rtt_ms, fails, last_ok_ts), (0, 2, 0));
        }
        _ => panic!("no report"),
    }
    m.on_answer(&addr(), 1, 1_600, 1);
    assert_eq!(m.fails, 0);
    m.fails = u32::MAX;
    m.on_failure(&addr(), 1_700, 1);
    assert_eq!(m.fails, u32::MAX);
}

#[test]
fn a_full_snapshot_is_reported() {
    let mut s = StatsSnapshot::begin();
    assert!(matches!(s.next_query(), Some(NodeQuery::Height)));
    assert!(s.report(0).is_none());
    s.answer(&NodeReply::Height(100), 0);
    assert!(matches!(s.next_query(), Some(NodeQuery::Difficulty)));
    let mut target = [0u8; 32];
    target[1] = 1;
    s.answer(&NodeReply::Difficulty(target), 0);
    assert!(matches!(s.next_query(), Some(NodeQuery::BlockHash(99))));
    s.answer(&NodeReply::BlockHash(Some([0xAB; 32])), 0);
    assert!(matches!(s.next_query(), Some(NodeQuery::Block(h)) if h == [0xAB; 32]));
    s.answer(&NodeReply::Block(Some(5_000)), 5_060);
    assert!(matches!(s.next_query(), Some(NodeQuery::BlockHash(89))));
    s.answer(&NodeReply::BlockHash(Some([0xCD; 32])), 0);
    assert!(matches!(s.next_query(), Some(NodeQuery::Block(h)) if h == [0xCD; 32]));
    s.answer(&NodeReply::Block(Some(4_795)), 0);
    assert!(s.next_query().is_none());
    match s.report(5_063) {
        Some(PoolEvent::NetworkStats {
            hashrate_hs,
            difficulty,
            height,
            reward,
            last_hash,
            last_block_secs_ago,
            avg_block_time_secs,
            timestamp,
        }) => {
            assert_eq!(difficulty, 65_535);
            assert_eq!(hashrate_hs, 2_184);
            assert_eq!(height, 100);
            assert_eq!(reward, 10_000_000_000);
            assert_eq!(last_hash, "ab".repeat(32));
            assert_eq!(last_block_secs_ago, 60);
            assert_eq!(avg_block_time_secs, 20);
            assert_eq!(timestamp, 5_063);
        }
        _ => panic!("no report"),
    }
}

#[test]
fn a_snapshot_needs_height_and_difficulty() {
    let mut s = StatsSnapshot::begin();
    s.answer(&NodeReply::Nothing, 0);
    assert_eq!(s.step, StatsStep::Abandoned);
    assert!(s.next_query().is_none());
    assert!(s.report(0).is_none());
    let mut s = StatsSnapshot::begin();
    s.answer(&NodeReply::Height(5), 0);
    s.answer(&NodeReply::BlockHash(None), 0);
    assert_eq!(s.step, StatsStep::Abandoned);
    assert!(s.report(0).is_none());
}

#[test]
fn a_snapshot_leaves_blank_what_is_missing() {
    let mut s = StatsSnapshot::begin();
    s.answer(&NodeReply::Height(5), 0);
    s.answer(&NodeReply::Difficulty([0; 32]), 0);
    s.answer(&NodeReply::BlockHash(None), 0);
    match s.report(7) {
        Some(PoolEvent::NetworkStats {
            hashrate_hs,
            difficulty,
            last_hash,
            last_block_secs_ago,
            avg_block_time_secs,
            ..
        }) => {
            assert_eq!(difficulty, u64::MAX);
            assert_eq!(hashrate_hs, 0);
            assert_eq!(last_hash, "unknown");
            assert_eq!((last_block_secs_ago, avg_block_time_secs), (0, 0));
        }
        _ => panic!("no report"),
    }
}

#[test]
fn a_young_chain_has_no_sample() {
    for height in [0u64, 1] {
        let mut s = StatsSnapshot::begin();
        s.answer(&NodeReply::Height(height), 0);
        s.answer(&NodeReply::Difficulty([0xFF; 32]), 0);
        assert_eq!(s.step, StatsStep::Finished);
    }
    let mut s = StatsSnapshot::begin();
    s.answer(&NodeReply::Height(11), 0);
    s.answer(&NodeReply::Difficulty([0xFF; 32]), 0);
    s.answer(&NodeReply::BlockHash(Some([1; 32])), 0);
    s.answer(&NodeReply::Block(Some(50)), 0);
    assert_eq!(s.step, StatsStep::Finished);
    match s.report(40) {
        Some(PoolEvent::NetworkStats { last_block_secs_ago, avg_block_time_secs, .. }) => {
            assert_eq!((last_block_secs_ago, avg_block_time_secs), (0, 0));
        }
        _ => panic!("no report"),
    }
}

#[test]
fn times_that_do_not_rise_have_no_average() {
    let mut s = StatsSnapshot::begin();
    s.answer(&NodeReply::Height(12), 0);
    s.answer(&NodeReply::Difficulty([0xFF; 32]), 0);
    s.answer(&NodeReply::BlockHash(Some([1; 32])), 0);
    s.answer(&NodeReply::Block(Some(50)), 0);
    assert!(matches!(s.next_query(), Some(NodeQuery::BlockHash(1))));
    s.answer(&NodeReply::BlockHash(Some([2; 32])), 0);
    s.answer(&NodeReply::Block(Some(50)), 0);
    match s.report(60) {
        Some(PoolEvent::NetworkStats { avg_block_time_secs, .. }) => {
            assert_eq!(avg_block_time_secs, 0);
        }
        _ => panic!("no report"),
    }
}

#[test]
fn a_snapshot_is_abandoned_at_any_height() {
    let mut s = StatsSnapshot::begin();
    s.answer(&NodeReply::Height(u64::MAX), 0);
    s.answer(&NodeReply::Nothing, 0);
    assert_eq!(s.step, StatsStep::Abandoned);
    assert!(s.report(0).is_none());
}

#[test]
fn a_mempool_is_all_its_pages() {
    let mut m = MempoolPages::begin();
    assert_eq!(m.step, PageStep::Ask(0));
    m.take_page(vec![transaction(1), transaction(2)], Some(1));
    assert_eq!(m.step, PageStep::Ask(1));
    m.take_page(vec![], Some(7));
    assert_eq!(m.step, PageStep::Ask(7));
    m.take_page(vec![transaction(3)], None);
    assert_eq!(m.step, PageStep::Complete);
    m.take_page(vec![transaction(4)], Some(1));
    assert_eq!(m.step, PageStep::Complete);
    let nonces: Vec<u64> = m.transactions.iter().map(|t| t.nonce).collect();
    assert_eq!(nonces, vec![1, 2, 3]);
}

#[test]
fn a_mempool_has_so_many_pages_at_most() {
    let mut m = MempoolPages::begin();
    m.take_page(vec![], Some(MAX_MEMPOOL_PAGES - 1));
    assert_eq!(m.step, PageStep::Ask(511));
    m.take_page(vec![], Some(MAX_MEMPOOL_PAGES));
    assert_eq!(m.step, PageStep::TooManyPages);
}

#[test]
fn rising_pages_come_to_an_end() {
    let mut m = MempoolPages::begin();
    let mut asked = 0;
    while let PageStep::Ask(page) = m.step {
        asked += 1;
        m.take_page(vec![], Some(page + 1));
    }
    assert_eq!(asked, 512);
    assert_eq!(m.step, PageStep::TooManyPages);
}
