use snap_coin_pool::events::{
    miner_connected, miner_disconnected, share_accepted, share_rejected, spell_hash, PoolEvent,
};
use snap_coin_pool::ip_states::{
    Admission, IpStates, BAN_THRESHOLD, PENALTY_BAN_EXTRA, PENALTY_ERROR, PENALTY_RESTRICTED,
};
use snap_coin_pool::requests::{
    answers, connection_step, penalties, route, share_reply, ConnectionStep, RequestKind, RequestOutcome,
    ResponseKind, Route,
};
use snap_coin_pool::session::{Adjustment, MinerSession};

fn ip() -> String {
    "192.0.2.7".to_string()
}

fn other() -> String {
    "192.0.2.8".to_string()
}

const ALL_REQUESTS: [RequestKind; 17] = [
    RequestKind::Height,
    RequestKind::Block,
    RequestKind::Difficulty,
    RequestKind::BlockHash,
    RequestKind::BlockHeight,
    RequestKind::Transaction,
    RequestKind::TransactionAndInfo,
    RequestKind::TransactionsOfAddress,
    RequestKind::AvailableUTXOs,
    RequestKind::Balance,
    RequestKind::Reward,
    RequestKind::Peers,
    RequestKind::Mempool,
    RequestKind::NewBlock,
    RequestKind::NewTransaction,
    RequestKind::LiveTransactionDifficulty,
    RequestKind::SubscribeToChainEvents,
];

const ALL_RESPONSES: [ResponseKind; 17] = [
    ResponseKind::Height,
    ResponseKind::Block,
    ResponseKind::Difficulty,
    ResponseKind::BlockHash,
    ResponseKind::BlockHeight,
    ResponseKind::Transaction,
    ResponseKind::TransactionAndInfo,
    ResponseKind::TransactionsOfAddress,
    ResponseKind::AvailableUTXOs,
    ResponseKind::Balance,
    ResponseKind::Reward,
    ResponseKind::Peers,
    ResponseKind::Mempool,
    ResponseKind::NewBlock,
    ResponseKind::NewTransaction,
    ResponseKind::LiveTransactionDifficulty,
    ResponseKind::ChainEvent,
];

#[test]
fn penalties_add_up_to_a_ban() {
    let mut s = IpStates::new();
    for n in 1..=4 {
        s.add_penalty(&ip(), PENALTY_ERROR);
        assert_eq!(s.state(&ip()).score, 5 * n);
        assert!(!s.is_banned(&ip()));
    }
    s.add_penalty(&ip(), PENALTY_ERROR);
    assert!(s.is_banned(&ip()));
    assert_eq!(s.state(&ip()).score, BAN_THRESHOLD + PENALTY_BAN_EXTRA);
    s.add_penalty(&ip(), PENALTY_ERROR);
    assert_eq!(s.state(&ip()).score, 40);
    assert!(!s.is_banned(&other()));
    assert_eq!(s.state(&other()).score, 0);
}

#[test]
fn scores_stay_within_32_bits() {
    let mut s = IpStates::new();
    assert!(s.can_add_penalty(&ip(), i32::MAX - PENALTY_BAN_EXTRA));
    assert!(!s.can_add_penalty(&ip(), i32::MAX));
    s.add_penalty(&ip(), i32::MAX - PENALTY_BAN_EXTRA);
    assert_eq!(s.state(&ip()).score, i32::MAX);
    assert!(!s.can_add_penalty(&ip(), 1));
    assert!(s.can_add_penalty(&ip(), 0));
}

#[test]
fn two_refused_requests_are_a_ban() {
    let mut s = IpStates::new();
    for p in penalties(RequestOutcome::Refused) {
        s.add_penalty(&ip(), p);
    }
    assert_eq!(s.state(&ip()).score, 15);
    assert!(!s.is_banned(&ip()));
    for p in penalties(RequestOutcome::Refused) {
        s.add_penalty(&ip(), p);
    }
    assert!(s.is_banned(&ip()));
    assert_eq!(s.state(&ip()).score, 40);
}

#[test]
fn a_ban_decays() {
    let mut s = IpStates::new();
    s.add_penalty(&ip(), BAN_THRESHOLD);
    for _ in 0..10 {
        s.decay_scores();
        assert!(s.is_banned(&ip()));
    }
    s.decay_scores();
    assert!(!s.is_banned(&ip()));
    assert_eq!(s.state(&ip()).score, 24);
    for _ in 0..24 {
        s.decay_scores();
    }
    assert_eq!(s.state(&ip()).score, 0);
}

#[test]
fn connections_are_limited_by_address() {
    let mut s = IpStates::new();
    assert!(s.try_acquire_connection(&ip(), 2));
    assert!(s.try_acquire_connection(&ip(), 2));
    assert!(!s.try_acquire_connection(&ip(), 2));
    assert!(s.try_acquire_connection(&other(), 2));
    s.release_connection(&ip());
    assert_eq!(s.state(&ip()).connections, 1);
    assert!(s.try_acquire_connection(&ip(), 2));
    assert!(!s.try_acquire_connection(&other(), 0));
}

#[test]
fn releasing_stops_at_none() {
    let mut s = IpStates::new();
    s.release_connection(&ip());
    assert_eq!(s.state(&ip()).connections, 0);
    s.try_acquire_connection(&ip(), 1);
    s.release_connection(&ip());
    s.release_connection(&ip());
    assert_eq!(s.state(&ip()).connections, 0);
}

#[test]
fn decay_remembers_the_connected() {
    let mut s = IpStates::new();
    s.try_acquire_connection(&ip(), 5);
    s.try_acquire_connection(&other(), 5);
    s.release_connection(&other());
    s.decay_scores();
    assert_eq!(s.state(&ip()).connections, 1);
    assert_eq!(s.state(&ip()).score, 0);
    s.add_penalty(&ip(), 3);
    s.decay_scores();
    assert_eq!(s.state(&ip()).score, 2);
}

#[test]
fn welcome_is_not_for_everyone() {
    let mut s = IpStates::new();
    assert_eq!(s.welcome(&ip(), 1), Admission::Admitted);
    assert_eq!(s.welcome(&ip(), 1), Admission::LimitReached);
    s.add_penalty(&ip(), 30);
    assert_eq!(s.welcome(&ip(), 1), Admission::Banned);
    assert_eq!(s.welcome(&other(), 0), Admission::LimitReached);
}

#[test]
fn a_failed_handshake_costs_points_and_frees_the_connection() {
    let mut s = IpStates::new();
    s.welcome(&ip(), 1);
    s.handshake_failed(&ip());
    assert_eq!(s.state(&ip()).score, PENALTY_ERROR);
    assert_eq!(s.state(&ip()).connections, 0);
    assert_eq!(s.welcome(&ip(), 1), Admission::Admitted);
}

#[test]
fn requests_are_routed() {
    let forwarded = ALL_REQUESTS.iter().filter(|k| route(**k) == Route::Forward).count();
    let refused = ALL_REQUESTS.iter().filter(|k| route(**k) == Route::Refuse).count();
    assert_eq!((forwarded, refused), (7, 7));
    assert_eq!(route(RequestKind::Reward), Route::Reward);
    assert_eq!(route(RequestKind::NewBlock), Route::Share);
    assert_eq!(route(RequestKind::SubscribeToChainEvents), Route::Events);
    assert_eq!(route(RequestKind::NewTransaction), Route::Refuse);
    assert_eq!(route(RequestKind::Peers), Route::Refuse);
    assert_eq!(route(RequestKind::Mempool), Route::Forward);
}

#[test]
fn every_request_but_one_has_its_response() {
    for (i, kind) in ALL_REQUESTS.iter().enumerate() {
        for (j, response) in ALL_RESPONSES.iter().enumerate() {
            assert_eq!(answers(*kind, *response), i == j && i < 16);
        }
    }
}

#[test]
fn connections_go_on_after_answers_and_timeouts() {
    assert_eq!(connection_step(RequestOutcome::Answered), ConnectionStep::Reply);
    assert_eq!(connection_step(RequestOutcome::TimedOut), ConnectionStep::AdjustTarget);
    assert_eq!(connection_step(RequestOutcome::EventsEnded), ConnectionStep::Close);
    assert_eq!(connection_step(RequestOutcome::Failed), ConnectionStep::Penalize);
    assert_eq!(connection_step(RequestOutcome::Refused), ConnectionStep::Penalize);
    assert_eq!(penalties(RequestOutcome::Failed), vec![PENALTY_ERROR]);
    assert_eq!(penalties(RequestOutcome::Refused), vec![PENALTY_RESTRICTED, PENALTY_ERROR]);
    assert_eq!(penalties(RequestOutcome::Answered), Vec::<i32>::new());
}

#[test]
fn shares_are_answered_either_way() {
    let accepted = share_reply(true);
    assert!(accepted.restarts_share_clock && !accepted.announces_rejection);
    let rejected = share_reply(false);
    assert!(!rejected.restarts_share_clock && rejected.announces_rejection);
    assert_eq!(accepted.outcome, RequestOutcome::Answered);
    assert_eq!(rejected.outcome, RequestOutcome::Answered);
    assert_eq!(penalties(rejected.outcome).len(), 0);
}

#[test]
fn sessions_start_at_the_base_target() {
    let s = MinerSession::new(&[3; 32]);
    assert_eq!(s.target, [3; 32]);
    assert_eq!(s.work_units, 1u128 << 64);
    assert_eq!(MinerSession::new(&[0; 32]).work_units, 1);
}

#[test]
fn the_handshake_names_target_and_pool() {
    let s = MinerSession::new(&[3; 32]);
    let r = s.handshake_reply(&[9; 32]);
    assert_eq!(r.len(), 64);
    assert_eq!(r[..32], [3; 32]);
    assert_eq!(r[32..], [9; 32]);
}

#[test]
fn targets_are_eased_after_half_a_minute() {
    let mut base = [0u8; 32];
    base[4] = 1;
    let mut s = MinerSession::new(&base);
    assert!(matches!(s.adjustment(29, 100), Adjustment::Keep));
    assert!(matches!(s.adjustment(30, 14), Adjustment::Keep));
    let mut eased = [0u8; 32];
    eased[4] = 2;
    match s.adjustment(30, 15) {
        Adjustment::Push(t) => assert_eq!(t, eased),
        _ => panic!("not eased"),
    }
    s.retarget(&base, &eased);
    assert_eq!(s.target, eased);
    assert_eq!(s.work_units, 1u128 << 63);
}

#[test]
fn the_easiest_target_rests() {
    assert!(matches!(MinerSession::new(&[0xFF; 32]).adjustment(30, 15), Adjustment::Rest));
    assert!(matches!(MinerSession::new(&[0; 32]).adjustment(30, 15), Adjustment::Rest));
}

#[test]
fn targets_are_left_alone_while_easing_is_off() {
    let s = MinerSession::new(&[3; 32]);
    assert!(matches!(s.maybe_adjust_vardiff(1_000, 1_000), Adjustment::Keep));
}

#[test]
fn events_name_miners_in_short() {
    let mut miner = [0xABu8; 32];
    miner[1] = 0x01;
    match miner_connected(&miner, &ip(), 5) {
        PoolEvent::MinerConnected { miner, ip, timestamp } => {
            assert_eq!(miner, "ab01abab");
            assert_eq!(ip, "192.0.2.7");
            assert_eq!(timestamp, 5);
        }
        _ => panic!("another event"),
    }
    match miner_disconnected(&miner, &ip(), 6) {
        PoolEvent::MinerDisconnected { miner, timestamp, .. } => {
            assert_eq!(miner, "ab01abab");
            assert_eq!(timestamp, 6);
        }
        _ => panic!("another event"),
    }
    match share_accepted(&miner, 1, 2, 3, 4) {
        PoolEvent::ShareAccepted { miner, height, work_units, work_total, timestamp } => {
            assert_eq!(miner, "ab01abab");
            assert_eq!((height, work_units, work_total, timestamp), (1, 2, 3, 4));
        }
        _ => panic!("another event"),
    }
    match share_rejected(&miner, &"IncompleteBlock".to_string(), 4) {
        PoolEvent::ShareRejected { miner, reason, timestamp } => {
            assert_eq!(miner, "ab01abab");
            assert_eq!(reason, "IncompleteBlock");
            assert_eq!(timestamp, 4);
        }
        _ => panic!("another event"),
    }
}

#[test]
fn hashes_are_spelled_or_unknown() {
    assert_eq!(spell_hash(&Some([0x1F; 32])), "1f".repeat(32));
    assert_eq!(spell_hash(&None), "unknown");
}
