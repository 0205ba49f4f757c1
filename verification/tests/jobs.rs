use snap_coin_pool::chain::Transaction;
use snap_coin_pool::job_handler::{
    choose_transactions, get_current_mempool, next_backoff, next_build_step, BuildEvent, BuildStep,
    JobGate,
};

fn transaction(nonce: u64, timestamp: u64) -> Transaction {
    Transaction { inputs: vec![], outputs: vec![], transaction_id: None, nonce, timestamp }
}

#[test]
fn jobs_leave_room_for_the_reward() {
    let mempool: Vec<Transaction> = (0..600).map(|n| transaction(n, 990)).collect();
    let chosen = choose_transactions(&mempool, 1_000);
    assert_eq!(chosen.len(), 499);
    assert_eq!(chosen[0].nonce, 0);
    assert_eq!(chosen[498].nonce, 498);
    assert_eq!(snap_coin::core::block::MAX_TRANSACTIONS_PER_BLOCK, 500);
    let few: Vec<Transaction> = (0..499).map(|n| transaction(n, 990)).collect();
    assert_eq!(choose_transactions(&few, 1_000).len(), 499);
    assert_eq!(choose_transactions(&vec![], 1_000).len(), 0);
}

#[test]
fn jobs_leave_out_what_is_about_to_expire() {
    // At 1000 s, a transaction needs 5 of its 350 s to be left.
    let mempool = vec![
        transaction(0, 655),
        transaction(1, 654),
        transaction(2, 0),
        transaction(3, 1_000),
        transaction(4, u64::MAX),
    ];
    let nonces: Vec<u64> = choose_transactions(&mempool, 1_000).iter().map(|t| t.nonce).collect();
    assert_eq!(nonces, vec![0, 3, 4]);
    assert_eq!(choose_transactions(&mempool, 1_000_000).len(), 1);
    assert_eq!(choose_transactions(&mempool, u64::MAX).len(), 1);
    assert_eq!(choose_transactions(&mempool, 0).len(), 5);
}

#[test]
fn jobs_are_chosen_by_the_clock() {
    let now = chrono::Utc::now().timestamp() as u64;
    let mempool = vec![transaction(0, now), transaction(1, now - 10_000)];
    let nonces: Vec<u64> = get_current_mempool(&mempool).iter().map(|t| t.nonce).collect();
    assert_eq!(nonces, vec![0]);
}

#[test]
fn one_job_is_built_at_a_time() {
    let mut g = JobGate::new();
    assert!(g.enter());
    assert!(!g.enter());
    g.leave();
    assert!(g.enter());
}

#[test]
fn waits_double_up_to_a_minute() {
    let mut step = next_build_step(BuildStep::Build, BuildEvent::BuildFailed);
    for secs in [2u64, 4, 8, 16, 32, 60, 60] {
        assert_eq!(step, BuildStep::Sleep(secs));
        step = next_build_step(step, BuildEvent::Slept);
        assert_eq!(step, BuildStep::Connect(secs));
        step = next_build_step(step, BuildEvent::ConnectFailed);
    }
    step = next_build_step(step, BuildEvent::Slept);
    step = next_build_step(step, BuildEvent::Connected);
    assert_eq!(step, BuildStep::Reconnected);
    assert_eq!(next_build_step(step, BuildEvent::Built), BuildStep::Reconnected);
}

#[test]
fn waits_stay_within_the_limit() {
    assert_eq!(next_backoff(30), 60);
    assert_eq!(next_backoff(31), 60);
    assert_eq!(next_backoff(u64::MAX), 60);
    assert_eq!(next_backoff(0), 0);
}

#[test]
fn a_built_job_is_done() {
    let step = next_build_step(BuildStep::Build, BuildEvent::Built);
    assert_eq!(step, BuildStep::Done);
    assert_eq!(next_build_step(step, BuildEvent::BuildFailed), BuildStep::Done);
    assert_eq!(next_build_step(BuildStep::Build, BuildEvent::Slept), BuildStep::Build);
}
