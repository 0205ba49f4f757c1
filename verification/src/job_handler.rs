//! Jobs for the miners: which transactions go into one, and what happens when
//! the node fails while one is built.

use vstd::prelude::*;

use crate::bytes::exp;
use crate::chain::{transactions_view, Transaction, TransactionView};
use crate::snapcoin::{
    expiration_time, max_transactions_per_block, slice_transactions, utc_now_secs,
};

verus! {

/// Seconds that a transaction must still have before it expires to go into a job.
pub const EXPIRATION_BUFFER_SECS: u64 = 5;

/// Seconds before the first attempt to reconnect.
pub const FIRST_BACKOFF_SECS: u64 = 2;

/// Seconds between attempts to reconnect, at most.
pub const MAX_BACKOFF_SECS: u64 = 60;

/// A transaction can go into a job at time `now`: it neither has expired nor is
/// about to.
pub open spec fn is_eligible(timestamp: u64, now: u64) -> bool {
    timestamp + 350 >= now + EXPIRATION_BUFFER_SECS
}

/// The transactions that go into a job at time `now`: of those that fit into a
/// block beside the reward, the eligible ones, in their order.
pub open spec fn job_transactions(mempool: Seq<TransactionView>, now: u64) -> Seq<TransactionView> {
    let fitting = if mempool.len() > 499 {
        mempool.take(499)
    } else {
        mempool
    };
    fitting.filter(|t: TransactionView| is_eligible(t.timestamp, now))
}

/// The transactions that go into a job; see `job_transactions`.
pub fn choose_transactions(mempool: &Vec<Transaction>, now: u64) -> (r: Vec<Transaction>)
    ensures
        transactions_view(r@) == job_transactions(transactions_view(mempool@), now),
{
    let fitting = slice_transactions(mempool, 0, max_transactions_per_block() - 1);
    let ghost all = transactions_view(fitting@);
    let ghost pred = |t: TransactionView| is_eligible(t.timestamp, now);
    proof {
        let whole = transactions_view(mempool@);
        if whole.len() > 499 {
            assert(all =~= whole.take(499));
        } else {
            assert(all =~= whole);
        }
    }
    let lifetime: u128 = expiration_time() as u128;
    let needed: u128 = now as u128 + EXPIRATION_BUFFER_SECS as u128;
    let mut r: Vec<Transaction> = Vec::new();
    let mut i: usize = 0;
    assert(transactions_view(r@) =~= all.take(0).filter(pred)) by {
        reveal(Seq::filter);
    }
    while i < fitting.len()
        invariant
            i <= fitting@.len(),
            lifetime == 350,
            needed == now + EXPIRATION_BUFFER_SECS,
            all == transactions_view(fitting@),
            pred == (|t: TransactionView| is_eligible(t.timestamp, now)),
            transactions_view(r@) == all.take(i as int).filter(pred),
        decreases fitting.len() - i,
    {
        let t = &fitting[i];
        let ghost before = r@;
        if t.timestamp as u128 + lifetime >= needed {
            r.push(t.copy());
        }
        proof {
            reveal(Seq::filter);
            let next = all.take(i + 1);
            assert(next.drop_last() =~= all.take(i as int));
            assert(next.last() == t@);
            if is_eligible(t.timestamp, now) {
                assert(transactions_view(r@) =~= transactions_view(before).push(t@));
            }
        }
        i = i + 1;
    }
    assert(all.take(i as int) =~= all);
    r
}

/// The transactions that go into a job by the clock.
pub fn get_current_mempool(mempool: &Vec<Transaction>) -> (r: Vec<Transaction>)
    ensures
        exists|now: u64|
            transactions_view(r@) == #[trigger] job_transactions(transactions_view(mempool@), now),
{
    let now = utc_now_secs();
    choose_transactions(mempool, now)
}

/// Lets one job be built at a time.
#[derive(Clone, Copy, PartialEq, Eq, Debug, Structural)]
pub struct JobGate {
    pub is_building: bool,
}

impl JobGate {
    /// No job is being built.
    pub fn new() -> (g: JobGate)
        ensures
            !g.is_building,
    {
        JobGate { is_building: false }
    }

    /// Whether a job may be built now; if so, it is being built from now on.
    pub fn enter(&mut self) -> (r: bool)
        ensures
            r == !old(self).is_building,
            final(self).is_building,
    {
        if self.is_building {
            return false;
        }
        self.is_building = true;
        true
    }

    /// No job is being built any more.
    pub fn leave(&mut self)
        ensures
            !final(self).is_building,
    {
        self.is_building = false;
    }
}

/// What comes next in building a job.
#[derive(Clone, Copy, PartialEq, Eq, Debug, Structural)]
pub enum BuildStep {
    /// Build the job and hand it to the miners.
    Build,
    /// Wait for so many seconds.
    Sleep(u64),
    /// Connect to the node anew, after a wait of so many seconds.
    Connect(u64),
    /// Nothing: there is a new job.
    Done,
    /// Nothing: there is no new job, but a new connection.
    Reconnected,
}

/// How it went.
#[derive(Clone, Copy, PartialEq, Eq, Debug, Structural)]
pub enum BuildEvent {
    Built,
    BuildFailed,
    Slept,
    Connected,
    ConnectFailed,
}

/// The wait after a wait of `secs`: twice as long, within the limit.
pub open spec fn longer_backoff(secs: u64) -> u64 {
    if 2 * secs > MAX_BACKOFF_SECS {
        MAX_BACKOFF_SECS
    } else {
        (2 * secs) as u64
    }
}

/// The step that follows when `step` went as `event` says. An event that does
/// not belong to the step changes nothing.
pub open spec fn build_step(step: BuildStep, event: BuildEvent) -> BuildStep {
    match (step, event) {
        (BuildStep::Build, BuildEvent::Built) => BuildStep::Done,
        (BuildStep::Build, BuildEvent::BuildFailed) => BuildStep::Sleep(FIRST_BACKOFF_SECS),
        (BuildStep::Sleep(secs), BuildEvent::Slept) => BuildStep::Connect(secs),
        (BuildStep::Connect(_), BuildEvent::Connected) => BuildStep::Reconnected,
        (BuildStep::Connect(secs), BuildEvent::ConnectFailed) => BuildStep::Sleep(
            longer_backoff(secs),
        ),
        (step, _) => step,
    }
}

/// The wait after a wait of `secs`; see `longer_backoff`.
pub fn next_backoff(secs: u64) -> (r: u64)
    ensures
        r == longer_backoff(secs),
{
    if secs > MAX_BACKOFF_SECS / 2 {
        MAX_BACKOFF_SECS
    } else {
        secs * 2
    }
}

/// The step that follows; see `build_step`.
pub fn next_build_step(step: BuildStep, event: BuildEvent) -> (r: BuildStep)
    ensures
        r == build_step(step, event),
{
    match (step, event) {
        (BuildStep::Build, BuildEvent::Built) => BuildStep::Done,
        (BuildStep::Build, BuildEvent::BuildFailed) => BuildStep::Sleep(FIRST_BACKOFF_SECS),
        (BuildStep::Sleep(secs), BuildEvent::Slept) => BuildStep::Connect(secs),
        (BuildStep::Connect(_), BuildEvent::Connected) => BuildStep::Reconnected,
        (BuildStep::Connect(secs), BuildEvent::ConnectFailed) => BuildStep::Sleep(
            next_backoff(secs),
        ),
        (step, _) => step,
    }
}

/// A job leaves room for the reward in its block, and holds transactions of the
/// mempool only.
pub proof fn law_jobs_fit_into_a_block(mempool: Seq<TransactionView>, now: u64)
    ensures
        job_transactions(mempool, now).len() <= 499,
        forall|t: TransactionView| #[trigger]
            job_transactions(mempool, now).contains(t) ==> mempool.contains(t) && is_eligible(
                t.timestamp,
                now,
            ),
{
    let fitting = if mempool.len() > 499 {
        mempool.take(499)
    } else {
        mempool
    };
    let pred = |t: TransactionView| is_eligible(t.timestamp, now);
    fitting.lemma_filter_len(pred);
    assert forall|t: TransactionView| #[trigger]
        job_transactions(mempool, now).contains(t) implies mempool.contains(t) && is_eligible(
        t.timestamp,
        now,
    ) by {
        fitting.lemma_filter_contains_rev(pred, t);
        let i = choose|i: int| 0 <= i < fitting.len() && fitting[i] == t;
        assert(mempool[i] == t);
        assert(pred(t)) by {
            broadcast use vstd::seq_lib::group_filter_ensures;
        }
    }
}

/// Where building stands after the node has failed and `n` attempts to reconnect
/// have failed since.
pub open spec fn after_failures(n: nat) -> BuildStep
    decreases n,
{
    if n == 0 {
        build_step(BuildStep::Build, BuildEvent::BuildFailed)
    } else {
        build_step(
            build_step(after_failures((n - 1) as nat), BuildEvent::Slept),
            BuildEvent::ConnectFailed,
        )
    }
}

/// The waits double from two seconds on until they reach a minute, and stay
/// there.
pub proof fn law_backoff_doubles_up_to_a_minute(n: nat)
    ensures
        after_failures(n) == BuildStep::Sleep(
            if exp(2, n + 1) > 60 {
                60
            } else {
                exp(2, n + 1) as u64
            },
        ),
    decreases n,
{
    if n > 0 {
        law_backoff_doubles_up_to_a_minute((n - 1) as nat);
        assert(exp(2, n + 1) == 2 * exp(2, n));
    } else {
        assert(exp(2, 1) == 2 * exp(2, 0));
    }
}

/// A job that could not be built is not handed out later: once the node has
/// failed, building ends with a new connection or not at all.
pub proof fn law_failed_builds_end_with_a_connection(step: BuildStep, event: BuildEvent)
    requires
        !(step is Build),
        !(step is Done),
    ensures
        !(build_step(step, event) is Build),
        !(build_step(step, event) is Done),
        step is Reconnected ==> build_step(step, event) == step,
{
}

/// Only its time keeps a transaction out of a job that has room: the parts of a
/// mempool are chosen from on their own and joined in their order, and a single
/// transaction is taken exactly where at least five of its 350 seconds are left.
/// Of a mempool with more than 499 transactions the first 499 count.
pub proof fn law_only_time_and_room_keep_transactions_out(
    a: Seq<TransactionView>,
    b: Seq<TransactionView>,
    t: TransactionView,
    now: u64,
)
    ensures
        a.len() + b.len() <= 499 ==> job_transactions(a + b, now) == job_transactions(a, now)
            + job_transactions(b, now),
        a.len() >= 499 ==> job_transactions(a + b, now) == job_transactions(a.take(499), now),
        job_transactions(Seq::<TransactionView>::empty(), now).len() == 0,
        t.timestamp + 350 >= now + 5 ==> job_transactions(seq![t], now) == seq![t],
        t.timestamp + 350 < now + 5 ==> job_transactions(seq![t], now).len() == 0,
        a.len() <= 499 ==> (job_transactions(a, now).contains(t) <==> a.contains(t) && t.timestamp
            + 350 >= now + 5),
{
    let pred = |t: TransactionView| is_eligible(t.timestamp, now);
    Seq::filter_distributes_over_add(a, b, pred);
    reveal(Seq::filter);
    if a.len() >= 499 {
        assert(a.take(499).take(499) =~= a.take(499));
        if (a + b).len() > 499 {
            assert((a + b).take(499) =~= a.take(499));
        } else {
            assert(a + b =~= a.take(499));
        }
    }
    assert(seq![t].drop_last() =~= Seq::<TransactionView>::empty());
    assert(seq![t].drop_last().filter(pred) =~= Seq::<TransactionView>::empty());
    if t.timestamp + 350 >= now + 5 {
        assert(job_transactions(seq![t], now) =~= seq![t]);
    }
    if a.len() <= 499 {
        let job = job_transactions(a, now);
        if job.contains(t) {
            a.lemma_filter_contains_rev(pred, t);
            let i = choose|i: int| 0 <= i < job.len() && job[i] == t;
            a.lemma_filter_pred(pred, i);
        }
        if a.contains(t) && t.timestamp + 350 >= now + 5 {
            let i = choose|i: int| 0 <= i < a.len() && a[i] == t;
            a.lemma_filter_contains(pred, i);
        }
    }
}

/// A mempool that fits and has no transaction about to expire becomes the job
/// whole.
pub proof fn law_a_fresh_mempool_becomes_the_job(mempool: Seq<TransactionView>, now: u64)
    requires
        mempool.len() <= 499,
        forall|i: int|
            0 <= i < mempool.len() ==> (#[trigger] mempool[i]).timestamp + 350 >= now + 5,
    ensures
        job_transactions(mempool, now) == mempool,
    decreases mempool.len(),
{
    reveal(Seq::filter);
    if mempool.len() > 0 {
        let t = mempool.drop_last();
        assert forall|i: int| 0 <= i < t.len() implies (#[trigger] t[i]).timestamp + 350 >= now
            + 5 by {
            assert(mempool[i].timestamp + 350 >= now + 5);
        }
        law_a_fresh_mempool_becomes_the_job(t, now);
        assert(mempool[mempool.len() - 1].timestamp + 350 >= now + 5);
        assert(mempool =~= t.push(mempool.last()));
    } else {
        assert(job_transactions(mempool, now) =~= mempool);
    }
}

/// A job is done when it is built and not before; a lost node is waited for and
/// connected to until that succeeds, each wait twice the last one and a minute at
/// most. What does not belong to the step changes nothing.
pub proof fn law_building_goes_on_as_it_went(secs: u64, event: BuildEvent)
    ensures
        build_step(BuildStep::Build, event) == match event {
            BuildEvent::Built => BuildStep::Done,
            BuildEvent::BuildFailed => BuildStep::Sleep(2),
            _ => BuildStep::Build,
        },
        build_step(BuildStep::Sleep(secs), event) == match event {
            BuildEvent::Slept => BuildStep::Connect(secs),
            _ => BuildStep::Sleep(secs),
        },
        build_step(BuildStep::Connect(secs), event) == match event {
            BuildEvent::Connected => BuildStep::Reconnected,
            BuildEvent::ConnectFailed => BuildStep::Sleep(
                vstd::math::min(2 * secs, 60) as u64,
            ),
            _ => BuildStep::Connect(secs),
        },
        build_step(BuildStep::Done, event) == BuildStep::Done,
        build_step(BuildStep::Reconnected, event) == BuildStep::Reconnected,
{
}

} // verus!
