//! The way of a submitted block: judged as a share, credited to its miner, and
//! where it meets the network's difficulty, handed to the node and paid out.
//!
//! A `Submission` says what has to be done next. Whoever does it reports how it
//! went, and is told what to announce.

use vstd::prelude::*;

use crate::chain::{Block, BlockView};
use crate::events::{hash_text, share_accepted, spell_hash, EventView, PoolEvent};
use crate::handle_share::{
    handle_share, law_a_block_meets_the_network_by_its_whole_hash, network_verdict, share_verdict,
    validate_difficulties, ShareError,
};
use crate::snapcoin::{
    block_reward, eased_block_target, law_rewards_are_bounded, reward_at, REWARD_HEIGHT_LIMIT,
};
use crate::text::{hex, law_short_hex_is_a_prefix};

verus! {

/// Why a submission is turned down.
#[derive(Clone, Copy, PartialEq, Eq, Debug, Structural)]
pub enum SubmissionError {
    /// The node did not answer.
    Node,
    /// The block is no share.
    Share(ShareError),
}

/// What has to be done next.
#[derive(Clone, Copy, PartialEq, Eq, Debug, Structural)]
pub enum SubmissionStep {
    /// Ask the node for its height.
    Height,
    /// Ask the node for its difficulties.
    Difficulty,
    /// Read the node's mempool.
    Mempool,
    /// Judge the block as a share.
    Judge,
    /// Credit the share to the miner.
    Award,
    /// Hand the block to the node.
    Submit,
    /// Distribute the reward.
    Payout,
    /// Nothing: the share was taken.
    Accepted,
    /// Nothing: the share was turned down.
    Rejected(SubmissionError),
}

/// How it went.
#[derive(Clone, Copy, Debug)]
pub enum SubmissionEvent {
    Height(u64),
    Difficulty { transaction: [u8; 32], block: [u8; 32] },
    MempoolRead,
    NodeFailed,
    Judged(Result<u64, ShareError>),
    /// The share was credited, or was a duplicate; all unpaid work comes to
    /// `work_total`.
    Awarded { work_total: u128 },
    Submitted,
    NotSubmitted,
    /// The reward is distributed; `pool_fee` is the operator's share of it.
    PaidOut { pool_fee: u64 },
    PayoutFailed,
}

/// The contents of a `SubmissionEvent`.
pub enum HeardView {
    Height(u64),
    Difficulty { transaction: Seq<u8>, block: Seq<u8> },
    MempoolRead,
    NodeFailed,
    Judged(Result<u64, ShareError>),
    Awarded { work_total: u128 },
    Submitted,
    NotSubmitted,
    PaidOut { pool_fee: u64 },
    PayoutFailed,
}

impl View for SubmissionEvent {
    type V = HeardView;

    open spec fn view(&self) -> HeardView {
        match *self {
            SubmissionEvent::Height(height) => HeardView::Height(height),
            SubmissionEvent::Difficulty { transaction, block } => HeardView::Difficulty {
                transaction: transaction@,
                block: block@,
            },
            SubmissionEvent::MempoolRead => HeardView::MempoolRead,
            SubmissionEvent::NodeFailed => HeardView::NodeFailed,
            SubmissionEvent::Judged(verdict) => HeardView::Judged(verdict),
            SubmissionEvent::Awarded { work_total } => HeardView::Awarded { work_total },
            SubmissionEvent::Submitted => HeardView::Submitted,
            SubmissionEvent::NotSubmitted => HeardView::NotSubmitted,
            SubmissionEvent::PaidOut { pool_fee } => HeardView::PaidOut { pool_fee },
            SubmissionEvent::PayoutFailed => HeardView::PayoutFailed,
        }
    }
}

/// A submission on its way.
#[derive(Clone, Copy, Debug)]
pub struct Submission {
    pub step: SubmissionStep,
    pub height: u64,
    pub transaction_difficulty: [u8; 32],
    pub block_difficulty: [u8; 32],
}

/// The contents of a `Submission`.
pub struct SubmissionView {
    pub step: SubmissionStep,
    pub height: u64,
    pub transaction_difficulty: Seq<u8>,
    pub block_difficulty: Seq<u8>,
}

impl View for Submission {
    type V = SubmissionView;

    open spec fn view(&self) -> SubmissionView {
        SubmissionView {
            step: self.step,
            height: self.height,
            transaction_difficulty: self.transaction_difficulty@,
            block_difficulty: self.block_difficulty@,
        }
    }
}

/// The contents of a list of events.
pub open spec fn events_view(s: Seq<PoolEvent>) -> Seq<EventView> {
    s.map_values(|e: PoolEvent| e@)
}

impl SubmissionView {
    /// A block that goes to the node, or was taken by it, is at a height that has
    /// a reward.
    pub open spec fn wf(self) -> bool {
        self.step is Submit || self.step is Payout ==> self.height < REWARD_HEIGHT_LIMIT
    }

    /// What was heard makes the block, and with it its reward, to be announced.
    pub open spec fn announces_block(self, event: HeardView, meets_network: bool) -> bool {
        self.step is Award && event is Awarded && meets_network
    }

    /// Whether the block meets the network's difficulties.
    pub open spec fn meets_network(self, block: BlockView) -> bool {
        network_verdict(
            block,
            self.block_difficulty,
            self.transaction_difficulty,
            eased_block_target(self.block_difficulty, block.transactions.len()),
        ) is Ok
    }

    /// The submission after what was heard, where `meets_network` says whether
    /// the block meets the network's difficulties. What does not belong to the
    /// step changes nothing.
    pub open spec fn heard(self, event: HeardView, meets_network: bool) -> SubmissionView {
        match (self.step, event) {
            (SubmissionStep::Height, HeardView::Height(height)) => SubmissionView {
                step: SubmissionStep::Difficulty,
                height,
                ..self
            },
            (SubmissionStep::Difficulty, HeardView::Difficulty { transaction, block }) =>
                SubmissionView {
                step: SubmissionStep::Mempool,
                transaction_difficulty: transaction,
                block_difficulty: block,
                ..self
            },
            (SubmissionStep::Mempool, HeardView::MempoolRead) => SubmissionView {
                step: SubmissionStep::Judge,
                ..self
            },
            (SubmissionStep::Height, HeardView::NodeFailed) => self.rejected(SubmissionError::Node),
            (SubmissionStep::Difficulty, HeardView::NodeFailed) => self.rejected(
                SubmissionError::Node,
            ),
            (SubmissionStep::Mempool, HeardView::NodeFailed) => self.rejected(SubmissionError::Node),
            (SubmissionStep::Judge, HeardView::Judged(Ok(_))) => SubmissionView {
                step: SubmissionStep::Award,
                ..self
            },
            (SubmissionStep::Judge, HeardView::Judged(Err(e))) => self.rejected(
                SubmissionError::Share(e),
            ),
            (SubmissionStep::Award, HeardView::Awarded { .. }) => SubmissionView {
                step: if meets_network {
                    SubmissionStep::Submit
                } else {
                    SubmissionStep::Accepted
                },
                ..self
            },
            (SubmissionStep::Submit, HeardView::Submitted) => SubmissionView {
                step: SubmissionStep::Payout,
                ..self
            },
            (SubmissionStep::Submit, HeardView::NotSubmitted) => SubmissionView {
                step: SubmissionStep::Accepted,
                ..self
            },
            (SubmissionStep::Payout, HeardView::PaidOut { .. }) => SubmissionView {
                step: SubmissionStep::Accepted,
                ..self
            },
            (SubmissionStep::Payout, HeardView::PayoutFailed) => SubmissionView {
                step: SubmissionStep::Accepted,
                ..self
            },
            (_, _) => self,
        }
    }

    /// The submission, turned down.
    pub open spec fn rejected(self, error: SubmissionError) -> SubmissionView {
        SubmissionView { step: SubmissionStep::Rejected(error), ..self }
    }

    /// What there is to announce after what was heard: the share when it was
    /// credited, the block when it meets the network's difficulties, and the
    /// payout when it is complete.
    pub open spec fn announcements(
        self,
        event: HeardView,
        meets_network: bool,
        block_hash: Option<Seq<u8>>,
        miner: Seq<u8>,
        work_units: u128,
        now_secs: u64,
    ) -> Seq<EventView> {
        match (self.step, event) {
            (SubmissionStep::Award, HeardView::Awarded { work_total }) => {
                let share = EventView::ShareAccepted {
                    miner: hex(miner.take(4)),
                    height: self.height,
                    work_units,
                    work_total,
                    timestamp: now_secs,
                };
                let found = EventView::BlockFound {
                    height: self.height,
                    hash: hash_text(block_hash),
                    reward: reward_at(self.height as nat) as u64,
                    timestamp: now_secs,
                };
                if meets_network {
                    seq![share, found]
                } else {
                    seq![share]
                }
            },
            (SubmissionStep::Payout, HeardView::PaidOut { pool_fee }) => seq![
                EventView::PayoutComplete {
                    height: self.height,
                    miners_paid: 0,
                    total_reward: reward_at(self.height as nat) as u64,
                    pool_fee,
                    timestamp: now_secs,
                },
            ],
            (_, _) => Seq::empty(),
        }
    }

    /// Nothing is left to be done.
    pub open spec fn has_ended(self) -> bool {
        self.step is Accepted || self.step is Rejected
    }

    /// How many steps are left at most.
    pub open spec fn steps_left(self) -> nat {
        match self.step {
            SubmissionStep::Height => 7,
            SubmissionStep::Difficulty => 6,
            SubmissionStep::Mempool => 5,
            SubmissionStep::Judge => 4,
            SubmissionStep::Award => 3,
            SubmissionStep::Submit => 2,
            SubmissionStep::Payout => 1,
            SubmissionStep::Accepted => 0,
            SubmissionStep::Rejected(_) => 0,
        }
    }

    /// The event says how the step went.
    pub open spec fn is_answered_by(self, event: HeardView) -> bool {
        match self.step {
            SubmissionStep::Height => event is Height || event is NodeFailed,
            SubmissionStep::Difficulty => event is Difficulty || event is NodeFailed,
            SubmissionStep::Mempool => event is MempoolRead || event is NodeFailed,
            SubmissionStep::Judge => event is Judged,
            SubmissionStep::Award => event is Awarded,
            SubmissionStep::Submit => event is Submitted || event is NotSubmitted,
            SubmissionStep::Payout => event is PaidOut || event is PayoutFailed,
            SubmissionStep::Accepted => false,
            SubmissionStep::Rejected(_) => false,
        }
    }
}

/// The submission before the first step.
pub open spec fn blank_submission() -> SubmissionView {
    SubmissionView {
        step: SubmissionStep::Height,
        height: 0,
        transaction_difficulty: Seq::new(32, |i: int| 0u8),
        block_difficulty: Seq::new(32, |i: int| 0u8),
    }
}

impl Submission {
    /// A submission before the first step.
    pub fn begin() -> (s: Submission)
        ensures
            s@ == blank_submission(),
            s@.wf(),
    {
        let s = Submission {
            step: SubmissionStep::Height,
            height: 0,
            transaction_difficulty: [0u8; 32],
            block_difficulty: [0u8; 32],
        };
        assert(s@.transaction_difficulty =~= Seq::new(32, |i: int| 0u8));
        assert(s@.block_difficulty =~= Seq::new(32, |i: int| 0u8));
        s
    }

    /// Takes in how a step went, where `meets_network` says whether the block meets
    /// the network's difficulties, and says what to announce.
    pub fn hear(
        &mut self,
        event: &SubmissionEvent,
        meets_network: bool,
        block_hash: &Option<[u8; 32]>,
        miner: &[u8; 32],
        work_units: u128,
        now_secs: u64,
    ) -> (r: Vec<PoolEvent>)
        requires
            old(self)@.wf(),
            old(self)@.announces_block(event@, meets_network) ==> old(self).height
                < REWARD_HEIGHT_LIMIT,
        ensures
            final(self)@ == old(self)@.heard(event@, meets_network),
            final(self)@.wf(),
            events_view(r@) == old(self)@.announcements(
                event@,
                meets_network,
                crate::chain::opt_bytes(*block_hash),
                miner@,
                work_units,
                now_secs,
            ),
    {
        let mut r: Vec<PoolEvent> = Vec::new();
        match (self.step, *event) {
            (SubmissionStep::Height, SubmissionEvent::Height(height)) => {
                self.height = height;
                self.step = SubmissionStep::Difficulty;
            },
            (SubmissionStep::Difficulty, SubmissionEvent::Difficulty { transaction, block }) => {
                self.transaction_difficulty = transaction;
                self.block_difficulty = block;
                self.step = SubmissionStep::Mempool;
            },
            (SubmissionStep::Mempool, SubmissionEvent::MempoolRead) => {
                self.step = SubmissionStep::Judge;
            },
            (SubmissionStep::Height, SubmissionEvent::NodeFailed) => {
                self.step = SubmissionStep::Rejected(SubmissionError::Node);
            },
            (SubmissionStep::Difficulty, SubmissionEvent::NodeFailed) => {
                self.step = SubmissionStep::Rejected(SubmissionError::Node);
            },
            (SubmissionStep::Mempool, SubmissionEvent::NodeFailed) => {
                self.step = SubmissionStep::Rejected(SubmissionError::Node);
            },
            (SubmissionStep::Judge, SubmissionEvent::Judged(Ok(_))) => {
                self.step = SubmissionStep::Award;
            },
            (SubmissionStep::Judge, SubmissionEvent::Judged(Err(e))) => {
                self.step = SubmissionStep::Rejected(SubmissionError::Share(e));
            },
            (SubmissionStep::Award, SubmissionEvent::Awarded { work_total }) => {
                r.push(share_accepted(miner, self.height, work_units, work_total, now_secs));
                if meets_network {
                    r.push(
                        PoolEvent::BlockFound {
                            height: self.height,
                            hash: spell_hash(block_hash),
                            reward: block_reward(self.height),
                            timestamp: now_secs,
                        },
                    );
                    self.step = SubmissionStep::Submit;
                } else {
                    self.step = SubmissionStep::Accepted;
                }
            },
            (SubmissionStep::Submit, SubmissionEvent::Submitted) => {
                self.step = SubmissionStep::Payout;
            },
            (SubmissionStep::Submit, SubmissionEvent::NotSubmitted) => {
                self.step = SubmissionStep::Accepted;
            },
            (SubmissionStep::Payout, SubmissionEvent::PaidOut { pool_fee }) => {
                r.push(
                    PoolEvent::PayoutComplete {
                        height: self.height,
                        miners_paid: 0,
                        total_reward: block_reward(self.height),
                        pool_fee,
                        timestamp: now_secs,
                    },
                );
                self.step = SubmissionStep::Accepted;
            },
            (SubmissionStep::Payout, SubmissionEvent::PayoutFailed) => {
                self.step = SubmissionStep::Accepted;
            },
            (_, _) => {},
        }
        assert(events_view(r@) =~= old(self)@.announcements(
            event@,
            meets_network,
            crate::chain::opt_bytes(*block_hash),
            miner@,
            work_units,
            now_secs,
        ));
        r
    }

    /// Judges the block as a share of the job by the clock, and takes in the verdict.
    /// There is nothing to announce yet.
    pub fn judge(&mut self, job: &Block, block: &Block, target: &[u8; 32])
        requires
            old(self)@.wf(),
        ensures
            exists|now: u64|
                final(self)@ == old(self)@.heard(
                    HeardView::Judged(#[trigger] share_verdict(job@, block@, target@, now)),
                    false,
                ),
            old(self).step is Judge && final(self).step is Award ==> block.meta.hash is Some,
            final(self)@.wf(),
    {
        let verdict = handle_share(job, block, target);
        let ghost now = choose|now: u64|
            verdict == #[trigger] share_verdict(job@, block@, target@, now);
        self.hear(&SubmissionEvent::Judged(verdict), false, &block.meta.hash, &[0u8; 32], 0, 0);
        assert(self@ == old(self)@.heard(
            HeardView::Judged(share_verdict(job@, block@, target@, now)),
            false,
        ));
    }

    /// Takes in how a step of submitting `block` went and says what to announce.
    /// Nothing is taken in where a block would have to be announced at a height
    /// without a reward. A block whose share was credited has a hash.
    pub fn handle_new_block(
        &mut self,
        event: &SubmissionEvent,
        block: &Block,
        miner: &[u8; 32],
        work_units: u128,
        now_secs: u64,
    ) -> (r: Option<Vec<PoolEvent>>)
        requires
            old(self)@.wf(),
            old(self).step is Award ==> block.meta.hash is Some,
        ensures
            r is None <==> old(self)@.announces_block(
                event@,
                old(self)@.meets_network(block@),
            ) && old(self).height >= REWARD_HEIGHT_LIMIT,
            r is None ==> *final(self) == *old(self),
            r is Some ==> final(self)@ == old(self)@.heard(
                event@,
                old(self)@.meets_network(block@),
            ),
            final(self)@.wf(),
            r is Some ==> events_view(r->0@) == old(self)@.announcements(
                event@,
                old(self)@.meets_network(block@),
                block@.meta.hash,
                miner@,
                work_units,
                now_secs,
            ),
    {
        let mut meets_network = false;
        if let SubmissionStep::Award = self.step {
            meets_network =
            validate_difficulties(
                block,
                &self.block_difficulty,
                &self.transaction_difficulty,
            ).is_ok();
        }
        if let SubmissionEvent::Awarded { .. } = event {
            if meets_network && self.height >= REWARD_HEIGHT_LIMIT {
                return None;
            }
        }
        Some(self.hear(event, meets_network, &block.meta.hash, miner, work_units, now_secs))
    }
}

/// Where a submission stands after a history. The block meets the network's
/// difficulties or not by `meets_network`.
pub open spec fn submission_after(history: Seq<HeardView>, meets_network: bool) -> SubmissionView
    decreases history.len(),
{
    if history.len() == 0 {
        blank_submission()
    } else {
        submission_after(history.drop_last(), meets_network).heard(history.last(), meets_network)
    }
}

/// The share was judged good.
pub open spec fn judged_good(history: Seq<HeardView>) -> bool {
    exists|i: int|
        0 <= i < history.len() && (#[trigger] history[i] matches HeardView::Judged(v) && v is Ok)
}

/// The node has taken the block.
pub open spec fn taken_by_node(history: Seq<HeardView>) -> bool {
    exists|i: int| 0 <= i < history.len() && #[trigger] history[i] is Submitted
}

/// Past the judgement.
pub open spec fn is_credited(step: SubmissionStep) -> bool {
    step is Award || step is Submit || step is Payout || step is Accepted
}

/// Each answer leaves fewer steps, and the steps end with the submission.
pub proof fn law_submissions_end(s: SubmissionView, event: HeardView, meets_network: bool)
    ensures
        s.is_answered_by(event) ==> s.heard(event, meets_network).steps_left() < s.steps_left(),
        !s.is_answered_by(event) ==> s.heard(event, meets_network) == s,
        s.steps_left() == 0 <==> s.has_ended(),
{
}

/// Only a share that was judged good is credited, handed on or accepted; and only
/// a block that meets the network's difficulties and that the node has taken is
/// paid out.
pub proof fn law_payout_only_for_blocks_the_node_took(history: Seq<HeardView>, meets_network: bool)
    ensures
        is_credited(submission_after(history, meets_network).step) ==> judged_good(history),
        submission_after(history, meets_network).step is Submit ==> meets_network,
        submission_after(history, meets_network).step is Payout ==> meets_network && taken_by_node(
            history,
        ),
    decreases history.len(),
{
    if history.len() > 0 {
        let before = history.drop_last();
        law_payout_only_for_blocks_the_node_took(before, meets_network);
        if judged_good(before) {
            let i = choose|i: int|
                0 <= i < before.len() && (#[trigger] before[i] matches HeardView::Judged(v)
                    && v is Ok);
            assert(history[i] matches HeardView::Judged(v) && v is Ok);
        }
        if taken_by_node(before) {
            let i = choose|i: int| 0 <= i < before.len() && #[trigger] before[i] is Submitted;
            assert(history[i] is Submitted);
        }
        assert(history[history.len() - 1] == history.last());
    }
}

/// A share that was credited is never turned down, whatever becomes of the block,
/// and one that was turned down is never credited.
pub proof fn law_credited_shares_stay_accepted(
    s: SubmissionView,
    event: HeardView,
    meets_network: bool,
)
    ensures
        is_credited(s.step) ==> is_credited(s.heard(event, meets_network).step),
        s.step is Rejected ==> s.heard(event, meets_network) == s,
{
}

/// Nothing is announced before a share is credited, and nothing once the
/// submission has ended; a block is announced only together with its share, and
/// only where it meets the network's difficulties.
pub proof fn law_only_credited_shares_are_announced(
    s: SubmissionView,
    event: HeardView,
    meets_network: bool,
    block_hash: Option<Seq<u8>>,
    miner: Seq<u8>,
    work_units: u128,
    now_secs: u64,
)
    ensures
        ({
            let told = s.announcements(
                event,
                meets_network,
                block_hash,
                miner,
                work_units,
                now_secs,
            );
            &&& told.len() > 0 ==> s.step is Award || s.step is Payout
            &&& s.step is Award && s.is_answered_by(event) ==> told.len() > 0
                && told[0] is ShareAccepted
            &&& s.step is Award && told.len() == 2 <==> s.step is Award && s.is_answered_by(event)
                && meets_network
            &&& told.len() == 2 ==> told[1] is BlockFound
        }),
{
}

/// What becomes of a submission by what is heard. Each good answer leads to the
/// next step; the height and the difficulties are those that the node told, and
/// stay; and a submission is turned down where the node does not answer before the
/// judgement, or by the judgement, for the reason that it gives.
pub proof fn law_each_answer_leads_on(s: SubmissionView, event: HeardView, meets_network: bool)
    ensures
        ({
            let after = s.heard(event, meets_network);
            &&& s.step is Height && event is Height ==> after.step is Difficulty && after.height
                == event->Height_0
            &&& s.step is Difficulty && event is Difficulty ==> after.step is Mempool
                && after.transaction_difficulty == event->transaction && after.block_difficulty
                == event->block
            &&& s.step is Mempool && event is MempoolRead ==> after.step is Judge
            &&& s.step is Judge && event is Judged && event->Judged_0 is Ok ==> after.step is Award
            &&& s.step is Award && event is Awarded && meets_network ==> after.step is Submit
            &&& s.step is Award && event is Awarded && !meets_network ==> after.step is Accepted
            &&& s.step is Submit && event is Submitted ==> after.step is Payout
            &&& s.step is Submit && event is NotSubmitted ==> after.step is Accepted
            &&& s.step is Payout && event is PaidOut ==> after.step is Accepted
            &&& s.step is Payout && event is PayoutFailed ==> after.step is Accepted
            &&& !(s.step is Height && event is Height) ==> after.height == s.height
            &&& !(s.step is Difficulty && event is Difficulty) ==> after.block_difficulty
                == s.block_difficulty && after.transaction_difficulty == s.transaction_difficulty
            &&& after.step is Rejected && !(s.step is Rejected) <==> event is NodeFailed && (
            s.step is Height || s.step is Difficulty || s.step is Mempool) || s.step is Judge
                && event is Judged && event->Judged_0 is Err
            &&& after.step is Rejected && event is NodeFailed && !(s.step is Rejected)
                ==> after.step->Rejected_0 is Node
            &&& after.step is Rejected && event is Judged && !(s.step is Rejected)
                ==> after.step->Rejected_0 == SubmissionError::Share(event->Judged_0->Err_0)
        }),
{
}

/// What is heard out of turn changes nothing and announces nothing.
pub proof fn law_what_is_heard_out_of_turn(
    s: SubmissionView,
    event: HeardView,
    meets_network: bool,
    block_hash: Option<Seq<u8>>,
    miner: Seq<u8>,
    work_units: u128,
    now_secs: u64,
)
    requires
        !(s.step is Height && (event is Height || event is NodeFailed)),
        !(s.step is Difficulty && (event is Difficulty || event is NodeFailed)),
        !(s.step is Mempool && (event is MempoolRead || event is NodeFailed)),
        !(s.step is Judge && event is Judged),
        !(s.step is Award && event is Awarded),
        !(s.step is Submit && (event is Submitted || event is NotSubmitted)),
        !(s.step is Payout && (event is PaidOut || event is PayoutFailed)),
    ensures
        s.heard(event, meets_network) == s,
        s.announcements(event, meets_network, block_hash, miner, work_units, now_secs).len() == 0,
{
}

/// A credited share is announced with the first eight digits of its miner's key,
/// the height that the node told, and the work of the share and in all; the block,
/// where it meets the network, with its whole hash and the reward at that height;
/// and a payout with the same reward and the operator's part of it.
pub proof fn law_what_is_announced(
    s: SubmissionView,
    event: HeardView,
    meets_network: bool,
    block_hash: Seq<u8>,
    miner: Seq<u8>,
    work_units: u128,
    now_secs: u64,
)
    requires
        miner.len() == 32,
    ensures
        ({
            let told = s.announcements(
                event,
                meets_network,
                Some(block_hash),
                miner,
                work_units,
                now_secs,
            );
            &&& s.step is Award && event is Awarded ==> {
                &&& told.len() == (if meets_network {
                    2nat
                } else {
                    1nat
                })
                &&& told[0] matches EventView::ShareAccepted {
                    miner: name,
                    height,
                    work_units: units,
                    work_total: total,
                    timestamp,
                }
                &&& name == hex(miner).take(8)
                &&& height == s.height
                &&& units == work_units
                &&& total == event->work_total
                &&& timestamp == now_secs
            }
            &&& s.step is Award && event is Awarded && meets_network ==> {
                &&& told[1] matches EventView::BlockFound { height, hash, reward, timestamp }
                &&& height == s.height
                &&& hash == hex(block_hash)
                &&& reward == reward_at(s.height as nat)
                &&& timestamp == now_secs
            }
            &&& s.step is Payout && event is PaidOut ==> {
                &&& told.len() == 1
                &&& told[0] matches EventView::PayoutComplete {
                    height,
                    miners_paid,
                    total_reward,
                    pool_fee,
                    timestamp,
                }
                &&& height == s.height
                &&& miners_paid == 0
                &&& total_reward == reward_at(s.height as nat)
                &&& pool_fee == event->pool_fee
                &&& timestamp == now_secs
            }
            &&& s.step is Payout && event is PayoutFailed ==> told.len() == 0
            &&& s.step is Submit ==> told.len() == 0
            &&& s.step is Judge ==> told.len() == 0
        }),
{
    law_short_hex_is_a_prefix(miner);
    law_rewards_are_bounded(s.height as nat);
}

/// A submitted block meets the network exactly where it was mined for the two
/// difficulties that the node told, and its whole hash is at most the block target
/// eased for its transactions.
pub proof fn law_a_submission_meets_the_network_by_its_hash(s: SubmissionView, block: BlockView)
    ensures
        s.meets_network(block) <==> block.meta.block_pow_difficulty == s.block_difficulty
            && block.meta.tx_pow_difficulty == s.transaction_difficulty && (
        block.meta.hash->0).fold_left(0int, |read: int, b: u8| read * 256 + b)
            <= eased_block_target(s.block_difficulty, block.transactions.len()).fold_left(
            0int,
            |read: int, b: u8| read * 256 + b,
        ),
{
    law_a_block_meets_the_network_by_its_whole_hash(
        block,
        s.block_difficulty,
        s.transaction_difficulty,
        eased_block_target(s.block_difficulty, block.transactions.len()),
    );
}

/// A submission begins by asking for the height, with nothing known.
pub proof fn law_submissions_begin_blank(i: int)
    ensures
        blank_submission().step is Height,
        blank_submission().height == 0,
        blank_submission().transaction_difficulty.len() == 32,
        blank_submission().block_difficulty.len() == 32,
        0 <= i < 32 ==> blank_submission().transaction_difficulty[i] == 0
            && blank_submission().block_difficulty[i] == 0,
{
}

/// A history starts from nothing heard, and one more event is heard where the rest
/// has led.
pub proof fn law_submissions_go_on_as_they_went(
    history: Seq<HeardView>,
    event: HeardView,
    meets_network: bool,
)
    ensures
        submission_after(Seq::empty(), meets_network) == blank_submission(),
        submission_after(history.push(event), meets_network) == submission_after(
            history,
            meets_network,
        ).heard(event, meets_network),
{
    assert(history.push(event).drop_last() =~= history);
}

/// Events are announced in order, each with its contents.
pub proof fn law_events_are_viewed_in_order(s: Seq<PoolEvent>, i: int)
    ensures
        events_view(s).len() == s.len(),
        0 <= i < s.len() ==> events_view(s)[i] == s[i]@,
{
}

} // verus!
