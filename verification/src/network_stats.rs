//! A snapshot of the network, put together from the node's answers.
//!
//! The node is asked for its height, its difficulties, and the hash and the time
//! of two blocks. Without the first two answers there is no snapshot; what else
//! stays unanswered is left blank.

use vstd::arithmetic::power::pow;
use vstd::prelude::*;

use crate::bytes::{be_value, law_big_endian};
use crate::chain::opt_bytes;
use crate::difficulty::{
    difficulty_of, law_difficulty_is_how_often_a_hash_fits, network_difficulty,
};
use crate::events::{hash_text, law_hashes_are_spelled, spell_hash, EventView, PoolEvent};
use crate::snapcoin::{block_reward, law_rewards_are_bounded, reward_at, REWARD_HEIGHT_LIMIT};
use crate::text::hex;

verus! {

/// Seconds over which the network is taken to find a block, for its hash rate.
pub const NETWORK_HASHRATE_WINDOW_SECS: u64 = 30;

/// Blocks between the two whose times are compared for the average block time.
pub const AVG_BLOCK_TIME_SAMPLE: u64 = 10;

/// What the node is asked next.
#[derive(Clone, Copy, PartialEq, Eq, Debug, Structural)]
pub enum StatsStep {
    Height,
    Difficulty,
    LastHash,
    LastBlock,
    OlderHash,
    OlderBlock,
    /// Nothing more: the snapshot is complete.
    Finished,
    /// Nothing more: there is no snapshot.
    Abandoned,
}

/// A question to the node.
#[derive(Clone, Copy, Debug)]
pub enum NodeQuery {
    Height,
    Difficulty,
    BlockHash(u64),
    Block([u8; 32]),
}

/// The node's answer.
#[derive(Clone, Copy, Debug)]
pub enum NodeReply {
    /// The height of the next block to be mined.
    Height(u64),
    /// The block target.
    Difficulty([u8; 32]),
    /// The hash of the block at the height, if there is one.
    BlockHash(Option<[u8; 32]>),
    /// The time of the block, if there is one.
    Block(Option<u64>),
    /// No answer, or not to the question.
    Nothing,
}

/// The contents of a `NodeReply`.
pub enum ReplyView {
    Height(u64),
    Difficulty(Seq<u8>),
    BlockHash(Option<Seq<u8>>),
    Block(Option<u64>),
    Nothing,
}

impl View for NodeReply {
    type V = ReplyView;

    open spec fn view(&self) -> ReplyView {
        match *self {
            NodeReply::Height(h) => ReplyView::Height(h),
            NodeReply::Difficulty(t) => ReplyView::Difficulty(t@),
            NodeReply::BlockHash(h) => ReplyView::BlockHash(opt_bytes(h)),
            NodeReply::Block(ts) => ReplyView::Block(ts),
            NodeReply::Nothing => ReplyView::Nothing,
        }
    }
}

/// The contents of a `NodeQuery`.
pub enum QueryView {
    Height,
    Difficulty,
    BlockHash(u64),
    Block(Seq<u8>),
}

impl View for NodeQuery {
    type V = QueryView;

    open spec fn view(&self) -> QueryView {
        match *self {
            NodeQuery::Height => QueryView::Height,
            NodeQuery::Difficulty => QueryView::Difficulty,
            NodeQuery::BlockHash(h) => QueryView::BlockHash(h),
            NodeQuery::Block(h) => QueryView::Block(h@),
        }
    }
}

/// A snapshot in the making.
#[derive(Clone, Copy, Debug)]
pub struct StatsSnapshot {
    pub step: StatsStep,
    pub height: u64,
    pub target: [u8; 32],
    pub last_hash: Option<[u8; 32]>,
    pub last_time: Option<u64>,
    /// The age of the last block when the node told its time.
    pub last_age: u64,
    pub older_hash: Option<[u8; 32]>,
    pub older_time: Option<u64>,
}

/// The contents of a `StatsSnapshot`.
pub struct SnapshotView {
    pub step: StatsStep,
    pub height: u64,
    pub target: Seq<u8>,
    pub last_hash: Option<Seq<u8>>,
    pub last_time: Option<u64>,
    /// The age of the last block when the node told its time.
    pub last_age: u64,
    pub older_hash: Option<Seq<u8>>,
    pub older_time: Option<u64>,
}

impl View for StatsSnapshot {
    type V = SnapshotView;

    open spec fn view(&self) -> SnapshotView {
        SnapshotView {
            step: self.step,
            height: self.height,
            target: self.target@,
            last_hash: opt_bytes(self.last_hash),
            last_time: self.last_time,
            last_age: self.last_age,
            older_hash: opt_bytes(self.older_hash),
            older_time: self.older_time,
        }
    }
}

/// `a - b`, at least zero.
pub open spec fn minus(a: u64, b: u64) -> u64 {
    if a > b {
        (a - b) as u64
    } else {
        0
    }
}

/// The height of the last block that was mined, where `height` is that of the
/// next one.
pub open spec fn last_height(height: u64) -> u64 {
    minus(height, 1)
}

/// The height of the block that the last one is compared with.
pub open spec fn older_height(height: u64) -> u64 {
    minus(last_height(height), AVG_BLOCK_TIME_SAMPLE)
}

impl SnapshotView {
    /// The snapshot with the node's answer to its question, which came at
    /// `now_secs`.
    pub open spec fn answered(self, reply: ReplyView, now_secs: u64) -> SnapshotView {
        match (self.step, reply) {
            (StatsStep::Height, ReplyView::Height(height)) => SnapshotView {
                step: StatsStep::Difficulty,
                height,
                ..self
            },
            (StatsStep::Height, _) => SnapshotView { step: StatsStep::Abandoned, ..self },
            (StatsStep::Difficulty, ReplyView::Difficulty(target)) => SnapshotView {
                step: if last_height(self.height) > 0 {
                    StatsStep::LastHash
                } else {
                    StatsStep::Finished
                },
                target,
                ..self
            },
            (StatsStep::Difficulty, _) => SnapshotView { step: StatsStep::Abandoned, ..self },
            (StatsStep::LastHash, ReplyView::BlockHash(Some(hash))) => SnapshotView {
                step: StatsStep::LastBlock,
                last_hash: Some(hash),
                ..self
            },
            (StatsStep::LastBlock, ReplyView::Block(Some(time))) => SnapshotView {
                step: if older_height(self.height) > 0 {
                    StatsStep::OlderHash
                } else {
                    StatsStep::Finished
                },
                last_time: Some(time),
                last_age: minus(now_secs, time),
                ..self
            },
            (StatsStep::OlderHash, ReplyView::BlockHash(Some(hash))) => SnapshotView {
                step: StatsStep::OlderBlock,
                older_hash: Some(hash),
                ..self
            },
            (StatsStep::OlderBlock, ReplyView::Block(Some(time))) => SnapshotView {
                step: StatsStep::Finished,
                older_time: Some(time),
                ..self
            },
            (StatsStep::Abandoned, _) => self,
            (_, _) => SnapshotView { step: StatsStep::Finished, ..self },
        }
    }

    /// The question that the snapshot waits for an answer to.
    pub open spec fn question(self) -> Option<QueryView> {
        match self.step {
            StatsStep::Height => Some(QueryView::Height),
            StatsStep::Difficulty => Some(QueryView::Difficulty),
            StatsStep::LastHash => Some(QueryView::BlockHash(last_height(self.height))),
            StatsStep::LastBlock => Some(QueryView::Block(self.last_hash->0)),
            StatsStep::OlderHash => Some(QueryView::BlockHash(older_height(self.height))),
            StatsStep::OlderBlock => Some(QueryView::Block(self.older_hash->0)),
            StatsStep::Finished => None,
            StatsStep::Abandoned => None,
        }
    }

    /// A block is asked for only when its hash is known.
    pub open spec fn wf(self) -> bool {
        &&& self.step is LastBlock ==> self.last_hash is Some
        &&& self.step is OlderBlock ==> self.older_hash is Some
    }

    /// How many questions are left at most.
    pub open spec fn questions_left(self) -> nat {
        match self.step {
            StatsStep::Height => 6,
            StatsStep::Difficulty => 5,
            StatsStep::LastHash => 4,
            StatsStep::LastBlock => 3,
            StatsStep::OlderHash => 2,
            StatsStep::OlderBlock => 1,
            StatsStep::Finished => 0,
            StatsStep::Abandoned => 0,
        }
    }

    /// The difficulty at the block target; the largest one for a target of zero.
    pub open spec fn difficulty(self) -> u64 {
        if be_value(self.target) == 0 {
            u64::MAX
        } else {
            difficulty_of(be_value(self.target)) as u64
        }
    }

    /// The hash rate that finds a block of this difficulty in the window; none
    /// where the difficulty is out of range.
    pub open spec fn hashrate(self) -> u64 {
        if self.difficulty() < u64::MAX {
            self.difficulty() / NETWORK_HASHRATE_WINDOW_SECS
        } else {
            0
        }
    }

    /// The average seconds between blocks over the sample; none where a time is
    /// missing or the times do not rise.
    pub open spec fn average_block_time(self) -> u64 {
        match (self.last_time, self.older_time) {
            (Some(last), Some(older)) => if last > older {
                minus(last, older) / AVG_BLOCK_TIME_SAMPLE
            } else {
                0
            },
            _ => 0,
        }
    }

    /// The report of a finished snapshot.
    pub open spec fn report(self, now_secs: u64) -> EventView {
        EventView::NetworkStats {
            hashrate_hs: self.hashrate(),
            difficulty: self.difficulty(),
            height: self.height,
            reward: reward_at(self.height as nat) as u64,
            last_hash: hash_text(self.last_hash),
            last_block_secs_ago: self.last_age,
            avg_block_time_secs: self.average_block_time(),
            timestamp: now_secs,
        }
    }
}

/// The snapshot before the first question.
pub open spec fn blank_snapshot() -> SnapshotView {
    SnapshotView {
        step: StatsStep::Height,
        height: 0,
        target: Seq::new(32, |i: int| 0u8),
        last_hash: None,
        last_time: None,
        last_age: 0,
        older_hash: None,
        older_time: None,
    }
}

impl StatsSnapshot {
    /// A snapshot before the first question.
    pub fn begin() -> (s: StatsSnapshot)
        ensures
            s@ == blank_snapshot(),
            s@.wf(),
    {
        let s = StatsSnapshot {
            step: StatsStep::Height,
            height: 0,
            target: [0u8; 32],
            last_hash: None,
            last_time: None,
            last_age: 0,
            older_hash: None,
            older_time: None,
        };
        assert(s@.target =~= Seq::new(32, |i: int| 0u8));
        s
    }

    /// What to ask the node next, if anything.
    pub fn next_query(&self) -> (q: Option<NodeQuery>)
        requires
            self@.wf(),
        ensures
            (match q {
                Some(q) => Some(q@),
                None => None,
            }) == self@.question(),
    {
        match self.step {
            StatsStep::Height => Some(NodeQuery::Height),
            StatsStep::Difficulty => Some(NodeQuery::Difficulty),
            StatsStep::LastHash => Some(NodeQuery::BlockHash(self.height.saturating_sub(1))),
            StatsStep::LastBlock => Some(NodeQuery::Block(self.last_hash.unwrap())),
            StatsStep::OlderHash => Some(
                NodeQuery::BlockHash(
                    self.height.saturating_sub(1).saturating_sub(AVG_BLOCK_TIME_SAMPLE),
                ),
            ),
            StatsStep::OlderBlock => Some(NodeQuery::Block(self.older_hash.unwrap())),
            StatsStep::Finished => None,
            StatsStep::Abandoned => None,
        }
    }

    /// Takes in the node's answer to the last question, which came at `now_secs`;
    /// `NodeReply::Nothing` where there was none.
    pub fn answer(&mut self, reply: &NodeReply, now_secs: u64)
        requires
            old(self)@.wf(),
        ensures
            final(self)@ == old(self)@.answered(reply@, now_secs),
            final(self)@.wf(),
    {
        match (self.step, *reply) {
            (StatsStep::Height, NodeReply::Height(height)) => {
                self.height = height;
                self.step = StatsStep::Difficulty;
            },
            (StatsStep::Height, _) => {
                self.step = StatsStep::Abandoned;
            },
            (StatsStep::Difficulty, NodeReply::Difficulty(target)) => {
                self.target = target;
                self.step = if self.height.saturating_sub(1) > 0 {
                    StatsStep::LastHash
                } else {
                    StatsStep::Finished
                };
            },
            (StatsStep::Difficulty, _) => {
                self.step = StatsStep::Abandoned;
            },
            (StatsStep::LastHash, NodeReply::BlockHash(Some(hash))) => {
                self.last_hash = Some(hash);
                self.step = StatsStep::LastBlock;
            },
            (StatsStep::LastBlock, NodeReply::Block(Some(time))) => {
                self.last_time = Some(time);
                self.last_age = now_secs.saturating_sub(time);
                self.step = if self.height.saturating_sub(1).saturating_sub(AVG_BLOCK_TIME_SAMPLE)
                    > 0 {
                    StatsStep::OlderHash
                } else {
                    StatsStep::Finished
                };
            },
            (StatsStep::OlderHash, NodeReply::BlockHash(Some(hash))) => {
                self.older_hash = Some(hash);
                self.step = StatsStep::OlderBlock;
            },
            (StatsStep::OlderBlock, NodeReply::Block(Some(time))) => {
                self.older_time = Some(time);
                self.step = StatsStep::Finished;
            },
            (StatsStep::Abandoned, _) => {},
            (_, _) => {
                self.step = StatsStep::Finished;
            },
        }
    }

    /// The report of a finished snapshot; nothing before, or where there is none.
    pub fn report(&self, now_secs: u64) -> (e: Option<PoolEvent>)
        requires
            self.step is Finished ==> self.height < REWARD_HEIGHT_LIMIT,
        ensures
            e is Some <==> self.step is Finished,
            e is Some ==> e->0@ == self@.report(now_secs),
    {
        match self.step {
            StatsStep::Finished => {},
            _ => return None,
        }
        let difficulty: u64 = network_difficulty(&self.target);
        let hashrate_hs: u64 = if difficulty > 0 && difficulty < u64::MAX {
            difficulty / NETWORK_HASHRATE_WINDOW_SECS
        } else {
            0
        };
        let avg_block_time_secs: u64 = match (self.last_time, self.older_time) {
            (Some(last), Some(older)) => if last > older {
                (last - older) / AVG_BLOCK_TIME_SAMPLE
            } else {
                0
            },
            _ => 0,
        };
        Some(
            PoolEvent::NetworkStats {
                hashrate_hs,
                difficulty,
                height: self.height,
                reward: block_reward(self.height),
                last_hash: spell_hash(&self.last_hash),
                last_block_secs_ago: self.last_age,
                avg_block_time_secs,
                timestamp: now_secs,
            },
        )
    }
}

/// Each answer leaves fewer questions, and a snapshot asks until none is left.
pub proof fn law_snapshots_end(s: SnapshotView, reply: ReplyView, now_secs: u64)
    ensures
        s.questions_left() > 0 ==> s.answered(reply, now_secs).questions_left() < s.questions_left(),
        s.questions_left() == 0 <==> s.question() is None,
        blank_snapshot().questions_left() == 6,
{
}

/// Where the node answers everything, the report names the last mined block, not
/// the one being mined, with its age when the node told its time, and averages
/// over the ten blocks before it.
pub proof fn law_full_snapshot(
    height: u64,
    target: Seq<u8>,
    last_hash: Seq<u8>,
    last_time: u64,
    older_hash: Seq<u8>,
    older_time: u64,
    told_at: u64,
    at: u64,
)
    requires
        11 < height,
        older_time < last_time,
    ensures
        ({
            let s1 = blank_snapshot().answered(ReplyView::Height(height), at);
            let s2 = s1.answered(ReplyView::Difficulty(target), at);
            let s3 = s2.answered(ReplyView::BlockHash(Some(last_hash)), at);
            let s4 = s3.answered(ReplyView::Block(Some(last_time)), told_at);
            let s5 = s4.answered(ReplyView::BlockHash(Some(older_hash)), at);
            let s6 = s5.answered(ReplyView::Block(Some(older_time)), at);
            &&& s2.question() == Some(QueryView::BlockHash((height - 1) as u64))
            &&& s3.question() == Some(QueryView::Block(last_hash))
            &&& s4.question() == Some(QueryView::BlockHash((height - 11) as u64))
            &&& s5.question() == Some(QueryView::Block(older_hash))
            &&& s6.step is Finished
            &&& s6.last_hash == Some(last_hash)
            &&& s6.last_age == minus(told_at, last_time)
            &&& s6.average_block_time() == (last_time - older_time) / 10
        }),
{
}

/// Without the height and the difficulty there is no snapshot; whatever else is
/// missing, there is one.
pub proof fn law_snapshot_needs_height_and_difficulty(
    s: SnapshotView,
    reply: ReplyView,
    now_secs: u64,
)
    ensures
        s.step is Height && !(reply is Height) ==> s.answered(reply, now_secs).step is Abandoned,
        s.step is Difficulty && !(reply is Difficulty) ==> s.answered(
            reply,
            now_secs,
        ).step is Abandoned,
        !(s.step is Height) && !(s.step is Difficulty) && !(s.step is Abandoned) ==> !(s.answered(
            reply,
            now_secs,
        ).step is Abandoned),
{
}

/// What the report says. So many hashes as large as the block target fit into 256
/// bits as the difficulty says, as far as 64 bits go; the hash rate finds a block
/// of that difficulty in half a minute, and is zero where 64 bits do not hold the
/// difficulty; the height, the hash and the age are those that the node told, and
/// ten average block times make the time between the two blocks, up to a rest of
/// less than ten seconds.
pub proof fn law_what_the_report_says(s: SnapshotView, now_secs: u64)
    ensures
        ({
            let target = s.target.fold_left(0int, |read: int, b: u8| read * 256 + b);
            &&& s.report(now_secs) matches EventView::NetworkStats {
                hashrate_hs,
                difficulty,
                height,
                reward,
                last_hash,
                last_block_secs_ago,
                avg_block_time_secs,
                timestamp,
            }
            &&& target == 0 ==> difficulty == 0xffff_ffff_ffff_ffffu64
            &&& target != 0 ==> difficulty * target <= pow(2, 256) - 1
            &&& target != 0 && difficulty < 0xffff_ffff_ffff_ffffu64 ==> pow(2, 256) - 1 < (
            difficulty + 1) * target
            &&& difficulty == 0xffff_ffff_ffff_ffffu64 ==> hashrate_hs == 0
            &&& difficulty < 0xffff_ffff_ffff_ffffu64 ==> hashrate_hs * 30 <= difficulty < (
            hashrate_hs + 1) * 30
            &&& height == s.height
            &&& reward == reward_at(s.height as nat)
            &&& s.last_hash is Some ==> last_hash == hex(s.last_hash->0)
            &&& s.last_hash is None ==> last_hash == "unknown"@
            &&& last_block_secs_ago == s.last_age
            &&& s.last_time is Some && s.older_time is Some && s.last_time->0 > s.older_time->0
                ==> avg_block_time_secs * 10 <= s.last_time->0 - s.older_time->0 < (
            avg_block_time_secs + 1) * 10
            &&& !(s.last_time is Some && s.older_time is Some && s.last_time->0 > s.older_time->0)
                ==> avg_block_time_secs == 0
            &&& timestamp == now_secs
        }),
{
    law_big_endian(s.target);
    law_difficulty_is_how_often_a_hash_fits(be_value(s.target));
    law_rewards_are_bounded(s.height as nat);
    law_hashes_are_spelled(s.last_hash);
}

/// What an answer changes. A good one is kept, with the age of the last block when
/// its time is told, and leads to the next question; the last block is asked for
/// only above height zero, and the one before it only ten blocks higher; and an
/// answer that is missing after the first two ends the questions with all that was
/// told so far.
pub proof fn law_what_an_answer_changes(s: SnapshotView, reply: ReplyView, now_secs: u64)
    ensures
        ({
            let after = s.answered(reply, now_secs);
            let hash = reply is BlockHash && reply->BlockHash_0 is Some;
            let time = reply is Block && reply->Block_0 is Some;
            &&& s.step is Height && reply is Height ==> after.step is Difficulty && after.height
                == reply->Height_0
            &&& s.step is Difficulty && reply is Difficulty ==> after.target == reply->Difficulty_0
            &&& s.step is Difficulty && reply is Difficulty && s.height > 1
                ==> after.step is LastHash
            &&& s.step is Difficulty && reply is Difficulty && s.height <= 1
                ==> after.step is Finished
            &&& s.step is LastHash && hash ==> after.step is LastBlock && after.last_hash
                == reply->BlockHash_0
            &&& s.step is LastBlock && time ==> after.last_time == reply->Block_0 && after.last_age
                == vstd::math::max(now_secs - reply->Block_0->0, 0)
            &&& s.step is LastBlock && time && s.height > 11 ==> after.step is OlderHash
            &&& s.step is LastBlock && time && s.height <= 11 ==> after.step is Finished
            &&& s.step is OlderHash && hash ==> after.step is OlderBlock && after.older_hash
                == reply->BlockHash_0
            &&& s.step is OlderBlock && time ==> after.step is Finished && after.older_time
                == reply->Block_0
            &&& (s.step is LastHash || s.step is OlderHash) && !hash ==> after.step is Finished
            &&& (s.step is LastBlock || s.step is OlderBlock) && !time ==> after.step is Finished
            &&& s.step is Finished || s.step is Abandoned ==> after == s
            &&& !(s.step is Height && reply is Height) ==> after.height == s.height
            &&& !(s.step is Difficulty && reply is Difficulty) ==> after.target == s.target
            &&& !(s.step is LastHash && hash) ==> after.last_hash == s.last_hash
            &&& !(s.step is LastBlock && time) ==> after.last_time == s.last_time
                && after.last_age == s.last_age
            &&& !(s.step is OlderHash && hash) ==> after.older_hash == s.older_hash
            &&& !(s.step is OlderBlock && time) ==> after.older_time == s.older_time
        }),
{
}

/// What is asked at each step: the last mined block is one below the height that
/// the node told, and the other ten below that, and never below zero.
pub proof fn law_what_is_asked(s: SnapshotView)
    ensures
        s.step is Height ==> s.question() == Some(QueryView::Height),
        s.step is Difficulty ==> s.question() == Some(QueryView::Difficulty),
        s.step is LastHash ==> s.question() is Some && s.question()->0 is BlockHash
            && s.question()->0->BlockHash_0 == vstd::math::max(s.height - 1, 0),
        s.step is OlderHash ==> s.question() is Some && s.question()->0 is BlockHash
            && s.question()->0->BlockHash_0 == vstd::math::max(s.height - 11, 0),
        s.step is LastBlock && s.last_hash is Some ==> s.question() == Some(
            QueryView::Block(s.last_hash->0),
        ),
        s.step is OlderBlock && s.older_hash is Some ==> s.question() == Some(
            QueryView::Block(s.older_hash->0),
        ),
        s.step is Finished || s.step is Abandoned <==> s.question() is None,
{
}

/// A snapshot begins by asking for the height, with nothing known.
pub proof fn law_snapshots_begin_blank(i: int)
    ensures
        blank_snapshot().step is Height,
        blank_snapshot().height == 0,
        blank_snapshot().target.len() == 32,
        0 <= i < 32 ==> blank_snapshot().target[i] == 0,
        blank_snapshot().last_hash is None,
        blank_snapshot().last_time is None,
        blank_snapshot().last_age == 0,
        blank_snapshot().older_hash is None,
        blank_snapshot().older_time is None,
{
}

} // verus!
