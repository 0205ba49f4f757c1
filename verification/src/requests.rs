//! What miners may ask of the pool, and how a connection goes on from there.

use vstd::prelude::*;

use crate::ip_states::{IpState, BAN_THRESHOLD, PENALTY_ERROR, PENALTY_RESTRICTED};

verus! {

/// The requests that the node protocol has.
#[derive(Clone, Copy, PartialEq, Eq, Debug, Structural)]
pub enum RequestKind {
    Height,
    Block,
    Difficulty,
    BlockHash,
    BlockHeight,
    Transaction,
    TransactionAndInfo,
    TransactionsOfAddress,
    AvailableUTXOs,
    Balance,
    Reward,
    Peers,
    Mempool,
    NewBlock,
    NewTransaction,
    LiveTransactionDifficulty,
    SubscribeToChainEvents,
}

/// The responses that the node protocol has.
#[derive(Clone, Copy, PartialEq, Eq, Debug, Structural)]
pub enum ResponseKind {
    Height,
    Block,
    Difficulty,
    BlockHash,
    BlockHeight,
    Transaction,
    TransactionAndInfo,
    TransactionsOfAddress,
    AvailableUTXOs,
    Balance,
    Reward,
    Peers,
    Mempool,
    NewBlock,
    NewTransaction,
    LiveTransactionDifficulty,
    ChainEvent,
}

/// How the pool treats a request.
#[derive(Clone, Copy, PartialEq, Eq, Debug, Structural)]
pub enum Route {
    /// Ask the node the same and hand its answer on.
    Forward,
    /// Ask the node for its height and answer with the reward at it.
    Reward,
    /// Take it as a share.
    Share,
    /// Hand the node's events on until either side ends.
    Events,
    /// Refuse it: miners may not ask this.
    Refuse,
}

/// A request about other people's transactions or about the node's own affairs.
pub open spec fn is_restricted(kind: RequestKind) -> bool {
    ||| kind is Transaction
    ||| kind is TransactionAndInfo
    ||| kind is TransactionsOfAddress
    ||| kind is AvailableUTXOs
    ||| kind is Balance
    ||| kind is Peers
    ||| kind is NewTransaction
}

/// How the pool treats a request.
pub open spec fn route_of(kind: RequestKind) -> Route {
    if is_restricted(kind) {
        Route::Refuse
    } else {
        match kind {
            RequestKind::Reward => Route::Reward,
            RequestKind::NewBlock => Route::Share,
            RequestKind::SubscribeToChainEvents => Route::Events,
            _ => Route::Forward,
        }
    }
}

/// How the pool treats a request; see `route_of`.
pub fn route(kind: RequestKind) -> (r: Route)
    ensures
        r == route_of(kind),
{
    match kind {
        RequestKind::Height
        | RequestKind::Block
        | RequestKind::BlockHash
        | RequestKind::BlockHeight
        | RequestKind::Difficulty
        | RequestKind::LiveTransactionDifficulty
        | RequestKind::Mempool => Route::Forward,
        RequestKind::Reward => Route::Reward,
        RequestKind::NewBlock => Route::Share,
        RequestKind::SubscribeToChainEvents => Route::Events,
        RequestKind::Transaction
        | RequestKind::TransactionAndInfo
        | RequestKind::TransactionsOfAddress
        | RequestKind::AvailableUTXOs
        | RequestKind::Balance
        | RequestKind::Peers
        | RequestKind::NewTransaction => Route::Refuse,
    }
}

/// The response that a request is answered with. Events are not an answer.
pub open spec fn response_to(kind: RequestKind) -> Option<ResponseKind> {
    match kind {
        RequestKind::Height => Some(ResponseKind::Height),
        RequestKind::Block => Some(ResponseKind::Block),
        RequestKind::Difficulty => Some(ResponseKind::Difficulty),
        RequestKind::BlockHash => Some(ResponseKind::BlockHash),
        RequestKind::BlockHeight => Some(ResponseKind::BlockHeight),
        RequestKind::Transaction => Some(ResponseKind::Transaction),
        RequestKind::TransactionAndInfo => Some(ResponseKind::TransactionAndInfo),
        RequestKind::TransactionsOfAddress => Some(ResponseKind::TransactionsOfAddress),
        RequestKind::AvailableUTXOs => Some(ResponseKind::AvailableUTXOs),
        RequestKind::Balance => Some(ResponseKind::Balance),
        RequestKind::Reward => Some(ResponseKind::Reward),
        RequestKind::Peers => Some(ResponseKind::Peers),
        RequestKind::Mempool => Some(ResponseKind::Mempool),
        RequestKind::NewBlock => Some(ResponseKind::NewBlock),
        RequestKind::NewTransaction => Some(ResponseKind::NewTransaction),
        RequestKind::LiveTransactionDifficulty => Some(ResponseKind::LiveTransactionDifficulty),
        RequestKind::SubscribeToChainEvents => None,
    }
}

/// Whether the node's response answers the request.
pub fn answers(kind: RequestKind, response: ResponseKind) -> (r: bool)
    ensures
        r == (response_to(kind) == Some(response)),
{
    let expected = match kind {
        RequestKind::Height => ResponseKind::Height,
        RequestKind::Block => ResponseKind::Block,
        RequestKind::Difficulty => ResponseKind::Difficulty,
        RequestKind::BlockHash => ResponseKind::BlockHash,
        RequestKind::BlockHeight => ResponseKind::BlockHeight,
        RequestKind::Transaction => ResponseKind::Transaction,
        RequestKind::TransactionAndInfo => ResponseKind::TransactionAndInfo,
        RequestKind::TransactionsOfAddress => ResponseKind::TransactionsOfAddress,
        RequestKind::AvailableUTXOs => ResponseKind::AvailableUTXOs,
        RequestKind::Balance => ResponseKind::Balance,
        RequestKind::Reward => ResponseKind::Reward,
        RequestKind::Peers => ResponseKind::Peers,
        RequestKind::Mempool => ResponseKind::Mempool,
        RequestKind::NewBlock => ResponseKind::NewBlock,
        RequestKind::NewTransaction => ResponseKind::NewTransaction,
        RequestKind::LiveTransactionDifficulty => ResponseKind::LiveTransactionDifficulty,
        RequestKind::SubscribeToChainEvents => return false,
    };
    expected == response
}

/// How a request on a connection went.
#[derive(Clone, Copy, PartialEq, Eq, Debug, Structural)]
pub enum RequestOutcome {
    /// There is a response to send.
    Answered,
    /// The node's events were handed on until an end.
    EventsEnded,
    /// The request was refused.
    Refused,
    /// The request could not be read or answered.
    Failed,
    /// No request came in time.
    TimedOut,
}

/// How a connection goes on.
#[derive(Clone, Copy, PartialEq, Eq, Debug, Structural)]
pub enum ConnectionStep {
    /// Send the response; where that fails, close the connection.
    Reply,
    /// Close the connection.
    Close,
    /// Penalize the address and close the connection.
    Penalize,
    /// See to the miner's target and wait for the next request.
    AdjustTarget,
}

/// How a connection goes on after a request.
pub fn connection_step(outcome: RequestOutcome) -> (s: ConnectionStep)
    ensures
        s == (match outcome {
            RequestOutcome::Answered => ConnectionStep::Reply,
            RequestOutcome::EventsEnded => ConnectionStep::Close,
            RequestOutcome::Refused => ConnectionStep::Penalize,
            RequestOutcome::Failed => ConnectionStep::Penalize,
            RequestOutcome::TimedOut => ConnectionStep::AdjustTarget,
        }),
{
    match outcome {
        RequestOutcome::Answered => ConnectionStep::Reply,
        RequestOutcome::EventsEnded => ConnectionStep::Close,
        RequestOutcome::Refused => ConnectionStep::Penalize,
        RequestOutcome::Failed => ConnectionStep::Penalize,
        RequestOutcome::TimedOut => ConnectionStep::AdjustTarget,
    }
}

/// The penalties for a request that went this way, in order: a refused request
/// costs extra, on top of what every failure costs.
pub open spec fn penalties_for(outcome: RequestOutcome) -> Seq<i32> {
    match outcome {
        RequestOutcome::Refused => seq![PENALTY_RESTRICTED, PENALTY_ERROR],
        RequestOutcome::Failed => seq![PENALTY_ERROR],
        _ => Seq::empty(),
    }
}

/// The penalties for a request; see `penalties_for`.
pub fn penalties(outcome: RequestOutcome) -> (r: Vec<i32>)
    ensures
        r@ == penalties_for(outcome),
{
    let mut r: Vec<i32> = Vec::new();
    match outcome {
        RequestOutcome::Refused => {
            r.push(PENALTY_RESTRICTED);
            r.push(PENALTY_ERROR);
        },
        RequestOutcome::Failed => {
            r.push(PENALTY_ERROR);
        },
        _ => {},
    }
    assert(r@ =~= penalties_for(outcome));
    r
}

/// What a submitted share leads to besides the response to it.
#[derive(Clone, Copy, PartialEq, Eq, Debug, Structural)]
pub struct ShareReply {
    /// How the request went.
    pub outcome: RequestOutcome,
    /// The time since the miner's last share starts anew.
    pub restarts_share_clock: bool,
    /// The rejection is announced.
    pub announces_rejection: bool,
}

/// What a submitted share leads to: it is answered in any case, an accepted share
/// counts as the miner's last one, and a rejected one is announced.
pub fn share_reply(accepted: bool) -> (r: ShareReply)
    ensures
        r == (ShareReply {
            outcome: RequestOutcome::Answered,
            restarts_share_clock: accepted,
            announces_rejection: !accepted,
        }),
{
    ShareReply {
        outcome: RequestOutcome::Answered,
        restarts_share_clock: accepted,
        announces_rejection: !accepted,
    }
}

/// The state of an address after a list of penalties.
pub open spec fn after_penalties(s: IpState, points: Seq<i32>) -> IpState
    decreases points.len(),
{
    if points.len() == 0 {
        s
    } else {
        after_penalties(s, points.drop_last()).penalized(points.last())
    }
}

/// No request that miners may not make reaches the node, and every other one is
/// answered by the node, by the pool, or with the node's events.
pub proof fn law_restricted_requests_are_refused(kind: RequestKind)
    ensures
        is_restricted(kind) <==> route_of(kind) is Refuse,
        route_of(kind) is Forward ==> response_to(kind) is Some,
{
}

/// A request has one response, and no two requests have the same.
pub proof fn law_responses_tell_requests_apart(a: RequestKind, b: RequestKind)
    ensures
        response_to(a) is Some && response_to(a) == response_to(b) ==> a == b,
{
}

/// A refused request costs the address fifteen points, ten more than one that
/// fails otherwise, and bans it where that brings it to the threshold.
pub proof fn law_refused_requests_ban(s: IpState)
    requires
        s.is_fair(),
        s.score < i32::MAX - 100,
    ensures
        ({
            let refused = after_penalties(s, penalties_for(RequestOutcome::Refused));
            let failed = after_penalties(s, penalties_for(RequestOutcome::Failed));
            &&& refused.banned <==> s.score + 15 >= BAN_THRESHOLD
            &&& failed.banned <==> s.score + 5 >= BAN_THRESHOLD
            &&& !refused.banned ==> refused.score == s.score + 15
            &&& !failed.banned ==> failed.score == s.score + 5
            &&& s.banned ==> refused.banned && failed.banned
        }),
{
    let refused = seq![PENALTY_RESTRICTED, PENALTY_ERROR];
    assert(refused.drop_last() =~= seq![PENALTY_RESTRICTED]);
    assert(seq![PENALTY_RESTRICTED].drop_last() =~= Seq::<i32>::empty());
    assert(seq![PENALTY_ERROR].drop_last() =~= Seq::<i32>::empty());
    assert(after_penalties(s, Seq::<i32>::empty()) == s);
    assert(after_penalties(s, seq![PENALTY_RESTRICTED]) == s.penalized(PENALTY_RESTRICTED));
    assert(after_penalties(s, refused) == s.penalized(PENALTY_RESTRICTED).penalized(PENALTY_ERROR));
    assert(after_penalties(s, seq![PENALTY_ERROR]) == s.penalized(PENALTY_ERROR));
}

/// Which requests are refused, which are handed on to the node, and which the
/// pool deals with itself.
pub proof fn law_requests_have_their_route(kind: RequestKind)
    ensures
        route_of(kind) is Refuse <==> kind is Transaction || kind is TransactionAndInfo
            || kind is TransactionsOfAddress || kind is AvailableUTXOs || kind is Balance
            || kind is Peers || kind is NewTransaction,
        route_of(kind) is Forward <==> kind is Height || kind is Block || kind is BlockHash
            || kind is BlockHeight || kind is Difficulty || kind is LiveTransactionDifficulty
            || kind is Mempool,
        route_of(kind) is Reward <==> kind is Reward,
        route_of(kind) is Share <==> kind is NewBlock,
        route_of(kind) is Events <==> kind is SubscribeToChainEvents,
{
}

/// Each request is answered by the response of its own name, and the one for the
/// chain's events by none.
pub proof fn law_requests_have_their_response(kind: RequestKind, response: ResponseKind)
    ensures
        response_to(kind) == Some(response) <==> {
            ||| kind is Height && response is Height
            ||| kind is Block && response is Block
            ||| kind is Difficulty && response is Difficulty
            ||| kind is BlockHash && response is BlockHash
            ||| kind is BlockHeight && response is BlockHeight
            ||| kind is Transaction && response is Transaction
            ||| kind is TransactionAndInfo && response is TransactionAndInfo
            ||| kind is TransactionsOfAddress && response is TransactionsOfAddress
            ||| kind is AvailableUTXOs && response is AvailableUTXOs
            ||| kind is Balance && response is Balance
            ||| kind is Reward && response is Reward
            ||| kind is Peers && response is Peers
            ||| kind is Mempool && response is Mempool
            ||| kind is NewBlock && response is NewBlock
            ||| kind is NewTransaction && response is NewTransaction
            ||| kind is LiveTransactionDifficulty && response is LiveTransactionDifficulty
        },
        response_to(kind) is None <==> kind is SubscribeToChainEvents,
{
}

/// A refused request costs ten points and five, one that fails otherwise five, and
/// no other costs anything.
pub proof fn law_what_requests_cost(outcome: RequestOutcome)
    ensures
        outcome is Refused ==> penalties_for(outcome) == seq![10i32, 5i32],
        outcome is Failed ==> penalties_for(outcome) == seq![5i32],
        outcome is Answered || outcome is EventsEnded || outcome is TimedOut ==> penalties_for(
            outcome,
        ).len() == 0,
{
}

} // verus!
