//! Who may connect: penalties, bans and connection counts by IP address.

use vstd::prelude::*;

use crate::table::{
    distinct_firsts, lemma_distinct_prefix, lemma_pairs_map, lemma_pairs_push, lemma_pairs_update,
    occurs, pairs_map,
};

verus! {

/// The penalty for a request that fails.
pub const PENALTY_ERROR: i32 = 5;

/// The penalty for a request that miners may not make.
pub const PENALTY_RESTRICTED: i32 = 10;

/// The penalty that a ban adds.
pub const PENALTY_BAN_EXTRA: i32 = 10;

/// The score from which on an address is banned.
pub const BAN_THRESHOLD: i32 = 25;

/// By how much a score falls at each decay.
pub const SCORE_DECAY_AMOUNT: i32 = 1;

/// Seconds between two decays.
pub const SCORE_DECAY_INTERVAL_SECS: u64 = 30;

/// What is known of an address.
#[derive(Clone, Copy, PartialEq, Eq, Debug, Structural)]
pub struct IpState {
    pub score: i32,
    pub banned: bool,
    pub connections: u32,
}

impl IpState {
    /// An address that was not heard of.
    pub open spec fn fresh() -> IpState {
        IpState { score: 0, banned: false, connections: 0 }
    }

    /// With a penalty. Where the score reaches the threshold, the address is
    /// banned, at an extra penalty.
    pub open spec fn penalized(self, points: i32) -> IpState {
        if self.score + points >= BAN_THRESHOLD && !self.banned {
            IpState {
                score: (self.score + points + PENALTY_BAN_EXTRA) as i32,
                banned: true,
                ..self
            }
        } else {
            IpState { score: (self.score + points) as i32, ..self }
        }
    }

    /// The penalty leaves the score a 32-bit number.
    pub open spec fn can_take(self, points: i32) -> bool {
        &&& i32::MIN <= self.score + points <= i32::MAX
        &&& self.score + points >= BAN_THRESHOLD && !self.banned ==> self.score + points
            + PENALTY_BAN_EXTRA <= i32::MAX
    }

    /// After a decay: the score falls, at least to zero, and a ban is lifted
    /// where the score has fallen below the threshold.
    pub open spec fn decayed(self) -> IpState {
        let score = if self.score > SCORE_DECAY_AMOUNT {
            self.score - SCORE_DECAY_AMOUNT
        } else {
            0
        };
        IpState { score: score as i32, banned: self.banned && score >= BAN_THRESHOLD, ..self }
    }

    /// There is nothing to remember.
    pub open spec fn is_forgettable(self) -> bool {
        self.score <= 0 && !self.banned && self.connections == 0
    }

    /// With one connection more, where the limit allows it.
    pub open spec fn connected(self, limit: u32) -> IpState {
        if self.connections >= limit {
            self
        } else {
            IpState { connections: (self.connections + 1) as u32, ..self }
        }
    }

    /// With one connection less.
    pub open spec fn released(self) -> IpState {
        if self.connections == 0 {
            self
        } else {
            IpState { connections: (self.connections - 1) as u32, ..self }
        }
    }

    /// The score is not negative, and the address is banned exactly from the
    /// threshold on.
    pub open spec fn is_fair(self) -> bool {
        self.score >= 0 && (self.banned <==> self.score >= BAN_THRESHOLD)
    }

    fn decay(&self) -> (r: IpState)
        ensures
            r == self.decayed(),
    {
        let score: i32 = if self.score > SCORE_DECAY_AMOUNT {
            self.score - SCORE_DECAY_AMOUNT
        } else {
            0
        };
        IpState {
            score,
            banned: self.banned && !(score < BAN_THRESHOLD),
            connections: self.connections,
        }
    }
}

/// An address and its state.
#[derive(Clone, Debug)]
pub struct IpEntry {
    pub ip: String,
    pub state: IpState,
}

/// Addresses and their states as pairs.
pub open spec fn ip_pairs(s: Seq<IpEntry>) -> Seq<(Seq<char>, IpState)> {
    s.map_values(|e: IpEntry| (e.ip@, e.state))
}

/// The state of an address; of one that is not listed, a fresh one.
pub open spec fn state_of(m: Map<Seq<char>, IpState>, ip: Seq<char>) -> IpState {
    if m.dom().contains(ip) {
        m[ip]
    } else {
        IpState::fresh()
    }
}

/// All states after a decay, without those that hold nothing to remember.
pub open spec fn decayed_map(m: Map<Seq<char>, IpState>) -> Map<Seq<char>, IpState> {
    Map::new(
        |ip: Seq<char>| m.dom().contains(ip) && !m[ip].decayed().is_forgettable(),
        |ip: Seq<char>| m[ip].decayed(),
    )
}

/// The addresses that the pool has heard of.
pub struct IpStates {
    entries: Vec<IpEntry>,
}

impl View for IpStates {
    type V = Map<Seq<char>, IpState>;

    closed spec fn view(&self) -> Map<Seq<char>, IpState> {
        pairs_map(ip_pairs(self.entries@))
    }
}

/// Whether a connection is taken.
#[derive(Clone, Copy, PartialEq, Eq, Debug, Structural)]
pub enum Admission {
    Banned,
    LimitReached,
    Admitted,
}

impl IpStates {
    /// No address is listed twice.
    #[verifier::type_invariant]
    spec fn wf(self) -> bool {
        distinct_firsts(ip_pairs(self.entries@))
    }

    /// No address has been heard of.
    pub fn new() -> (s: IpStates)
        ensures
            s@ == Map::<Seq<char>, IpState>::empty(),
    {
        IpStates { entries: Vec::new() }
    }

    fn position(&self, ip: &String) -> (i: usize)
        ensures
            i <= self.entries@.len(),
            i < self.entries@.len() ==> self.entries@[i as int].ip@ == ip@,
            i == self.entries@.len() ==> !occurs(ip_pairs(self.entries@), ip@),
    {
        let mut i: usize = 0;
        while i < self.entries.len()
            invariant
                i <= self.entries@.len(),
                forall|j: int| 0 <= j < i ==> (#[trigger] ip_pairs(self.entries@)[j]).0 != ip@,
            decreases self.entries.len() - i,
        {
            if self.entries[i].ip == *ip {
                return i;
            }
            i = i + 1;
        }
        i
    }

    /// The state of an address.
    pub fn state(&self, ip: &String) -> (r: IpState)
        ensures
            r == state_of(self@, ip@),
    {
        let i = self.position(ip);
        proof {
            use_type_invariant(self);
            lemma_pairs_map(ip_pairs(self.entries@));
            if i < self.entries@.len() {
                assert(ip_pairs(self.entries@)[i as int].0 == ip@);
            }
        }
        if i < self.entries.len() {
            self.entries[i].state
        } else {
            IpState { score: 0, banned: false, connections: 0 }
        }
    }

    fn set(&mut self, ip: &String, state: IpState)
        ensures
            final(self)@ == old(self)@.insert(ip@, state),
    {
        proof {
            use_type_invariant(&*self);
        }
        let i = self.position(ip);
        let ghost before = ip_pairs(self.entries@);
        let mut entries: Vec<IpEntry> = Vec::new();
        std::mem::swap(&mut entries, &mut self.entries);
        if i < entries.len() {
            entries.set(i, IpEntry { ip: ip.clone(), state });
            proof {
                lemma_pairs_update(before, i as int, state);
                assert(ip_pairs(entries@) =~= before.update(i as int, (ip@, state)));
            }
        } else {
            entries.push(IpEntry { ip: ip.clone(), state });
            proof {
                lemma_pairs_push(before, ip@, state);
                assert(ip_pairs(entries@) =~= before.push((ip@, state)));
            }
        }
        self.entries = entries;
    }

    /// Whether the penalty leaves the score of the address a 32-bit number.
    pub fn can_add_penalty(&self, ip: &String, points: i32) -> (r: bool)
        ensures
            r == state_of(self@, ip@).can_take(points),
    {
        let s = self.state(ip);
        match s.score.checked_add(points) {
            Some(score) => !(score >= BAN_THRESHOLD && !s.banned) || score.checked_add(
                PENALTY_BAN_EXTRA,
            ).is_some(),
            None => false,
        }
    }

    /// Penalizes an address; see `IpState::penalized`.
    pub fn add_penalty(&mut self, ip: &String, points: i32)
        requires
            state_of(old(self)@, ip@).can_take(points),
        ensures
            final(self)@ == old(self)@.insert(ip@, state_of(old(self)@, ip@).penalized(points)),
    {
        let mut s = self.state(ip);
        s.score = s.score + points;
        if s.score >= BAN_THRESHOLD && !s.banned {
            s.score = s.score + PENALTY_BAN_EXTRA;
            s.banned = true;
        }
        self.set(ip, s);
    }

    /// Whether an address is banned.
    pub fn is_banned(&self, ip: &String) -> (r: bool)
        ensures
            r == state_of(self@, ip@).banned,
    {
        self.state(ip).banned
    }

    /// Takes one more connection from an address, unless it has as many as it may.
    pub fn try_acquire_connection(&mut self, ip: &String, max_conn_per_ip: u32) -> (r: bool)
        ensures
            r == (state_of(old(self)@, ip@).connections < max_conn_per_ip),
            final(self)@ == old(self)@.insert(
                ip@,
                state_of(old(self)@, ip@).connected(max_conn_per_ip),
            ),
    {
        let mut s = self.state(ip);
        if s.connections >= max_conn_per_ip {
            self.set(ip, s);
            return false;
        }
        s.connections = s.connections + 1;
        self.set(ip, s);
        true
    }

    /// Counts one connection less from an address that is listed.
    pub fn release_connection(&mut self, ip: &String)
        ensures
            final(self)@ == (if old(self)@.dom().contains(ip@) {
                old(self)@.insert(ip@, old(self)@[ip@].released())
            } else {
                old(self)@
            }),
    {
        let i = self.position(ip);
        proof {
            use_type_invariant(&*self);
            lemma_pairs_map(ip_pairs(self.entries@));
            if i < self.entries@.len() {
                assert(ip_pairs(self.entries@)[i as int].0 == ip@);
            }
        }
        if i < self.entries.len() {
            let mut s = self.entries[i].state;
            s.connections = s.connections.saturating_sub(1);
            self.set(ip, s);
        }
    }

    /// Decides over a new connection: not from a banned address, and not beyond
    /// the limit.
    pub fn welcome(&mut self, ip: &String, max_conn_per_ip: u32) -> (r: Admission)
        ensures
            ({
                let s = state_of(old(self)@, ip@);
                &&& s.banned ==> r is Banned && final(self)@ == old(self)@
                &&& !s.banned ==> final(self)@ == old(self)@.insert(
                    ip@,
                    s.connected(max_conn_per_ip),
                )
                &&& !s.banned && s.connections < max_conn_per_ip ==> r is Admitted
                &&& !s.banned && s.connections >= max_conn_per_ip ==> r is LimitReached
            }),
    {
        if self.is_banned(ip) {
            return Admission::Banned;
        }
        if self.try_acquire_connection(ip, max_conn_per_ip) {
            Admission::Admitted
        } else {
            Admission::LimitReached
        }
    }

    /// Penalizes an address whose handshake failed, and counts its connection as
    /// ended.
    pub fn handshake_failed(&mut self, ip: &String)
        requires
            state_of(old(self)@, ip@).can_take(PENALTY_ERROR),
        ensures
            final(self)@ == old(self)@.insert(
                ip@,
                state_of(old(self)@, ip@).penalized(PENALTY_ERROR).released(),
            ),
    {
        self.add_penalty(ip, PENALTY_ERROR);
        self.release_connection(ip);
        proof {
            let before = old(self)@;
            let s = state_of(before, ip@).penalized(PENALTY_ERROR);
            assert(before.insert(ip@, s).insert(ip@, s.released()) =~= before.insert(
                ip@,
                s.released(),
            ));
        }
    }

    /// Lets all scores decay, lifts bans whose score has fallen below the
    /// threshold, and forgets addresses of which there is nothing to remember.
    pub fn decay_scores(&mut self)
        ensures
            final(self)@ == decayed_map(old(self)@),
    {
        proof {
            use_type_invariant(&*self);
        }
        let mut kept = IpStates::new();
        let mut i: usize = 0;
        let ghost pairs = ip_pairs(self.entries@);
        assert(pairs.take(0) =~= Seq::<(Seq<char>, IpState)>::empty());
        assert(kept@ =~= decayed_map(pairs_map(pairs.take(0))));
        while i < self.entries.len()
            invariant
                i <= self.entries@.len(),
                pairs == ip_pairs(self.entries@),
                distinct_firsts(pairs),
                kept@ == decayed_map(pairs_map(pairs.take(i as int))),
            decreases self.entries.len() - i,
        {
            let s = self.entries[i].state.decay();
            proof {
                let t = pairs.take(i as int);
                lemma_distinct_prefix(pairs, i as int);
                lemma_pairs_map(t);
                assert(pairs.take(i + 1) =~= t.push(pairs[i as int]));
                if occurs(t, pairs[i as int].0) {
                    let j = choose|j: int|
                        0 <= j < t.len() && (#[trigger] t[j]).0 == pairs[i as int].0;
                    assert(pairs[j].0 != pairs[i as int].0);
                }
                lemma_pairs_push(t, pairs[i as int].0, pairs[i as int].1);
                let m = pairs_map(t);
                let next = m.insert(pairs[i as int].0, pairs[i as int].1);
                if s.is_forgettable() {
                    assert(decayed_map(next) =~= decayed_map(m));
                } else {
                    assert(decayed_map(next) =~= decayed_map(m).insert(pairs[i as int].0, s));
                }
            }
            if s.score > 0 || s.banned || s.connections > 0 {
                kept.set(&self.entries[i].ip, s);
            }
            i = i + 1;
        }
        assert(pairs.take(i as int) =~= pairs);
        proof {
            use_type_invariant(&kept);
        }
        self.entries = kept.entries;
    }
}

/// The state after a number of decays.
pub open spec fn decayed_times(s: IpState, n: nat) -> IpState
    decreases n,
{
    if n == 0 {
        s
    } else {
        decayed_times(s, (n - 1) as nat).decayed()
    }
}

/// An address is banned exactly while its score is at the threshold or above,
/// whatever penalties, decays and connections come.
pub proof fn law_bans_follow_the_score(s: IpState, points: i32, limit: u32)
    requires
        s.is_fair(),
        points >= 0,
        s.can_take(points),
    ensures
        IpState::fresh().is_fair(),
        s.penalized(points).is_fair(),
        s.decayed().is_fair(),
        s.connected(limit).is_fair(),
        s.released().is_fair(),
{
}

/// A ban outlasts the penalty that brought it: the address stays banned until
/// its score has decayed below the threshold, and is free from then on.
pub proof fn law_bans_end_by_decay(s: IpState, n: nat)
    requires
        s.is_fair(),
    ensures
        decayed_times(s, n).is_fair(),
        decayed_times(s, n).score == (if s.score > n {
            s.score - n
        } else {
            0
        }),
        decayed_times(s, n).banned <==> s.score >= BAN_THRESHOLD + n,
        decayed_times(s, n).connections == s.connections,
    decreases n,
{
    if n > 0 {
        law_bans_end_by_decay(s, (n - 1) as nat);
    }
}

/// A penalty that bans an address bans it for more than ten decays.
pub proof fn law_a_ban_lasts(s: IpState, points: i32, n: nat)
    requires
        s.is_fair(),
        points >= 0,
        s.can_take(points),
        !s.banned,
        s.penalized(points).banned,
        n <= 10,
    ensures
        decayed_times(s.penalized(points), n).banned,
{
    law_bans_end_by_decay(s.penalized(points), n);
}

/// An address never has more connections than the limit, and releasing a
/// connection that was taken restores their number, and without penalties
/// meanwhile the state.
pub proof fn law_connections_stay_within_the_limit(s: IpState, limit: u32, points: i32)
    requires
        s.connections <= limit,
    ensures
        s.connected(limit).connections <= limit,
        s.released().connections <= limit,
        s.connections < limit ==> s.connected(limit).released() == s,
        s.connections < limit ==> s.connected(limit).penalized(points).released().connections
            == s.connections,
{
}

/// A decay forgets no address that is banned or connected, and lists no new one.
pub proof fn law_decay_forgets_only_the_idle(m: Map<Seq<char>, IpState>, ip: Seq<char>)
    ensures
        decayed_map(m).dom().contains(ip) ==> m.dom().contains(ip),
        m.dom().contains(ip) && (m[ip].connections > 0 || m[ip].decayed().banned) ==> decayed_map(
            m,
        ).dom().contains(ip),
        state_of(decayed_map(m), ip).banned ==> state_of(m, ip).banned,
{
}

/// A penalty is added to the score. An address that was not banned and comes to 25
/// points is banned and gets ten more; nothing else changes.
pub proof fn law_penalties_add_up(s: IpState, points: i32)
    requires
        s.score + points + 10 <= i32::MAX,
        s.score + points >= i32::MIN,
    ensures
        ({
            let bans = !s.banned && s.score + points >= 25;
            &&& s.can_take(points)
            &&& s.penalized(points).score == s.score + points + (if bans {
                10int
            } else {
                0
            })
            &&& s.penalized(points).banned == (s.banned || bans)
            &&& s.penalized(points).connections == s.connections
        }),
{
}

/// A penalty can be taken where the score, with the points of a ban that it
/// brings, stays a 32-bit number.
pub proof fn law_scores_stay_32_bit_numbers(s: IpState, points: i32)
    ensures
        s.can_take(points) <==> i32::MIN <= s.score + points <= i32::MAX && (s.banned || s.score
            + points < 25 || s.score + points + 10 <= i32::MAX),
{
}

/// A decay takes one point, but not below none, and lifts a ban below 25 points.
pub proof fn law_a_decay_takes_a_point(s: IpState)
    ensures
        s.decayed().score == vstd::math::max(s.score - 1, 0),
        s.decayed().banned <==> s.banned && s.score >= 26,
        s.decayed().connections == s.connections,
{
}

/// One connection more where the limit allows it, one less where there is one, and
/// nothing else changes. An unknown address has no score, no ban and no
/// connection.
pub proof fn law_connections_are_counted(s: IpState, limit: u32)
    ensures
        s.connected(limit).connections == s.connections + (if s.connections < limit {
            1int
        } else {
            0
        }),
        s.released().connections == vstd::math::max(s.connections - 1, 0),
        s.connected(limit).score == s.score && s.connected(limit).banned == s.banned,
        s.released().score == s.score && s.released().banned == s.banned,
        IpState::fresh().score == 0 && !IpState::fresh().banned && IpState::fresh().connections == 0,
{
}

/// After a decay, exactly the addresses remain listed that have a score, a ban or
/// a connection left, each with its own decayed state.
pub proof fn law_what_a_decay_leaves(m: Map<Seq<char>, IpState>, ip: Seq<char>)
    ensures
        decayed_map(m).dom().contains(ip) <==> m.dom().contains(ip) && (m[ip].score > 1 || (
        m[ip].banned && m[ip].score >= 26) || m[ip].connections > 0),
        decayed_map(m).dom().contains(ip) ==> decayed_map(m)[ip] == m[ip].decayed(),
        m.dom().contains(ip) ==> state_of(m, ip) == m[ip],
        !m.dom().contains(ip) ==> state_of(m, ip) == IpState::fresh(),
{
}

} // verus!
