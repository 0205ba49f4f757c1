//! How well the node answers, and when the dashboard hears of it.

use vstd::prelude::*;

use crate::events::{opt_event, EventView, PoolEvent};

verus! {

/// Milliseconds between two reports of the node's health.
pub const NODE_HEALTH_EMIT_MIN_MS: u64 = 1000;

/// What is known of the connection to the node.
#[derive(Clone, Copy, Debug)]
pub struct NodeMetrics {
    pub last_tcp_connect_ms: Option<u64>,
    pub last_rtt_ms: Option<u64>,
    pub last_ok_ts: Option<u64>,
    pub fails: u32,
    pub ever_ok: bool,
    pub first_ok_after_connect_emitted: bool,
    pub first_ok_ms: Option<u64>,
    pub last_health_emit_ms: u64,
}

/// `n`, or zero where there is none.
pub open spec fn or_zero(n: Option<u64>) -> u64 {
    match n {
        Some(n) => n,
        None => 0,
    }
}

/// The sum, or the largest 64-bit number where it is larger.
pub open spec fn saturated_sum(a: u64, b: u64) -> u64 {
    if a + b > u64::MAX {
        u64::MAX
    } else {
        (a + b) as u64
    }
}

impl NodeMetrics {
    /// The time has come for another report of the node's health.
    pub open spec fn health_is_due(self, now_ms: u64) -> bool {
        now_ms >= self.last_health_emit_ms + NODE_HEALTH_EMIT_MIN_MS
    }

    /// The metrics after a health report was asked for.
    pub open spec fn after_health(self, rtt_ms: Option<u64>, now_ms: u64) -> NodeMetrics {
        NodeMetrics {
            last_rtt_ms: if rtt_ms is Some {
                rtt_ms
            } else {
                self.last_rtt_ms
            },
            last_health_emit_ms: if self.health_is_due(now_ms) {
                now_ms
            } else {
                self.last_health_emit_ms
            },
            ..self
        }
    }

    /// The health report, if one is due.
    pub open spec fn health_event(
        self,
        addr: Seq<char>,
        ok: bool,
        rtt_ms: Option<u64>,
        now_ms: u64,
        now_secs: u64,
    ) -> Option<EventView> {
        if self.health_is_due(now_ms) {
            Some(
                EventView::NodeHealth {
                    addr,
                    ok,
                    rtt_ms: or_zero(rtt_ms),
                    fails: self.fails,
                    last_ok_ts: or_zero(self.last_ok_ts),
                    timestamp: now_secs,
                },
            )
        } else {
            None
        }
    }

    /// The milliseconds from the start of the connect to the first answer.
    pub open spec fn time_to_first_ok(self, first_rtt_ms: u64) -> u64 {
        saturated_sum(or_zero(self.last_tcp_connect_ms), first_rtt_ms)
    }

    /// The metrics after an answer was taken for the first one, where it is.
    pub open spec fn after_first_ok(self, first_rtt_ms: u64) -> NodeMetrics {
        if self.first_ok_after_connect_emitted {
            self
        } else {
            NodeMetrics {
                first_ok_after_connect_emitted: true,
                first_ok_ms: Some(self.time_to_first_ok(first_rtt_ms)),
                ..self
            }
        }
    }

    /// The report of a connection, where it has not been sent yet.
    pub open spec fn connected_event(self, addr: Seq<char>, first_rtt_ms: u64, now_secs: u64) -> Option<
        EventView,
    > {
        if self.first_ok_after_connect_emitted {
            None
        } else {
            Some(
                EventView::NodeConnected {
                    addr,
                    tcp_connect_ms: or_zero(self.last_tcp_connect_ms),
                    first_ok_ms: self.time_to_first_ok(first_rtt_ms),
                    timestamp: now_secs,
                },
            )
        }
    }

    /// The metrics after an answer.
    pub open spec fn after_ok(self, rtt_ms: u64, now_secs: u64) -> NodeMetrics {
        NodeMetrics {
            last_rtt_ms: Some(rtt_ms),
            last_ok_ts: Some(now_secs),
            fails: 0,
            ever_ok: true,
            ..self
        }
    }

    /// The metrics after a request that was not answered.
    pub open spec fn after_failure(self) -> NodeMetrics {
        NodeMetrics {
            fails: if self.fails == u32::MAX {
                u32::MAX
            } else {
                (self.fails + 1) as u32
            },
            ..self
        }
    }

    /// Nothing is known yet.
    pub fn new() -> (m: NodeMetrics)
        ensures
            m == (NodeMetrics {
                last_tcp_connect_ms: None,
                last_rtt_ms: None,
                last_ok_ts: None,
                fails: 0,
                ever_ok: false,
                first_ok_after_connect_emitted: false,
                first_ok_ms: None,
                last_health_emit_ms: 0,
            }),
    {
        NodeMetrics {
            last_tcp_connect_ms: None,
            last_rtt_ms: None,
            last_ok_ts: None,
            fails: 0,
            ever_ok: false,
            first_ok_after_connect_emitted: false,
            first_ok_ms: None,
            last_health_emit_ms: 0,
        }
    }

    /// A connect begins: the next answer is a first one.
    pub fn begin_connect(&mut self)
        ensures
            *final(self) == (NodeMetrics {
                first_ok_after_connect_emitted: false,
                first_ok_ms: None,
                ..*old(self)
            }),
    {
        self.first_ok_after_connect_emitted = false;
        self.first_ok_ms = None;
    }

    /// A connect has succeeded.
    pub fn connected(&mut self, connect_ms: u64)
        ensures
            *final(self) == (NodeMetrics { last_tcp_connect_ms: Some(connect_ms), ..*old(self) }),
    {
        self.last_tcp_connect_ms = Some(connect_ms);
    }

    /// Reports the node's health, unless the last report was less than a second
    /// ago.
    pub fn maybe_emit_node_health(
        &mut self,
        addr: &String,
        ok: bool,
        rtt_ms: Option<u64>,
        now_ms: u64,
        now_secs: u64,
    ) -> (e: Option<PoolEvent>)
        ensures
            *final(self) == old(self).after_health(rtt_ms, now_ms),
            opt_event(e) == old(self).health_event(addr@, ok, rtt_ms, now_ms, now_secs),
    {
        if let Some(r) = rtt_ms {
            self.last_rtt_ms = Some(r);
        }
        if now_ms.saturating_sub(self.last_health_emit_ms) < NODE_HEALTH_EMIT_MIN_MS {
            return None;
        }
        self.last_health_emit_ms = now_ms;
        Some(
            PoolEvent::NodeHealth {
                addr: addr.clone(),
                ok,
                rtt_ms: rtt_ms.unwrap_or(0),
                fails: self.fails,
                last_ok_ts: self.last_ok_ts.unwrap_or(0),
                timestamp: now_secs,
            },
        )
    }

    /// Reports a connection at its first answer.
    pub fn maybe_emit_node_connected_on_first_ok(
        &mut self,
        addr: &String,
        first_rtt_ms: u64,
        now_secs: u64,
    ) -> (e: Option<PoolEvent>)
        ensures
            *final(self) == old(self).after_first_ok(first_rtt_ms),
            opt_event(e) == old(self).connected_event(addr@, first_rtt_ms, now_secs),
    {
        if self.first_ok_after_connect_emitted {
            return None;
        }
        self.first_ok_after_connect_emitted = true;
        let tcp_ms: u64 = self.last_tcp_connect_ms.unwrap_or(0);
        let first_ok_ms: u64 = tcp_ms.saturating_add(first_rtt_ms);
        self.first_ok_ms = Some(first_ok_ms);
        Some(
            PoolEvent::NodeConnected {
                addr: addr.clone(),
                tcp_connect_ms: tcp_ms,
                first_ok_ms,
                timestamp: now_secs,
            },
        )
    }

    /// Takes in an answer of the node. Where a health report goes out, a snapshot
    /// of the network is due too.
    pub fn on_answer(&mut self, addr: &String, rtt_ms: u64, now_ms: u64, now_secs: u64) -> (r:
        AnswerReport)
        ensures
            ({
                let counted = old(self).after_ok(rtt_ms, now_secs);
                let greeted = counted.after_first_ok(rtt_ms);
                &&& *final(self) == greeted.after_health(Some(rtt_ms), now_ms)
                &&& opt_event(r.connected) == counted.connected_event(addr@, rtt_ms, now_secs)
                &&& opt_event(r.health) == greeted.health_event(
                    addr@,
                    true,
                    Some(rtt_ms),
                    now_ms,
                    now_secs,
                )
                &&& r.snapshot_due == (r.health is Some)
            }),
    {
        self.last_rtt_ms = Some(rtt_ms);
        self.last_ok_ts = Some(now_secs);
        self.fails = 0;
        self.ever_ok = true;
        let connected = self.maybe_emit_node_connected_on_first_ok(addr, rtt_ms, now_secs);
        let health = self.maybe_emit_node_health(addr, true, Some(rtt_ms), now_ms, now_secs);
        let snapshot_due = health.is_some();
        AnswerReport { connected, health, snapshot_due }
    }

    /// Takes in a request that was not answered.
    pub fn on_failure(&mut self, addr: &String, now_ms: u64, now_secs: u64) -> (e: Option<PoolEvent>)
        ensures
            *final(self) == old(self).after_failure().after_health(None, now_ms),
            opt_event(e) == old(self).after_failure().health_event(
                addr@,
                false,
                None,
                now_ms,
                now_secs,
            ),
    {
        self.fails = self.fails.saturating_add(1);
        self.maybe_emit_node_health(addr, false, None, now_ms, now_secs)
    }
}

/// What an answer of the node gives rise to.
#[derive(Clone, Debug)]
pub struct AnswerReport {
    pub connected: Option<PoolEvent>,
    pub health: Option<PoolEvent>,
    pub snapshot_due: bool,
}

/// Between two reports of the node's health lies at least a second.
pub proof fn law_health_reports_are_a_second_apart(
    m: NodeMetrics,
    addr: Seq<char>,
    ok: bool,
    rtt_ms: Option<u64>,
    first_ms: u64,
    later_ms: u64,
    now_secs: u64,
)
    requires
        m.health_event(addr, ok, rtt_ms, first_ms, now_secs) is Some,
    ensures
        m.after_health(rtt_ms, first_ms).health_event(addr, ok, rtt_ms, later_ms, now_secs) is Some
            <==> later_ms >= first_ms + NODE_HEALTH_EMIT_MIN_MS,
{
}

/// A connection is reported once: after its first answer not again until the
/// next connect, and then again.
pub proof fn law_connections_are_reported_once(
    m: NodeMetrics,
    addr: Seq<char>,
    first_rtt_ms: u64,
    rtt_ms: u64,
    now_secs: u64,
)
    ensures
        m.after_first_ok(first_rtt_ms).connected_event(addr, rtt_ms, now_secs) is None,
        (NodeMetrics { first_ok_after_connect_emitted: false, first_ok_ms: None, ..m }).connected_event(
        addr, rtt_ms, now_secs) is Some,
{
}

/// An answer clears the failures; failures in a row are counted.
pub proof fn law_failures_are_counted_in_a_row(m: NodeMetrics, rtt_ms: u64, now_secs: u64)
    requires
        m.fails < u32::MAX,
    ensures
        m.after_failure().fails == m.fails + 1,
        m.after_ok(rtt_ms, now_secs).fails == 0,
{
}

/// A health report goes out from a second after the last one on, and tells of the
/// failures in a row and the last answer as they stand.
pub proof fn law_what_a_health_report_tells(
    m: NodeMetrics,
    addr: Seq<char>,
    ok: bool,
    rtt_ms: Option<u64>,
    now_ms: u64,
    now_secs: u64,
)
    ensures
        ({
            let e = m.health_event(addr, ok, rtt_ms, now_ms, now_secs);
            &&& e is Some <==> now_ms - m.last_health_emit_ms >= 1000
            &&& e is Some ==> {
                &&& e->0 matches EventView::NodeHealth {
                    addr: told_addr,
                    ok: told_ok,
                    rtt_ms: told_rtt,
                    fails,
                    last_ok_ts,
                    timestamp,
                }
                &&& told_addr == addr
                &&& told_ok == ok
                &&& rtt_ms is Some ==> told_rtt == rtt_ms->0
                &&& rtt_ms is None ==> told_rtt == 0
                &&& fails == m.fails
                &&& m.last_ok_ts is Some ==> last_ok_ts == m.last_ok_ts->0
                &&& m.last_ok_ts is None ==> last_ok_ts == 0
                &&& timestamp == now_secs
            }
        }),
{
}

/// What asking for a health report changes: the round trip where there is one, and
/// the time of the last report where one goes out.
pub proof fn law_what_a_health_report_changes(
    m: NodeMetrics,
    rtt_ms: Option<u64>,
    now_ms: u64,
)
    ensures
        ({
            let after = m.after_health(rtt_ms, now_ms);
            &&& rtt_ms is Some ==> after.last_rtt_ms == rtt_ms
            &&& rtt_ms is None ==> after.last_rtt_ms == m.last_rtt_ms
            &&& now_ms - m.last_health_emit_ms >= 1000 ==> after.last_health_emit_ms == now_ms
            &&& now_ms - m.last_health_emit_ms < 1000 ==> after.last_health_emit_ms
                == m.last_health_emit_ms
            &&& after.last_tcp_connect_ms == m.last_tcp_connect_ms
            &&& after.last_ok_ts == m.last_ok_ts
            &&& after.fails == m.fails
            &&& after.ever_ok == m.ever_ok
            &&& after.first_ok_after_connect_emitted == m.first_ok_after_connect_emitted
            &&& after.first_ok_ms == m.first_ok_ms
        }),
{
}

/// A connection is reported with the time that the connect took, and that time and
/// the first round trip together, as far as 64 bits go; and the metrics keep the
/// sum.
pub proof fn law_what_a_first_answer_tells(
    m: NodeMetrics,
    addr: Seq<char>,
    first_rtt_ms: u64,
    now_secs: u64,
)
    ensures
        ({
            let e = m.connected_event(addr, first_rtt_ms, now_secs);
            let after = m.after_first_ok(first_rtt_ms);
            let connect_ms: u64 = if m.last_tcp_connect_ms is Some {
                m.last_tcp_connect_ms->0
            } else {
                0
            };
            &&& e is Some <==> !m.first_ok_after_connect_emitted
            &&& e is Some ==> {
                &&& e->0 matches EventView::NodeConnected {
                    addr: told_addr,
                    tcp_connect_ms,
                    first_ok_ms,
                    timestamp,
                }
                &&& told_addr == addr
                &&& tcp_connect_ms == connect_ms
                &&& first_ok_ms == vstd::math::min(connect_ms + first_rtt_ms, u64::MAX as int)
                &&& timestamp == now_secs
                &&& after.first_ok_ms == Some(first_ok_ms)
            }
            &&& e is None ==> after.first_ok_ms == m.first_ok_ms
            &&& after.first_ok_after_connect_emitted
            &&& after.last_tcp_connect_ms == m.last_tcp_connect_ms
            &&& after.last_rtt_ms == m.last_rtt_ms
            &&& after.last_ok_ts == m.last_ok_ts
            &&& after.fails == m.fails
            &&& after.ever_ok == m.ever_ok
            &&& after.last_health_emit_ms == m.last_health_emit_ms
        }),
{
}

/// An answer is noted with its round trip and its time; a failure changes the count
/// of failures alone, which stops at the largest number that it can hold.
pub proof fn law_what_answers_and_failures_change(m: NodeMetrics, rtt_ms: u64, now_secs: u64)
    ensures
        ({
            let ok = m.after_ok(rtt_ms, now_secs);
            &&& ok.last_rtt_ms == Some(rtt_ms)
            &&& ok.last_ok_ts == Some(now_secs)
            &&& ok.fails == 0
            &&& ok.ever_ok
            &&& ok.last_tcp_connect_ms == m.last_tcp_connect_ms
            &&& ok.first_ok_after_connect_emitted == m.first_ok_after_connect_emitted
            &&& ok.first_ok_ms == m.first_ok_ms
            &&& ok.last_health_emit_ms == m.last_health_emit_ms
        }),
        ({
            let failed = m.after_failure();
            &&& failed.fails == vstd::math::min(m.fails + 1, u32::MAX as int)
            &&& failed.last_tcp_connect_ms == m.last_tcp_connect_ms
            &&& failed.last_rtt_ms == m.last_rtt_ms
            &&& failed.last_ok_ts == m.last_ok_ts
            &&& failed.ever_ok == m.ever_ok
            &&& failed.first_ok_after_connect_emitted == m.first_ok_after_connect_emitted
            &&& failed.first_ok_ms == m.first_ok_ms
            &&& failed.last_health_emit_ms == m.last_health_emit_ms
        }),
{
}

} // verus!
