//! Agent lifecycle management: spawn bookkeeping, the pending-registration
//! handoff, and the health-check step that evicts exited or stale agents.
//!
//! The manager decides; the embedding program performs the process work
//! (spawning, signalling, reaping) and reports its observations back as
//! plain values: which processes have exited, and what time it is.

use vstd::prelude::*;

use crate::state::{fresh_token, AgentRecord, CanonicalState, SpawnedChild, TICKET_CAP};
use crate::tables::{assoc_lookup, lemma_assoc_found, lemma_assoc_some_index};

verus! {

/// Grace period between the terminate signal and the kill signal, in
/// milliseconds.
pub const TERMINATE_GRACE_MS: u64 = 2000;

/// Environment variable carrying the control-plane address to a child.
pub const ENV_ORCHESTRATOR_ADDR: &'static str = "ORCHESTRATOR_PUBLIC_GRPC_ADDR";

/// Environment variable carrying the one-time session id to a child.
pub const ENV_SESSION_ID: &'static str = "AGENT_SESSION_ID";

/// Environment variable carrying the child's metrics port.
pub const ENV_METRICS_PORT: &'static str = "AGENT_METRICS_PORT";

/// Configuration of the agent manager. Intervals and timeouts are in
/// milliseconds.
#[derive(Clone, Debug)]
pub struct AgentManagerConfig {
    pub num_agents: u32,
    pub agent_binary_path: String,
    pub orchestrator_public_grpc_addr: String,
    pub agent_metrics_port_range_start: u16,
    pub health_check_interval_ms: u64,
    pub agent_health_timeout_ms: u64,
}

impl AgentManagerConfig {
    /// The timeout must be representable as a signed millisecond span.
    pub open spec fn wf(&self) -> bool {
        self.agent_health_timeout_ms <= 0x7fff_ffff_ffff_ffff
    }
}

/// What a spawn needs from the manager: the one-time session id for the
/// handoff and the metrics port assigned to the child.
#[derive(Clone, Copy, Debug, PartialEq, Eq, Structural)]
pub struct SpawnRequest {
    pub session_id: u128,
    pub metrics_port: u16,
}

/// Why an agent was removed by the health check.
#[derive(Clone, Copy, Debug, PartialEq, Eq, Structural)]
pub enum RemovalReason {
    /// Its process had exited.
    Exited,
    /// No report arrived within the stale timeout.
    Stale,
}

/// One agent the health check removed, with its record so the caller can
/// terminate and reap the process.
#[derive(Clone, Copy, Debug, PartialEq, Eq, Structural)]
pub struct RemovedAgent {
    pub agent_id: u64,
    pub record: AgentRecord,
    pub reason: RemovalReason,
}

/// The manager: its configuration and the next metrics port to hand out.
pub struct AgentManager {
    pub config: AgentManagerConfig,
    pub next_metrics_port: u16,
}

/// An agent is removed when its process exited or when its last report is
/// older than the stale timeout.
pub open spec fn spec_stale(rec: AgentRecord, now_ms: i64, timeout_ms: u64) -> bool {
    now_ms - rec.last_seen_ms > timeout_ms
}

pub open spec fn spec_should_remove(
    agent_id: u64,
    rec: AgentRecord,
    exited: Seq<u64>,
    now_ms: i64,
    timeout_ms: u64,
) -> bool {
    exited.contains(agent_id) || spec_stale(rec, now_ms, timeout_ms)
}

/// Membership scan over a plain id list.
fn ids_contain(ids: &Vec<u64>, x: u64) -> (r: bool)
    ensures
        r == ids@.contains(x),
{
    let n: usize = ids.len();
    let mut i: usize = 0;
    while i < n
        invariant
            n == ids@.len(),
            i <= n,
            forall|j: int| 0 <= j < i ==> ids@[j] != x,
        decreases n - i,
    {
        if ids[i] == x {
            return true;
        }
        i = i + 1;
    }
    false
}

impl AgentManager {
    /// The next spawned child gets the first port of the configured range.
    pub fn new(config: AgentManagerConfig) -> (r: AgentManager)
        ensures
            r.config == config,
            r.spec_next_metrics_port() == config.agent_metrics_port_range_start,
    {
        let next_metrics_port: u16 = config.agent_metrics_port_range_start;
        AgentManager { config, next_metrics_port }
    }

    pub open spec fn spec_next_metrics_port(&self) -> u16 {
        self.next_metrics_port
    }

    /// Draws a fresh one-time session id and allocates the next metrics
    /// port for one child about to be spawned.
    pub fn next_spawn(&mut self) -> (r: SpawnRequest)
        requires
            old(self).spec_next_metrics_port() < u16::MAX,
        ensures
            final(self).config == old(self).config,
            r.metrics_port == old(self).spec_next_metrics_port(),
            final(self).spec_next_metrics_port() == old(self).spec_next_metrics_port() + 1,
    {
        let session_id: u128 = fresh_token();
        let metrics_port: u16 = self.next_metrics_port;
        self.next_metrics_port = self.next_metrics_port + 1;
        SpawnRequest { session_id, metrics_port }
    }
}

/// The lookup-level bound that a monotone millisecond clock gives: every
/// record was last seen at a non-negative instant no later than now.
pub open spec fn last_seen_bounded(agents: Seq<(u64, AgentRecord)>, now_ms: i64) -> bool {
    forall|a: u64|
        match #[trigger] assoc_lookup(agents, a) {
            Some(rec) => 0 <= rec.last_seen_ms <= now_ms,
            None => true,
        }
}

/// First agent, in table order, that the health check would evict.
fn find_removable(
    state: &CanonicalState,
    config: &AgentManagerConfig,
    now_ms: i64,
    exited: &Vec<u64>,
) -> (r: Option<(u64, AgentRecord)>)
    requires
        state.inv(),
        config.wf(),
        last_seen_bounded(state.agents_seq(), now_ms),
    ensures
        match r {
            Some(p) => assoc_lookup(state.agents_seq(), p.0) == Some(p.1) && spec_should_remove(
                p.0,
                p.1,
                exited@,
                now_ms,
                config.agent_health_timeout_ms,
            ),
            None => forall|a: u64|
                match #[trigger] assoc_lookup(state.agents_seq(), a) {
                    Some(rec) => !spec_should_remove(
                        a,
                        rec,
                        exited@,
                        now_ms,
                        config.agent_health_timeout_ms,
                    ),
                    None => true,
                },
        },
{
    let n: usize = state.agents_len();
    let mut i: usize = 0;
    while i < n
        invariant
            state.inv(),
            config.wf(),
            last_seen_bounded(state.agents_seq(), now_ms),
            n == state.agents_seq().len(),
            i <= n,
            forall|j: int|
                0 <= j < i ==> !spec_should_remove(
                    (#[trigger] state.agents_seq()[j]).0,
                    state.agents_seq()[j].1,
                    exited@,
                    now_ms,
                    config.agent_health_timeout_ms,
                ),
        decreases n - i,
    {
        let e: (u64, AgentRecord) = state.agent_entry(i);
        proof {
            lemma_assoc_found(state.agents_seq(), e.0, i as int);
        }
        let has_exited: bool = ids_contain(exited, e.0);
        let span: i64 = now_ms - e.1.last_seen_ms;
        let stale: bool = (span as u64) > config.agent_health_timeout_ms;
        if has_exited || stale {
            return Some((e.0, e.1));
        }
        i = i + 1;
    }
    proof {
        assert forall|a: u64|
            match #[trigger] assoc_lookup(state.agents_seq(), a) {
                Some(rec) => !spec_should_remove(
                    a,
                    rec,
                    exited@,
                    now_ms,
                    config.agent_health_timeout_ms,
                ),
                None => true,
            } by {
            if assoc_lookup(state.agents_seq(), a) is Some {
                lemma_assoc_some_index(state.agents_seq(), a);
            }
        }
    }
    None
}

/// One pass of the health check at time `now_ms`: every registered agent
/// whose process exited (as observed by the caller) or whose last report
/// is older than the stale timeout is removed from the active table, and
/// when anything was removed one snapshot is broadcast under the ticket
/// `raw_ticket`. Returns the removed agents with their records so the
/// caller can terminate and reap the processes.
pub fn health_check_step(
    state: &mut CanonicalState,
    config: &AgentManagerConfig,
    now_ms: i64,
    exited: &Vec<u64>,
    raw_ticket: u128,
) -> (removed: Vec<RemovedAgent>)
    requires
        old(state).inv(),
        old(state).spec_version() < u64::MAX,
        config.wf(),
        last_seen_bounded(old(state).agents_seq(), now_ms),
    ensures
        final(state).inv(),
        final(state).pending_seq() == old(state).pending_seq(),
        final(state).mask() == old(state).mask(),
        final(state).spec_next_agent_id() == old(state).spec_next_agent_id(),
        final(state).issued_ids() == old(state).issued_ids(),
        final(state).universe() == old(state).universe(),
        // exactly the agents that should stay, stay
        forall|a: u64|
            assoc_lookup(final(state).agents_seq(), a) == (match assoc_lookup(
                old(state).agents_seq(),
                a,
            ) {
                Some(rec) => if spec_should_remove(
                    a,
                    rec,
                    exited@,
                    now_ms,
                    config.agent_health_timeout_ms,
                ) {
                    None
                } else {
                    Some(rec)
                },
                None => None,
            }),
        // the removed list names exactly the evicted agents, with their
        // records and the reason
        removed@.len() + final(state).agents_seq().len() == old(state).agents_seq().len(),
        forall|k: int|
            0 <= k < removed@.len() ==> {
                let ra = #[trigger] removed@[k];
                &&& assoc_lookup(old(state).agents_seq(), ra.agent_id) == Some(ra.record)
                &&& spec_should_remove(
                    ra.agent_id,
                    ra.record,
                    exited@,
                    now_ms,
                    config.agent_health_timeout_ms,
                )
                &&& ra.reason == (if exited@.contains(ra.agent_id) {
                    RemovalReason::Exited
                } else {
                    RemovalReason::Stale
                })
            },
        // a batch that removed anything is followed by one broadcast
        removed@.len() > 0 ==> final(state).spec_version() == old(state).spec_version() + 1
            && final(state).spec_latest().agents@.len() == final(state).agents_seq().len()
            && final(state).spec_latest().timestamp_ms == now_ms,
        removed@.len() == 0 ==> final(state).agents_seq() == old(state).agents_seq() && final(state).spec_version() == old(state).spec_version() && final(state).spec_latest() == old(state).spec_latest() && final(state).tickets_seq() == old(state).tickets_seq(),
{
    let ghost orig: Seq<(u64, AgentRecord)> = old(state).agents_seq();
    let ghost mut gone: Set<u64> = Set::empty();
    let mut removed: Vec<RemovedAgent> = Vec::new();
    let mut done: bool = false;
    while !done
        invariant
            state.inv(),
            config.wf(),
            old(state).spec_version() < u64::MAX,
            state.pending_seq() == old(state).pending_seq(),
            state.mask() == old(state).mask(),
            state.tickets_seq() == old(state).tickets_seq(),
            state.spec_latest() == old(state).spec_latest(),
            state.spec_version() == old(state).spec_version(),
            state.spec_next_agent_id() == old(state).spec_next_agent_id(),
            state.issued_ids() == old(state).issued_ids(),
            state.universe() == old(state).universe(),
            orig == old(state).agents_seq(),
            last_seen_bounded(state.agents_seq(), now_ms),
            gone.finite(),
            removed@.len() == gone.len(),
            state.agents_seq().len() + gone.len() == orig.len(),
            gone.len() == 0 ==> state.agents_seq() == orig,
            forall|a: u64|
                assoc_lookup(state.agents_seq(), a) == (match assoc_lookup(orig, a) {
                    Some(rec) => if gone.contains(a) {
                        None
                    } else {
                        Some(rec)
                    },
                    None => None::<AgentRecord>,
                }),
            forall|a: u64| #[trigger]
                gone.contains(a) ==> (match assoc_lookup(orig, a) {
                    Some(rec) => spec_should_remove(
                        a,
                        rec,
                        exited@,
                        now_ms,
                        config.agent_health_timeout_ms,
                    ),
                    None => false,
                }),
            forall|k: int|
                0 <= k < removed@.len() ==> {
                    let ra = #[trigger] removed@[k];
                    &&& assoc_lookup(orig, ra.agent_id) == Some(ra.record)
                    &&& spec_should_remove(
                        ra.agent_id,
                        ra.record,
                        exited@,
                        now_ms,
                        config.agent_health_timeout_ms,
                    )
                    &&& ra.reason == (if exited@.contains(ra.agent_id) {
                        RemovalReason::Exited
                    } else {
                        RemovalReason::Stale
                    })
                },
            done ==> forall|a: u64|
                match #[trigger] assoc_lookup(state.agents_seq(), a) {
                    Some(rec) => !spec_should_remove(
                        a,
                        rec,
                        exited@,
                        now_ms,
                        config.agent_health_timeout_ms,
                    ),
                    None => true,
                },
        decreases state.agents_seq().len(), (if done { 0int } else { 1int }),
    {
        match find_removable(state, config, now_ms, exited) {
            Some(p) => {
                let got: Option<AgentRecord> = state.remove_agent(p.0);
                proof {
                    assert(got == Some(p.1));
                    assert(!gone.contains(p.0));
                    gone = gone.insert(p.0);
                }
                let has_exited: bool = ids_contain(exited, p.0);
                let reason: RemovalReason = if has_exited {
                    RemovalReason::Exited
                } else {
                    RemovalReason::Stale
                };
                removed.push(RemovedAgent { agent_id: p.0, record: p.1, reason });
            },
            None => {
                done = true;
            },
        }
    }
    proof {
        assert forall|a: u64|
            assoc_lookup(state.agents_seq(), a) == (match assoc_lookup(orig, a) {
                Some(rec) => if spec_should_remove(
                    a,
                    rec,
                    exited@,
                    now_ms,
                    config.agent_health_timeout_ms,
                ) {
                    None::<AgentRecord>
                } else {
                    Some(rec)
                },
                None => None::<AgentRecord>,
            }) by {
            if assoc_lookup(orig, a) is Some && !gone.contains(a) {
            }
        }
    }
    if removed.len() > 0 {
        state.broadcast_at(now_ms, raw_ticket);
    }
    removed
}


/// The lookup-level bound a monotone clock gives on pending entries.
pub open spec fn spawned_bounded(pending: Seq<(u128, SpawnedChild)>, now_ms: i64) -> bool {
    forall|s2: u128|
        match #[trigger] assoc_lookup(pending, s2) {
            Some(child) => 0 <= child.spawned_at_ms <= now_ms,
            None => true,
        }
}

/// A pending registration expires when no registration arrived within the
/// stale timeout of its spawn.
pub open spec fn spec_pending_expired(child: SpawnedChild, now_ms: i64, timeout_ms: u64) -> bool {
    now_ms - child.spawned_at_ms > timeout_ms
}

/// First pending entry, in table order, whose registration grace has
/// passed.
fn find_expired_pending(
    state: &CanonicalState,
    config: &AgentManagerConfig,
    now_ms: i64,
) -> (r: Option<(u128, SpawnedChild)>)
    requires
        state.inv(),
        config.wf(),
        spawned_bounded(state.pending_seq(), now_ms),
    ensures
        match r {
            Some(p) => assoc_lookup(state.pending_seq(), p.0) == Some(p.1)
                && spec_pending_expired(p.1, now_ms, config.agent_health_timeout_ms),
            None => forall|s2: u128|
                match #[trigger] assoc_lookup(state.pending_seq(), s2) {
                    Some(child) => !spec_pending_expired(
                        child,
                        now_ms,
                        config.agent_health_timeout_ms,
                    ),
                    None => true,
                },
        },
{
    let n: usize = state.pending_len();
    let mut i: usize = 0;
    while i < n
        invariant
            state.inv(),
            config.wf(),
            spawned_bounded(state.pending_seq(), now_ms),
            n == state.pending_seq().len(),
            i <= n,
            forall|j: int|
                0 <= j < i ==> !spec_pending_expired(
                    (#[trigger] state.pending_seq()[j]).1,
                    now_ms,
                    config.agent_health_timeout_ms,
                ),
        decreases n - i,
    {
        let e: (u128, SpawnedChild) = state.pending_entry(i);
        proof {
            lemma_assoc_found(state.pending_seq(), e.0, i as int);
        }
        let span: i64 = now_ms - e.1.spawned_at_ms;
        if (span as u64) > config.agent_health_timeout_ms {
            return Some((e.0, e.1));
        }
        i = i + 1;
    }
    proof {
        assert forall|s2: u128|
            match #[trigger] assoc_lookup(state.pending_seq(), s2) {
                Some(child) => !spec_pending_expired(
                    child,
                    now_ms,
                    config.agent_health_timeout_ms,
                ),
                None => true,
            } by {
            if assoc_lookup(state.pending_seq(), s2) is Some {
                lemma_assoc_some_index(state.pending_seq(), s2);
            }
        }
    }
    None
}

/// Drops every pending registration whose grace period has passed: a
/// spawned child that never registered within the stale timeout is dead
/// to the orchestrator. Returns the dropped entries so the caller can
/// signal and reap the children.
pub fn expire_pending_registrations(
    state: &mut CanonicalState,
    config: &AgentManagerConfig,
    now_ms: i64,
) -> (dropped: Vec<(u128, SpawnedChild)>)
    requires
        old(state).inv(),
        config.wf(),
        spawned_bounded(old(state).pending_seq(), now_ms),
    ensures
        final(state).inv(),
        final(state).agents_seq() == old(state).agents_seq(),
        final(state).mask() == old(state).mask(),
        final(state).tickets_seq() == old(state).tickets_seq(),
        final(state).spec_next_agent_id() == old(state).spec_next_agent_id(),
        final(state).issued_ids() == old(state).issued_ids(),
        final(state).spec_latest() == old(state).spec_latest(),
        final(state).spec_version() == old(state).spec_version(),
        final(state).universe() == old(state).universe(),
        // exactly the sessions within their grace stay pending
        forall|s2: u128|
            assoc_lookup(final(state).pending_seq(), s2) == (match assoc_lookup(
                old(state).pending_seq(),
                s2,
            ) {
                Some(child) => if spec_pending_expired(
                    child,
                    now_ms,
                    config.agent_health_timeout_ms,
                ) {
                    None
                } else {
                    Some(child)
                },
                None => None,
            }),
        dropped@.len() + final(state).pending_seq().len() == old(state).pending_seq().len(),
        forall|k: int|
            0 <= k < dropped@.len() ==> {
                let d = #[trigger] dropped@[k];
                assoc_lookup(old(state).pending_seq(), d.0) == Some(d.1)
                    && spec_pending_expired(d.1, now_ms, config.agent_health_timeout_ms)
            },
{
    let ghost orig: Seq<(u128, SpawnedChild)> = old(state).pending_seq();
    let ghost mut gone: Set<u128> = Set::empty();
    let mut dropped: Vec<(u128, SpawnedChild)> = Vec::new();
    let mut done: bool = false;
    while !done
        invariant
            state.inv(),
            config.wf(),
            state.agents_seq() == old(state).agents_seq(),
            state.mask() == old(state).mask(),
            state.tickets_seq() == old(state).tickets_seq(),
            state.spec_latest() == old(state).spec_latest(),
            state.spec_version() == old(state).spec_version(),
            state.spec_next_agent_id() == old(state).spec_next_agent_id(),
            state.issued_ids() == old(state).issued_ids(),
            state.universe() == old(state).universe(),
            orig == old(state).pending_seq(),
            spawned_bounded(state.pending_seq(), now_ms),
            gone.finite(),
            dropped@.len() == gone.len(),
            state.pending_seq().len() + gone.len() == orig.len(),
            forall|s2: u128|
                assoc_lookup(state.pending_seq(), s2) == (match assoc_lookup(orig, s2) {
                    Some(child) => if gone.contains(s2) {
                        None
                    } else {
                        Some(child)
                    },
                    None => None::<SpawnedChild>,
                }),
            forall|s2: u128| #[trigger]
                gone.contains(s2) ==> (match assoc_lookup(orig, s2) {
                    Some(child) => spec_pending_expired(
                        child,
                        now_ms,
                        config.agent_health_timeout_ms,
                    ),
                    None => false,
                }),
            forall|k: int|
                0 <= k < dropped@.len() ==> {
                    let d = #[trigger] dropped@[k];
                    assoc_lookup(orig, d.0) == Some(d.1) && spec_pending_expired(
                        d.1,
                        now_ms,
                        config.agent_health_timeout_ms,
                    ) && gone.contains(d.0)
                },
            done ==> forall|s2: u128|
                match #[trigger] assoc_lookup(state.pending_seq(), s2) {
                    Some(child) => !spec_pending_expired(
                        child,
                        now_ms,
                        config.agent_health_timeout_ms,
                    ),
                    None => true,
                },
        decreases state.pending_seq().len(), (if done {
            0int
        } else {
            1int
        }),
    {
        match find_expired_pending(state, config, now_ms) {
            Some(p) => {
                let got: Option<SpawnedChild> = state.remove_pending_registration(p.0);
                proof {
                    assert(got == Some(p.1));
                    assert(!gone.contains(p.0));
                    gone = gone.insert(p.0);
                }
                dropped.push((p.0, p.1));
            },
            None => {
                done = true;
            },
        }
    }
    dropped
}

} // verus!
