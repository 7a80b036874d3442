//! Control-plane service logic: registration, the bidirectional report
//! stream, and viewer commands.
//!
//! Each function is one step of an RPC handler: the embedding program owns
//! the transport and hands every decoded message to the step function,
//! which performs the state transition and returns what to send back.

use vstd::prelude::*;

use crate::msg::{
    AgentReport, Command, IssueCommandResponse, RegisterAgentRequest, RegisterAgentResponse,
    ReportStateResponse, SCHEMA_VERSION,
};
use crate::pointset::{spec_wire_parse, ParseError};
use crate::state::{
    fresh_token, wall_clock_ms, AgentRecord, CanonicalState, StateError,
};
use crate::tables::assoc_lookup;
use crate::tasking::allocate_tasks;

verus! {

/// What one report does to the agent table: when the report carries a
/// state and its sender is known, exactly the sender's record is replaced
/// (state taken over, `last_seen` advanced, process handle kept); a report
/// without state, or from an unknown agent, leaves the table untouched.
pub open spec fn spec_report_updates_agents(
    pre: Seq<(u64, AgentRecord)>,
    post: Seq<(u64, AgentRecord)>,
    report: AgentReport,
    now_ms: i64,
) -> bool {
    match report.state {
        Some(st) => match assoc_lookup(pre, report.agent_id) {
            Some(prev) => assoc_lookup(post, report.agent_id) == Some(
                AgentRecord { last_seen_ms: now_ms, current_state: st, process: prev.process },
            ) && (forall|a: u64| a != report.agent_id ==> assoc_lookup(post, a) == assoc_lookup(
                pre,
                a,
            )),
            None => post == pre,
        },
        None => post == pre,
    }
}

/// Why a report stream is closed on the sender.
#[derive(Clone, Copy, Debug, PartialEq, Eq, Structural)]
pub enum ProtocolError {
    /// A message carried an agent id other than the one the stream was
    /// bound to by its first message.
    AgentIdMismatch,
    /// The report's point-set payload was rejected.
    BadPointSet(ParseError),
}

/// The per-stream state of one report stream: the agent id the stream is
/// bound to, and whether a protocol error has closed it.
#[derive(Clone, Copy, Debug, PartialEq, Eq, Structural)]
pub struct ReportStreamSession {
    pub bound_agent: Option<u64>,
    pub closed: bool,
}

impl ReportStreamSession {
    /// A fresh, unbound, open stream.
    pub fn new() -> (r: ReportStreamSession)
        ensures
            r.bound_agent is None,
            !r.closed,
    {
        ReportStreamSession { bound_agent: None, closed: false }
    }
}

/// Processes one message of a report stream at time `now_ms`, minting the
/// ticket `raw_ticket` if the step broadcasts.
///
/// The first message binds the stream to its agent id; a later message
/// carrying a different id is a protocol error and closes the stream
/// before anything is merged or updated. Otherwise the report's state, if
/// present, updates the agent's runtime record (a report for an unknown
/// agent is dropped, never resurrected), then its discoveries, if any,
/// are merged; rejected discovery bytes are a protocol error and close
/// the stream. When the report carried state or revealed new points, a
/// fresh snapshot is broadcast, so the snapshot reflects the updated
/// state of the very report that triggered it.
pub fn handle_report_at(
    state: &mut CanonicalState,
    sess: &mut ReportStreamSession,
    report: &AgentReport,
    now_ms: i64,
    raw_ticket: u128,
) -> (r: Result<ReportStateResponse, ProtocolError>)
    requires
        old(state).inv(),
        old(state).spec_version() < u64::MAX,
        !old(sess).closed,
    ensures
        final(state).inv(),
        final(state).pending_seq() == old(state).pending_seq(),
        final(state).spec_next_agent_id() == old(state).spec_next_agent_id(),
        final(state).issued_ids() == old(state).issued_ids(),
        final(state).universe() == old(state).universe(),
        old(state).mask().subset_of(final(state).mask()),
        // a message against the stream's binding is always refused as a
        // mismatch, whatever else it carries, and changes nothing
        (old(sess).bound_agent matches Some(a) && a != report.agent_id) ==> r == Err::<
            ReportStateResponse,
            ProtocolError,
        >(ProtocolError::AgentIdMismatch),
        match r {
            Ok(resp) => {
                &&& resp.schema_version == SCHEMA_VERSION
                &&& resp.assigned_task is None
                &&& !final(sess).closed
                &&& final(sess).bound_agent == Some(report.agent_id)
                &&& (old(sess).bound_agent matches Some(a) ==> a == report.agent_id)
                &&& (if report.discovered_point_ids_portable@.len() == 0 {
                    final(state).mask() == old(state).mask()
                } else {
                    spec_wire_parse(report.discovered_point_ids_portable@) matches Ok(s)
                        && final(state).mask() == old(state).mask().union(s)
                })
                &&& spec_report_updates_agents(
                    old(state).agents_seq(),
                    final(state).agents_seq(),
                    *report,
                    now_ms,
                )
                &&& (if report.state is Some || final(state).mask() != old(state).mask() {
                    &&& final(state).spec_version() == old(state).spec_version() + 1
                    &&& final(state).spec_latest().reveal_mask_ticket == Some(raw_ticket)
                    &&& final(state).spec_latest().revealed_count == final(state).mask().len()
                    &&& final(state).spec_latest().timestamp_ms == now_ms
                    &&& (assoc_lookup(final(state).tickets_seq(), raw_ticket) matches Some(sn)
                        && sn.set@ == final(state).mask() && sn.count == final(state).mask().len())
                    // the published agent list mirrors the table the
                    // report's own update produced
                    &&& final(state).spec_latest().agents@.len() == final(state).agents_seq().len()
                    &&& forall|i: int|
                        0 <= i < final(state).agents_seq().len() ==> final(state).spec_latest().agents@[i] == final(state).agents_seq()[i].1.current_state
                } else {
                    final(state).spec_version() == old(state).spec_version()
                        && final(state).spec_latest() == old(state).spec_latest()
                        && final(state).tickets_seq() == old(state).tickets_seq()
                })
            },
            Err(e) => {
                &&& final(sess).closed
                &&& (match e {
                    ProtocolError::AgentIdMismatch => (old(sess).bound_agent matches Some(a)
                        && a != report.agent_id) && *final(state) == *old(state),
                    ProtocolError::BadPointSet(pe) => {
                        &&& report.discovered_point_ids_portable@.len() > 0
                        &&& final(state).mask() == old(state).mask()
                        &&& final(state).tickets_seq() == old(state).tickets_seq()
                        &&& final(state).spec_version() == old(state).spec_version()
                        &&& final(state).spec_latest() == old(state).spec_latest()
                        &&& spec_report_updates_agents(
                            old(state).agents_seq(),
                            final(state).agents_seq(),
                            *report,
                            now_ms,
                        )
                        &&& (match spec_wire_parse(report.discovered_point_ids_portable@) {
                            Ok(s) => pe == ParseError::IdOutOfUniverse && exists|id: u32|
                                s.contains(id) && (id as u64) >= old(state).universe(),
                            Err(we) => pe == we,
                        })
                    },
                })
            },
        },
{
    match sess.bound_agent {
        Some(a) => {
            if a != report.agent_id {
                sess.closed = true;
                return Err(ProtocolError::AgentIdMismatch);
            }
        },
        None => {
            sess.bound_agent = Some(report.agent_id);
        },
    }
    let mut updated: bool = false;
    match report.state {
        Some(st) => {
            state.update_agent_state(report.agent_id, st, now_ms);
            updated = true;
        },
        None => {},
    }
    let mut grew: bool = false;
    if report.discovered_point_ids_portable.len() > 0 {
        match state.merge_discovered_points(report.discovered_point_ids_portable.as_slice()) {
            Ok(new_points) => {
                if new_points > 0 {
                    grew = true;
                }
                proof {
                    if new_points == 0 {
                        vstd::set_lib::lemma_subset_equality(old(state).mask(), state.mask());
                    }
                }
            },
            Err(e) => {
                sess.closed = true;
                return Err(ProtocolError::BadPointSet(e));
            },
        }
    }
    if updated || grew {
        state.broadcast_at(now_ms, raw_ticket);
    }
    let tasks = allocate_tasks(state);
    proof {
        assert(tasks@.len() == 0);
    }
    Ok(ReportStateResponse { assigned_task: None, schema_version: SCHEMA_VERSION })
}

/// Processes one report against the wall clock with a fresh ticket.
pub fn handle_report(
    state: &mut CanonicalState,
    sess: &mut ReportStreamSession,
    report: &AgentReport,
) -> (r: Result<ReportStateResponse, ProtocolError>)
    requires
        old(state).inv(),
        old(state).spec_version() < u64::MAX,
        !old(sess).closed,
    ensures
        final(state).inv(),
        final(state).pending_seq() == old(state).pending_seq(),
        final(state).spec_next_agent_id() == old(state).spec_next_agent_id(),
        final(state).issued_ids() == old(state).issued_ids(),
        final(state).universe() == old(state).universe(),
        old(state).mask().subset_of(final(state).mask()),
        r is Ok ==> !final(sess).closed && final(sess).bound_agent == Some(report.agent_id),
        r is Err ==> final(sess).closed,
        (r matches Err(ProtocolError::AgentIdMismatch)) ==> (old(sess).bound_agent matches Some(
            a,
        ) && a != report.agent_id),
        (old(sess).bound_agent matches Some(a) && a != report.agent_id) ==> r == Err::<
            ReportStateResponse,
            ProtocolError,
        >(ProtocolError::AgentIdMismatch) && *final(state) == *old(state),
{
    let now_ms: i64 = wall_clock_ms();
    let raw: u128 = fresh_token();
    handle_report_at(state, sess, report, now_ms, raw)
}

/// The unary registration RPC: consumes the request's pending session and
/// returns the agent's id and report metadata, or `NotFound` when no such
/// session is pending.
pub fn handle_register(state: &mut CanonicalState, req: &RegisterAgentRequest) -> (r: Result<
    RegisterAgentResponse,
    StateError,
>)
    requires
        old(state).inv(),
        old(state).spec_next_agent_id() < u64::MAX,
    ensures
        final(state).inv(),
        final(state).mask() == old(state).mask(),
        final(state).tickets_seq() == old(state).tickets_seq(),
        final(state).spec_version() == old(state).spec_version(),
        final(state).universe() == old(state).universe(),
        match r {
            Ok(resp) => {
                &&& assoc_lookup(old(state).pending_seq(), req.session_id) is Some
                &&& assoc_lookup(final(state).pending_seq(), req.session_id) is None
                &&& (assoc_lookup(final(state).agents_seq(), resp.agent_id) matches Some(rec)
                    && rec.current_state.agent_id == resp.agent_id)
                &&& resp.agent_id == old(state).spec_next_agent_id()
                &&& final(state).issued_ids() == old(state).issued_ids().push(resp.agent_id)
                &&& forall|i: int|
                    0 <= i < old(state).issued_ids().len() ==> old(state).issued_ids()[i]
                        < resp.agent_id
                &&& resp.schema_version == SCHEMA_VERSION
            },
            Err(e) => {
                &&& e == StateError::NotFound
                &&& assoc_lookup(old(state).pending_seq(), req.session_id) is None
                &&& final(state).agents_seq() == old(state).agents_seq()
                &&& final(state).pending_seq() == old(state).pending_seq()
                &&& final(state).spec_next_agent_id() == old(state).spec_next_agent_id()
                &&& final(state).issued_ids() == old(state).issued_ids()
            },
        },
{
    let now_ms: i64 = wall_clock_ms();
    state.register_agent(req.session_id, now_ms)
}

/// The unary command RPC. Acknowledgement is immediate: a survey start is
/// a no-op hook, and a reset clears the mask, invalidates every ticket
/// and broadcasts a fresh empty snapshot.
pub fn handle_command(state: &mut CanonicalState, cmd: Command) -> (r: IssueCommandResponse)
    requires
        old(state).inv(),
        old(state).spec_version() < u64::MAX,
    ensures
        final(state).inv(),
        r.acknowledged,
        r.schema_version == SCHEMA_VERSION,
        cmd == Command::StartSurvey ==> *final(state) == *old(state),
        cmd == Command::ResetSimulation ==> {
            &&& final(state).mask() == Set::<u32>::empty()
            &&& final(state).spec_latest().revealed_count == 0
            &&& final(state).spec_version() == old(state).spec_version() + 1
            &&& final(state).agents_seq() == old(state).agents_seq()
            &&& (final(state).spec_latest().reveal_mask_ticket matches Some(t) && forall|
                u: u128,
            |
                u != t ==> assoc_lookup(final(state).tickets_seq(), u) is None)
        },
{
    match cmd {
        Command::StartSurvey => {},
        Command::ResetSimulation => {
            let now_ms: i64 = wall_clock_ms();
            let raw: u128 = fresh_token();
            state.reset_simulation_at(now_ms, raw);
        },
    }
    IssueCommandResponse { acknowledged: true, schema_version: SCHEMA_VERSION }
}

} // verus!
