use symtex::control::{handle_command, handle_report_at, ReportStreamSession};
use symtex::msg::{AgentMode, AgentReport, AgentState, Command};
use symtex::pointset::{ParseError, PointSet};
use symtex::state::{
    CanonicalState, ProcessHandle, SpawnedChild, StateError, TICKET_CAP,
};

fn pending(state: &mut CanonicalState, sid: u128, now_ms: i64) {
    let child = SpawnedChild { handle: ProcessHandle { pid: 4000 + sid as u64 }, spawned_at_ms: now_ms };
    assert!(state.add_pending_registration(sid, child));
}

fn payload(ids: &[u32]) -> Vec<u8> {
    let mut ps = PointSet::new();
    for &id in ids {
        ps.insert(id);
    }
    ps.serialize()
}

fn report(agent_id: u64, ts: i64, ids: &[u32]) -> AgentReport {
    let mut st = AgentState::initial(agent_id);
    st.timestamp_ms = ts;
    st.mode = AgentMode::Perceiving;
    AgentReport {
        agent_id,
        timestamp_ms: ts,
        state: Some(st),
        discovered_point_ids_portable: if ids.is_empty() { Vec::new() } else { payload(ids) },
    }
}

fn resolve_ticket(state: &CanonicalState, ticket: u128) -> PointSet {
    let snap = state.lookup_ticket(ticket).expect("ticket must resolve");
    PointSet::deserialize(&snap.bytes).expect("snapshot bytes must parse")
}

#[test]
fn scenario_a_empty_then_single() {
    let mut state = CanonicalState::new(100);
    pending(&mut state, 1, 0);
    let resp = state.register_agent(1, 10).unwrap();
    assert_eq!(resp.agent_id, 1);

    let mut sess = ReportStreamSession::new();
    let rep = report(resp.agent_id, 20, &[]);
    handle_report_at(&mut state, &mut sess, &rep, 20, 0xA1).unwrap();

    let mut cursor = state.subscribe_world_state(true);
    let snap = state.poll_world_state(&mut cursor).expect("snapshot expected");
    assert_eq!(snap.revealed_count, 0);
    assert_eq!(snap.universe_points, 100);
    let coverage = snap.revealed_count as f64 / snap.universe_points as f64;
    assert_eq!(coverage, 0.0);
    assert_eq!(snap.agents.len(), 1);
    assert_eq!(snap.agents[0].agent_id, resp.agent_id);
    assert_eq!(snap.agents[0].mode, AgentMode::Perceiving);
    let ticket = snap.reveal_mask_ticket.expect("broadcast must carry a ticket");
    let resolved = resolve_ticket(&state, ticket);
    assert!(resolved.is_empty());
}

#[test]
fn scenario_b_single_merge() {
    let mut state = CanonicalState::new(100);
    pending(&mut state, 1, 0);
    let resp = state.register_agent(1, 10).unwrap();

    let n = state.merge_discovered_points(&payload(&[7, 42])).unwrap();
    assert_eq!(n, 2, "merge returns the cardinality increase");
    state.broadcast_at(30, 0xB1);

    let mut cursor = state.subscribe_world_state(true);
    let snap = state.poll_world_state(&mut cursor).unwrap();
    let coverage = snap.revealed_count as f64 / snap.universe_points as f64;
    assert_eq!(coverage, 0.02);
    let resolved = resolve_ticket(&state, snap.reveal_mask_ticket.unwrap());
    assert_eq!(resolved.len(), 2);
    assert!(resolved.contains(7) && resolved.contains(42));
    assert_eq!(resp.agent_id, 1);
}

#[test]
fn scenario_c_idempotent_merge_still_broadcasts() {
    let mut state = CanonicalState::new(100);
    pending(&mut state, 1, 0);
    let resp = state.register_agent(1, 10).unwrap();
    let mut sess = ReportStreamSession::new();
    handle_report_at(&mut state, &mut sess, &report(resp.agent_id, 20, &[7, 42]), 20, 0xC1)
        .unwrap();
    assert_eq!(state.revealed_count(), 2);

    let mut cursor = state.subscribe_world_state(false);
    // The same agent reports an already-revealed id again.
    let n = state.merge_discovered_points(&payload(&[7])).unwrap();
    assert_eq!(n, 0, "no new points");
    handle_report_at(&mut state, &mut sess, &report(resp.agent_id, 40, &[7]), 40, 0xC2)
        .unwrap();
    assert_eq!(state.revealed_count(), 2);
    // A broadcast still happened, because the report carried state.
    let snap = state.poll_world_state(&mut cursor).expect("broadcast expected");
    assert_eq!(snap.revealed_count, 2);
}

#[test]
fn scenario_d_two_agent_union() {
    let mut state = CanonicalState::new(100);
    pending(&mut state, 1, 0);
    pending(&mut state, 2, 0);
    let a = state.register_agent(1, 10).unwrap();
    let b = state.register_agent(2, 11).unwrap();
    assert!(b.agent_id > a.agent_id);

    let mut sess_a = ReportStreamSession::new();
    let mut sess_b = ReportStreamSession::new();
    handle_report_at(&mut state, &mut sess_a, &report(a.agent_id, 20, &[1, 2, 3]), 20, 0xD1)
        .unwrap();
    handle_report_at(&mut state, &mut sess_b, &report(b.agent_id, 21, &[3, 4, 5]), 21, 0xD2)
        .unwrap();

    assert_eq!(state.revealed_count(), 5);
    for id in [1u32, 2, 3, 4, 5] {
        assert!(state.mask_contains(id));
    }
    let mut cursor = state.subscribe_world_state(true);
    let snap = state.poll_world_state(&mut cursor).unwrap();
    let coverage = snap.revealed_count as f64 / snap.universe_points as f64;
    assert_eq!(coverage, 0.05);
}

#[test]
fn scenario_f_ticket_not_found_after_reset() {
    let mut state = CanonicalState::new(100);
    let all: Vec<u32> = (1..=10).collect();
    assert_eq!(state.merge_discovered_points(&payload(&all)).unwrap(), 10);
    state.broadcast_at(30, 0xF1);
    let resolved = resolve_ticket(&state, 0xF1);
    assert_eq!(resolved.len(), 10);

    let ack = handle_command(&mut state, Command::ResetSimulation);
    assert!(ack.acknowledged);
    assert!(state.lookup_ticket(0xF1).is_none(), "old tickets are invalid after reset");
    assert_eq!(state.revealed_count(), 0);

    let mut cursor = state.subscribe_world_state(true);
    let snap = state.poll_world_state(&mut cursor).unwrap();
    assert_eq!(snap.revealed_count, 0);
    let resolved = resolve_ticket(&state, snap.reveal_mask_ticket.unwrap());
    assert!(resolved.is_empty());
}

#[test]
fn register_unknown_session_is_not_found() {
    let mut state = CanonicalState::new(100);
    assert_eq!(state.register_agent(77, 0).unwrap_err(), StateError::NotFound);
}

#[test]
fn registration_handoff_consumes_the_session() {
    // Two attempts race for one pending entry; with the handoff atomic,
    // exactly the first succeeds and the second finds nothing.
    let mut state = CanonicalState::new(100);
    pending(&mut state, 9, 0);
    let first = state.register_agent(9, 5);
    let second = state.register_agent(9, 6);
    assert!(first.is_ok());
    assert_eq!(second.unwrap_err(), StateError::NotFound);
}

#[test]
fn agent_ids_are_strictly_increasing_and_never_reused() {
    let mut state = CanonicalState::new(100);
    let mut last = 0u64;
    for sid in 1..=5u128 {
        pending(&mut state, sid, 0);
        let resp = state.register_agent(sid, 0).unwrap();
        assert!(resp.agent_id > last);
        last = resp.agent_id;
    }
    // Removing an agent does not free its id.
    state.remove_agent(3);
    pending(&mut state, 99, 0);
    let resp = state.register_agent(99, 0).unwrap();
    assert!(resp.agent_id > last);
}

#[test]
fn ticket_lookup_is_stable_until_eviction() {
    let mut state = CanonicalState::new(1000);
    state.merge_discovered_points(&payload(&[5, 6])).unwrap();
    state.broadcast_at(10, 0x11);
    let first = state.lookup_ticket(0x11).unwrap().bytes.clone();
    // Later merges and broadcasts leave the old snapshot untouched.
    state.merge_discovered_points(&payload(&[7])).unwrap();
    state.broadcast_at(20, 0x12);
    let again = state.lookup_ticket(0x11).unwrap().bytes.clone();
    assert_eq!(first, again);
    let old = PointSet::deserialize(&again).unwrap();
    assert_eq!(old.len(), 2);
    let newer = resolve_ticket(&state, 0x12);
    assert_eq!(newer.len(), 3);
}

#[test]
fn ticket_table_evicts_oldest_beyond_capacity() {
    let mut state = CanonicalState::new(1000);
    state.broadcast_at(0, 0);
    for i in 1..=(TICKET_CAP as u128) {
        state.broadcast_at(i as i64, i);
    }
    // The very first ticket was the oldest entry and has been evicted.
    assert!(state.lookup_ticket(0).is_none());
    assert!(state.lookup_ticket(1).is_some());
    assert!(state.lookup_ticket(TICKET_CAP as u128).is_some());
}

#[test]
fn broadcast_ticket_matches_coverage_count() {
    let mut state = CanonicalState::new(200);
    state.merge_discovered_points(&payload(&[1, 2, 3, 4])).unwrap();
    state.broadcast_at(50, 0x44);
    let mut cursor = state.subscribe_world_state(true);
    let snap = state.poll_world_state(&mut cursor).unwrap();
    let resolved = resolve_ticket(&state, snap.reveal_mask_ticket.unwrap());
    // The ticket resolves to a set whose cardinality matches the
    // broadcast coverage count exactly.
    assert_eq!(resolved.len(), snap.revealed_count);
    assert_eq!(snap.revealed_count, 4);
}

#[test]
fn merge_rejects_out_of_universe_ids() {
    let mut state = CanonicalState::new(100);
    let err = state.merge_discovered_points(&payload(&[99, 100])).unwrap_err();
    assert_eq!(err, ParseError::IdOutOfUniverse);
    // The rejected merge changed nothing.
    assert_eq!(state.revealed_count(), 0);
    assert!(state.merge_discovered_points(&payload(&[99])).is_ok());
}

#[test]
fn merge_of_empty_bytes_is_zero() {
    let mut state = CanonicalState::new(100);
    assert_eq!(state.merge_discovered_points(&[]).unwrap(), 0);
}

#[test]
fn merge_rejects_malformed_bytes() {
    let mut state = CanonicalState::new(100);
    let err = state
        .merge_discovered_points(&[1, 4, 0, 0, 0, 0, 0, 0, 0, 1, 2, 3, 4])
        .unwrap_err();
    assert_eq!(err, ParseError::Malformed);
}

#[test]
fn update_unknown_agent_is_dropped() {
    let mut state = CanonicalState::new(100);
    let st = AgentState::initial(42);
    assert!(!state.update_agent_state(42, st, 10), "unsolicited update must not resurrect");
    assert_eq!(state.agents_len(), 0);
}

#[test]
fn snapshot_coalescing_polls_only_latest() {
    let mut state = CanonicalState::new(100);
    let mut cursor = state.subscribe_world_state(false);
    assert!(state.poll_world_state(&mut cursor).is_none(), "nothing new yet");
    // Three broadcasts happen before the viewer polls again.
    state.merge_discovered_points(&payload(&[1])).unwrap();
    state.broadcast_at(10, 0x21);
    state.merge_discovered_points(&payload(&[2])).unwrap();
    state.broadcast_at(20, 0x22);
    state.merge_discovered_points(&payload(&[3])).unwrap();
    state.broadcast_at(30, 0x23);
    // One poll sees only the latest snapshot.
    let snap = state.poll_world_state(&mut cursor).expect("latest snapshot");
    assert_eq!(snap.timestamp_ms, 30);
    assert_eq!(snap.revealed_count, 3);
    // And the next poll sees nothing until a new broadcast.
    assert!(state.poll_world_state(&mut cursor).is_none());
}

#[test]
fn subscribe_with_initial_snapshot_sees_current_state() {
    let state = CanonicalState::new(100);
    let mut cursor = state.subscribe_world_state(true);
    let snap = state.poll_world_state(&mut cursor).expect("initial snapshot");
    assert_eq!(snap.revealed_count, 0);
    assert!(snap.reveal_mask_ticket.is_none());
    assert_eq!(snap.agents.len(), 0);
}

#[test]
fn start_survey_acknowledges_without_effect() {
    let mut state = CanonicalState::new(100);
    state.merge_discovered_points(&payload(&[1])).unwrap();
    let before = state.revealed_count();
    let ack = handle_command(&mut state, Command::StartSurvey);
    assert!(ack.acknowledged);
    assert_eq!(state.revealed_count(), before);
}
