use symtex::bulk::do_get;
use symtex::control::{handle_report_at, ProtocolError, ReportStreamSession};
use symtex::manager::{
    expire_pending_registrations, health_check_step, AgentManager, AgentManagerConfig,
    RemovalReason,
};
use symtex::msg::{AgentReport, AgentState, SCHEMA_VERSION};
use symtex::pointset::{ParseError, PointSet};
use symtex::state::{CanonicalState, ProcessHandle, SpawnedChild, StateError};
use symtex::tasking::allocate_tasks;

fn pending(state: &mut CanonicalState, sid: u128) {
    let child = SpawnedChild { handle: ProcessHandle { pid: 500 + sid as u64 }, spawned_at_ms: 0 };
    assert!(state.add_pending_registration(sid, child));
}

fn payload(ids: &[u32]) -> Vec<u8> {
    let mut ps = PointSet::new();
    for &id in ids {
        ps.insert(id);
    }
    ps.serialize()
}

fn config(timeout_ms: u64) -> AgentManagerConfig {
    AgentManagerConfig {
        num_agents: 1,
        agent_binary_path: String::from("sim_agent"),
        orchestrator_public_grpc_addr: String::from("http://127.0.0.1:50051"),
        agent_metrics_port_range_start: 9100,
        health_check_interval_ms: 100,
        agent_health_timeout_ms: timeout_ms,
    }
}

#[test]
fn stream_binds_to_first_agent_id() {
    let mut state = CanonicalState::new(100);
    pending(&mut state, 1);
    let resp = state.register_agent(1, 0).unwrap();
    let mut sess = ReportStreamSession::new();
    let rep = AgentReport {
        agent_id: resp.agent_id,
        timestamp_ms: 5,
        state: Some(AgentState::initial(resp.agent_id)),
        discovered_point_ids_portable: Vec::new(),
    };
    let out = handle_report_at(&mut state, &mut sess, &rep, 5, 0x31).unwrap();
    assert_eq!(out.schema_version, SCHEMA_VERSION);
    assert!(out.assigned_task.is_none());
    assert_eq!(sess.bound_agent, Some(resp.agent_id));

    // A later message with a different agent id closes the stream.
    let intruder = AgentReport {
        agent_id: resp.agent_id + 1,
        timestamp_ms: 6,
        state: None,
        discovered_point_ids_portable: payload(&[1]),
    };
    let err = handle_report_at(&mut state, &mut sess, &intruder, 6, 0x32).unwrap_err();
    assert_eq!(err, ProtocolError::AgentIdMismatch);
    assert!(sess.closed);
    // The mismatched report credited nothing.
    assert_eq!(state.revealed_count(), 0);
}

#[test]
fn bad_point_bytes_close_the_stream() {
    let mut state = CanonicalState::new(100);
    let mut sess = ReportStreamSession::new();
    let rep = AgentReport {
        agent_id: 8,
        timestamp_ms: 5,
        state: None,
        discovered_point_ids_portable: vec![9, 9, 9],
    };
    let err = handle_report_at(&mut state, &mut sess, &rep, 5, 0x33).unwrap_err();
    assert_eq!(err, ProtocolError::BadPointSet(ParseError::Truncated));
    assert!(sess.closed);
}

#[test]
fn tasking_hook_default_assigns_nothing() {
    let state = CanonicalState::new(100);
    assert!(allocate_tasks(&state).is_empty());
}

#[test]
fn do_get_serves_stored_snapshot_bytes() {
    let mut state = CanonicalState::new(100);
    state.merge_discovered_points(&payload(&[7, 42])).unwrap();
    state.broadcast_at(10, 0x51);
    let stream = do_get(&state, 0x51).unwrap();
    assert_eq!(stream.schema.field_name, "roaring_portable");
    assert_eq!(stream.schema.content_type, "application/x-roaring");
    assert_eq!(stream.schema.format_version, "1");
    let ps = PointSet::deserialize(&stream.data.roaring_portable).unwrap();
    assert_eq!(ps.len(), 2);
    assert!(ps.contains(7) && ps.contains(42));
    // The served bytes are exactly the stored snapshot bytes.
    assert_eq!(stream.data.roaring_portable, state.lookup_ticket(0x51).unwrap().bytes);
}

#[test]
fn do_get_unknown_ticket_is_not_found() {
    let state = CanonicalState::new(100);
    match do_get(&state, 0xdead) {
        Ok(_) => panic!("unknown ticket must be refused"),
        Err(e) => assert_eq!(e, StateError::NotFound),
    }
}

#[test]
fn manager_hands_out_consecutive_metrics_ports() {
    let mut mgr = AgentManager::new(config(10_000));
    let a = mgr.next_spawn();
    let b = mgr.next_spawn();
    assert_eq!(a.metrics_port, 9100);
    assert_eq!(b.metrics_port, 9101);
    assert_ne!(a.session_id, b.session_id, "session ids are one-time tokens");
}

#[test]
fn duplicate_pending_session_is_refused() {
    let mut state = CanonicalState::new(100);
    pending(&mut state, 5);
    let child = SpawnedChild { handle: ProcessHandle { pid: 1 }, spawned_at_ms: 0 };
    assert!(!state.add_pending_registration(5, child));
}

#[test]
fn scenario_e_stale_agent_is_removed_and_broadcast() {
    // Stale timeout 200 ms: the agent registers, reports once, then goes
    // silent; the next health pass after the timeout removes it.
    let mut state = CanonicalState::new(100);
    pending(&mut state, 1);
    let resp = state.register_agent(1, 0).unwrap();
    let st = AgentState::initial(resp.agent_id);
    assert!(state.update_agent_state(resp.agent_id, st, 100));
    assert_eq!(state.agents_len(), 1);

    let cfg = config(200);
    let mut cursor = state.subscribe_world_state(false);
    // At t=250 the last report (t=100) is only 150 ms old: nothing happens.
    let removed = health_check_step(&mut state, &cfg, 250, &Vec::new(), 0x61);
    assert!(removed.is_empty());
    assert_eq!(state.agents_len(), 1);
    assert!(state.poll_world_state(&mut cursor).is_none(), "no removal, no broadcast");

    // At t=350 the report is 250 ms old, beyond the 200 ms timeout.
    let removed = health_check_step(&mut state, &cfg, 350, &Vec::new(), 0x62);
    assert_eq!(removed.len(), 1);
    assert_eq!(removed[0].agent_id, resp.agent_id);
    assert_eq!(removed[0].reason, RemovalReason::Stale);
    assert_eq!(state.agents_len(), 0);
    let snap = state.poll_world_state(&mut cursor).expect("a broadcast follows the batch");
    assert_eq!(snap.agents.len(), 0);
}

#[test]
fn exited_agent_is_removed_with_exit_reason() {
    let mut state = CanonicalState::new(100);
    pending(&mut state, 1);
    pending(&mut state, 2);
    let a = state.register_agent(1, 0).unwrap();
    let b = state.register_agent(2, 0).unwrap();
    let cfg = config(10_000);
    let exited = vec![a.agent_id];
    let removed = health_check_step(&mut state, &cfg, 50, &exited, 0x63);
    assert_eq!(removed.len(), 1);
    assert_eq!(removed[0].agent_id, a.agent_id);
    assert_eq!(removed[0].reason, RemovalReason::Exited);
    assert_eq!(state.agents_len(), 1);
    assert_eq!(state.agent_entry(0).0, b.agent_id);
}

#[test]
fn pending_session_expires_after_grace() {
    let mut state = CanonicalState::new(100);
    let cfg = config(200);
    let child = SpawnedChild { handle: ProcessHandle { pid: 77 }, spawned_at_ms: 100 };
    assert!(state.add_pending_registration(9, child));

    // Within the grace period nothing is dropped.
    let dropped = expire_pending_registrations(&mut state, &cfg, 250);
    assert!(dropped.is_empty());
    assert_eq!(state.pending_len(), 1);

    // Past the grace period the entry is dropped and registration fails.
    let dropped = expire_pending_registrations(&mut state, &cfg, 350);
    assert_eq!(dropped.len(), 1);
    assert_eq!(dropped[0].0, 9);
    assert_eq!(dropped[0].1.handle.pid, 77);
    assert_eq!(state.pending_len(), 0);
    assert_eq!(state.register_agent(9, 400).unwrap_err(), StateError::NotFound);
}
