use symtex::agent::AgentMachine;
use symtex::msg::{AgentMode, Task, TaskKind, Vec3Mm, REPORT_INTERVAL_MS, SCHEMA_VERSION};
use symtex::pointset::PointSet;

fn task() -> Task {
    Task {
        target_waypoint_ecef_mm: Vec3Mm { x: 1000, y: 2000, z: 3000 },
        kind: TaskKind::Waypoint,
    }
}

#[test]
fn mode_machine_follows_task_lifecycle() {
    let mut m = AgentMachine::new(7);
    assert_eq!(m.mode, AgentMode::AwaitingTask);
    m.reach_waypoint();
    assert_eq!(m.mode, AgentMode::AwaitingTask, "waypoint means nothing while awaiting");
    m.assign_task(task());
    assert_eq!(m.mode, AgentMode::Navigating);
    assert_eq!(m.current_task, Some(task()));
    // A second task is ignored: at most one task at a time.
    let other = Task {
        target_waypoint_ecef_mm: Vec3Mm { x: 9, y: 9, z: 9 },
        kind: TaskKind::Survey,
    };
    m.assign_task(other);
    assert_eq!(m.current_task, Some(task()));
    m.reach_waypoint();
    assert_eq!(m.mode, AgentMode::Perceiving);
}

#[test]
fn report_carries_and_clears_the_buffer() {
    let mut m = AgentMachine::new(3);
    let mut scan = PointSet::new();
    scan.insert(10);
    scan.insert(11);
    m.absorb_scan(&scan);
    let mut more = PointSet::new();
    more.insert(11);
    more.insert(12);
    m.absorb_scan(&more);

    let rep = m.get_report_and_clear_buffer(700);
    assert_eq!(rep.agent_id, 3);
    assert_eq!(rep.timestamp_ms, 700);
    let sent = PointSet::deserialize(&rep.discovered_point_ids_portable).unwrap();
    assert_eq!(sent.len(), 3);
    assert!(sent.contains(10) && sent.contains(11) && sent.contains(12));
    // The buffer was cleared atomically with the report: nothing is
    // retained, so nothing can be reported twice.
    assert!(m.discovery_buffer.is_empty());
    let again = m.get_report_and_clear_buffer(1200);
    let sent_again = PointSet::deserialize(&again.discovered_point_ids_portable).unwrap();
    assert!(sent_again.is_empty());

    let st = rep.state.unwrap();
    assert_eq!(st.agent_id, 3);
    assert_eq!(st.seq, 1);
    assert_eq!(st.schema_version, SCHEMA_VERSION);
    assert_eq!(again.state.unwrap().seq, 2, "sequence numbers increase per report");
}

#[test]
fn report_cadence_honours_interval() {
    let mut m = AgentMachine::new(1);
    let rep = m.get_report_and_clear_buffer(0);
    assert_eq!(rep.timestamp_ms, 0);
    assert!(!m.report_due(100));
    assert!(!m.report_due(REPORT_INTERVAL_MS as i64 - 1));
    assert!(m.report_due(REPORT_INTERVAL_MS as i64));
    assert!(m.report_due(10_000));
}

#[test]
fn set_pose_updates_reported_position() {
    let mut m = AgentMachine::new(2);
    let pos = Vec3Mm { x: 4_000_000_000_000, y: -5, z: 6 };
    let vel = Vec3Mm { x: 1, y: 2, z: 3 };
    let q = symtex::msg::QuatQ30 { x: 0, y: 0, z: 0, w: 1 << 30 };
    m.set_pose(pos, vel, q);
    let rep = m.get_report_and_clear_buffer(10);
    let st = rep.state.unwrap();
    assert_eq!(st.position_ecef_mm, pos);
    assert_eq!(st.velocity_mm_s, vel);
    assert_eq!(st.orientation_q30, q);
}
