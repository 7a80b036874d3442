//! Data carried by the control-plane protocol: agent state, tasks, reports
//! and world-state snapshots.
//!
//! Positions and velocities travel as integer millimetre quantities and
//! orientations as Q30 fixed-point quaternion components, so that every
//! field the orchestrator stores or forwards is a plain value.

use vstd::prelude::*;

verus! {

/// Schema version stamped on every message.
pub const SCHEMA_VERSION: u32 = 1;

/// Report interval suggested to agents at registration, in milliseconds.
pub const REPORT_INTERVAL_MS: u32 = 500;

/// Largest report payload suggested to agents at registration, in bytes.
pub const MAX_REPORT_BYTES: u32 = 1024 * 1024;

/// A Cartesian ECEF triple in integer millimetres (or millimetres per
/// second, for velocities).
#[derive(Clone, Copy, Debug, PartialEq, Eq, Structural)]
pub struct Vec3Mm {
    pub x: i64,
    pub y: i64,
    pub z: i64,
}

/// A unit quaternion with components in Q30 fixed point (1.0 == 1 << 30).
#[derive(Clone, Copy, Debug, PartialEq, Eq, Structural)]
pub struct QuatQ30 {
    pub x: i32,
    pub y: i32,
    pub z: i32,
    pub w: i32,
}

/// The mode an agent reports itself to be in.
#[derive(Clone, Copy, Debug, PartialEq, Eq, Structural)]
pub enum AgentMode {
    AwaitingTask,
    Navigating,
    Perceiving,
    Idle,
    Error,
}

/// The kind tag of a task.
#[derive(Clone, Copy, Debug, PartialEq, Eq, Structural)]
pub enum TaskKind {
    Waypoint,
    Survey,
}

/// A task handed to an agent: a target waypoint and a kind tag.
#[derive(Clone, Copy, Debug, PartialEq, Eq, Structural)]
pub struct Task {
    pub target_waypoint_ecef_mm: Vec3Mm,
    pub kind: TaskKind,
}

/// The state one agent reports: identity, clock, kinematics, mode and a
/// per-agent sequence number.
#[derive(Clone, Copy, Debug, PartialEq, Eq, Structural)]
pub struct AgentState {
    pub agent_id: u64,
    pub timestamp_ms: i64,
    pub position_ecef_mm: Vec3Mm,
    pub velocity_mm_s: Vec3Mm,
    pub orientation_q30: QuatQ30,
    pub mode: AgentMode,
    pub seq: u64,
    pub schema_version: u32,
}

impl AgentState {
    /// The initial record stored for a freshly registered agent.
    pub fn initial(agent_id: u64) -> (r: AgentState)
        ensures
            r == AgentState::spec_initial(agent_id),
    {
        AgentState {
            agent_id,
            timestamp_ms: 0,
            position_ecef_mm: Vec3Mm { x: 0, y: 0, z: 0 },
            velocity_mm_s: Vec3Mm { x: 0, y: 0, z: 0 },
            orientation_q30: QuatQ30 { x: 0, y: 0, z: 0, w: 0x4000_0000 },
            mode: AgentMode::AwaitingTask,
            seq: 0,
            schema_version: SCHEMA_VERSION,
        }
    }

    pub open spec fn spec_initial(agent_id: u64) -> AgentState {
        AgentState {
            agent_id,
            timestamp_ms: 0,
            position_ecef_mm: Vec3Mm { x: 0, y: 0, z: 0 },
            velocity_mm_s: Vec3Mm { x: 0, y: 0, z: 0 },
            orientation_q30: QuatQ30 { x: 0, y: 0, z: 0, w: 0x4000_0000 },
            mode: AgentMode::AwaitingTask,
            seq: 0,
            schema_version: SCHEMA_VERSION,
        }
    }
}

/// One message on the agent-to-orchestrator report stream.
#[derive(Clone, Debug)]
pub struct AgentReport {
    pub agent_id: u64,
    pub timestamp_ms: i64,
    pub state: Option<AgentState>,
    pub discovered_point_ids_portable: Vec<u8>,
}

/// The orchestrator's answer to one report.
#[derive(Clone, Copy, Debug, PartialEq, Eq, Structural)]
pub struct ReportStateResponse {
    pub assigned_task: Option<Task>,
    pub schema_version: u32,
}

/// The registration request an agent sends once, carrying its one-time
/// session id.
#[derive(Clone, Debug)]
pub struct RegisterAgentRequest {
    pub session_id: u128,
    pub sw_version: String,
    pub hw_profile: String,
}

/// The metadata returned on successful registration.
#[derive(Clone, Copy, Debug, PartialEq, Eq, Structural)]
pub struct RegisterAgentResponse {
    pub agent_id: u64,
    pub server_time_ms: i64,
    pub report_interval_ms: u32,
    pub max_report_bytes: u32,
    pub schema_version: u32,
}

/// A world-state snapshot broadcast to viewers. Coverage travels as the
/// pair (revealed id count, universe size); the ratio is their quotient.
#[derive(Clone, Debug)]
pub struct WorldState {
    pub timestamp_ms: i64,
    pub agents: Vec<AgentState>,
    pub reveal_mask_ticket: Option<u128>,
    pub revealed_count: u64,
    pub universe_points: u64,
    pub schema_version: u32,
}

/// A command a viewer can issue.
#[derive(Clone, Copy, Debug, PartialEq, Eq, Structural)]
pub enum Command {
    StartSurvey,
    ResetSimulation,
}

/// The immediate acknowledgement of a command.
#[derive(Clone, Debug)]
pub struct IssueCommandResponse {
    pub acknowledged: bool,
    pub schema_version: u32,
}

} // verus!
