//! Core library of a distributed exploration simulation: a compressed
//! point-ID set with a portable wire format, the orchestrator's canonical
//! state (agents, reveal mask, tickets, snapshot broadcast), the control
//! and bulk-data protocol logic, the agent lifecycle manager, and the
//! HYPC tile codec.

pub mod agent;
pub mod bulk;
pub mod control;
pub mod hypc;
pub mod manager;
pub mod msg;
pub mod pointset;
pub mod state;
pub mod tables;
pub mod tasking;
pub mod wire;
