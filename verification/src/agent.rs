//! The agent process's verified core: the mode machine, the discovery
//! buffer with its report-and-clear step, and the readout of a perception
//! result buffer.
//!
//! Physics and the GPU kernel live outside; they hand in plain values (a
//! pose, a result buffer) and the machine decides what to report and when.

use vstd::prelude::*;

use crate::msg::{
    AgentMode, AgentReport, AgentState, QuatQ30, Task, Vec3Mm, REPORT_INTERVAL_MS, SCHEMA_VERSION,
};
use crate::pointset::{spec_wire_parse, ParseError, PointSet};
use crate::wire::{le_u32, spec_le32, spec_le32_val};

verus! {

/// The agent's control state between ticks.
pub struct AgentMachine {
    pub agent_id: u64,
    pub mode: AgentMode,
    /// Per-report sequence number, strictly increasing.
    pub seq: u64,
    pub current_task: Option<Task>,
    pub position_ecef_mm: Vec3Mm,
    pub velocity_mm_s: Vec3Mm,
    pub orientation_q30: QuatQ30,
    pub discovery_buffer: PointSet,
    pub last_report_ms: i64,
}

impl AgentMachine {
    pub open spec fn wf(&self) -> bool {
        self.discovery_buffer.wf()
    }

    /// A fresh machine awaiting its first task, with an empty buffer.
    pub fn new(agent_id: u64) -> (r: AgentMachine)
        ensures
            r.agent_id == agent_id,
            r.mode == AgentMode::AwaitingTask,
            r.seq == 0,
            r.current_task is None,
            r.discovery_buffer@ == Set::<u32>::empty(),
            r.wf(),
    {
        AgentMachine {
            agent_id,
            mode: AgentMode::AwaitingTask,
            seq: 0,
            current_task: None,
            position_ecef_mm: Vec3Mm { x: 0, y: 0, z: 0 },
            velocity_mm_s: Vec3Mm { x: 0, y: 0, z: 0 },
            orientation_q30: QuatQ30 { x: 0, y: 0, z: 0, w: 0x4000_0000 },
            discovery_buffer: PointSet::new(),
            last_report_ms: 0,
        }
    }

    /// Task receipt: an agent awaiting a task starts navigating to it; an
    /// agent that already holds a task ignores the new one, since at most
    /// one task is assigned at a time.
    pub fn assign_task(&mut self, task: Task)
        requires
            old(self).wf(),
        ensures
            final(self).wf(),
            final(self).agent_id == old(self).agent_id,
            final(self).seq == old(self).seq,
            final(self).discovery_buffer@ == old(self).discovery_buffer@,
            old(self).mode == AgentMode::AwaitingTask ==> final(self).mode
                == AgentMode::Navigating && final(self).current_task == Some(task),
            old(self).mode != AgentMode::AwaitingTask ==> final(self).mode == old(self).mode
                && final(self).current_task == old(self).current_task,
    {
        if self.mode == AgentMode::AwaitingTask {
            self.mode = AgentMode::Navigating;
            self.current_task = Some(task);
        }
    }

    /// Waypoint reach: a navigating agent starts perceiving; in any other
    /// mode the event means nothing.
    pub fn reach_waypoint(&mut self)
        requires
            old(self).wf(),
        ensures
            final(self).wf(),
            final(self).agent_id == old(self).agent_id,
            final(self).discovery_buffer@ == old(self).discovery_buffer@,
            old(self).mode == AgentMode::Navigating ==> final(self).mode == AgentMode::Perceiving,
            old(self).mode != AgentMode::Navigating ==> final(self).mode == old(self).mode,
    {
        if self.mode == AgentMode::Navigating {
            self.mode = AgentMode::Perceiving;
        }
    }

    /// The pose the embedding physics computed for this tick.
    pub fn set_pose(&mut self, position_ecef_mm: Vec3Mm, velocity_mm_s: Vec3Mm, orientation_q30: QuatQ30)
        requires
            old(self).wf(),
        ensures
            final(self).wf(),
            final(self).position_ecef_mm == position_ecef_mm,
            final(self).velocity_mm_s == velocity_mm_s,
            final(self).orientation_q30 == orientation_q30,
            final(self).mode == old(self).mode,
            final(self).seq == old(self).seq,
            final(self).agent_id == old(self).agent_id,
            final(self).discovery_buffer@ == old(self).discovery_buffer@,
    {
        self.position_ecef_mm = position_ecef_mm;
        self.velocity_mm_s = velocity_mm_s;
        self.orientation_q30 = orientation_q30;
    }

    /// Unions one perception result into the local discovery buffer.
    pub fn absorb_scan(&mut self, discovered: &PointSet)
        requires
            old(self).wf(),
            discovered.wf(),
        ensures
            final(self).wf(),
            final(self).discovery_buffer@ == old(self).discovery_buffer@.union(discovered@),
            final(self).mode == old(self).mode,
            final(self).seq == old(self).seq,
            final(self).agent_id == old(self).agent_id,
    {
        self.discovery_buffer.union_in_place(discovered);
    }

    /// Report cadence: a report is due once the report interval has passed
    /// since the last one.
    pub fn report_due(&self, now_ms: i64) -> (r: bool)
        requires
            0 <= self.last_report_ms <= now_ms,
        ensures
            r == (now_ms - self.last_report_ms >= REPORT_INTERVAL_MS),
    {
        now_ms - self.last_report_ms >= REPORT_INTERVAL_MS as i64
    }

    /// Emits one report carrying the current state and the serialized
    /// discovery buffer, and clears the buffer in the same step: every
    /// buffered id is in the report and none is retained, so no id can be
    /// reported twice.
    pub fn get_report_and_clear_buffer(&mut self, now_ms: i64) -> (r: AgentReport)
        requires
            old(self).wf(),
            old(self).seq < u64::MAX,
        ensures
            final(self).wf(),
            r.agent_id == old(self).agent_id,
            r.timestamp_ms == now_ms,
            spec_wire_parse(r.discovered_point_ids_portable@) == Ok::<Set<u32>, ParseError>(
                old(self).discovery_buffer@,
            ),
            final(self).discovery_buffer@ == Set::<u32>::empty(),
            (r.state matches Some(st) && st.agent_id == old(self).agent_id && st.mode == old(
                self,
            ).mode && st.seq == old(self).seq + 1 && st.timestamp_ms == now_ms
                && st.position_ecef_mm == old(self).position_ecef_mm && st.schema_version
                == SCHEMA_VERSION),
            final(self).seq == old(self).seq + 1,
            final(self).last_report_ms == now_ms,
            final(self).mode == old(self).mode,
            final(self).agent_id == old(self).agent_id,
    {
        let payload: Vec<u8> = self.discovery_buffer.serialize();
        self.discovery_buffer.clear();
        self.seq = self.seq + 1;
        self.last_report_ms = now_ms;
        let state = AgentState {
            agent_id: self.agent_id,
            timestamp_ms: now_ms,
            position_ecef_mm: self.position_ecef_mm,
            velocity_mm_s: self.velocity_mm_s,
            orientation_q30: self.orientation_q30,
            mode: self.mode,
            seq: self.seq,
            schema_version: SCHEMA_VERSION,
        };
        AgentReport {
            agent_id: self.agent_id,
            timestamp_ms: now_ms,
            state: Some(state),
            discovered_point_ids_portable: payload,
        }
    }
}

/// How many ids of a perception result buffer may be read: the counter in
/// the first four bytes, clamped to what the buffer can actually hold.
pub open spec fn spec_clamped_count(b: Seq<u8>) -> int {
    if b.len() < 4 {
        0
    } else {
        let counter = spec_le32_val(b.subrange(0, 4)) as int;
        let capacity = (b.len() - 4) / 4;
        if counter <= capacity {
            counter
        } else {
            capacity
        }
    }
}

/// Reads a perception result buffer: one 32-bit count at offset zero,
/// followed by 32-bit point ids. The read length is clamped to the
/// counter value, never to the buffer capacity alone, so transient
/// over-writes past the counter are ignored.
pub fn extract_discovered(buffer: &[u8]) -> (r: Vec<u32>)
    ensures
        r@.len() == spec_clamped_count(buffer@),
        forall|i: int|
            0 <= i < r@.len() ==> spec_le32(#[trigger] r@[i]) == buffer@.subrange(
                4 + 4 * i,
                8 + 4 * i,
            ),
{
    let blen: usize = buffer.len();
    let mut pos: usize = 0;
    let counter: u32 = match le_u32(buffer, &mut pos) {
        Some(v) => v,
        None => {
            return Vec::new();
        },
    };
    proof {
        crate::wire::lemma_le32_val(counter);
        assert(buffer@.subrange(0, 4) =~= spec_le32(counter));
    }
    let capacity: usize = (blen - 4) / 4;
    let count: usize = if (counter as usize) <= capacity {
        counter as usize
    } else {
        capacity
    };
    let mut out: Vec<u32> = Vec::new();
    let mut i: usize = 0;
    while i < count
        invariant
            blen == buffer@.len(),
            4 <= blen,
            capacity == (blen - 4) / 4,
            count <= capacity,
            count == spec_clamped_count(buffer@),
            i <= count,
            out@.len() == i,
            forall|j: int|
                0 <= j < i ==> spec_le32(#[trigger] out@[j]) == buffer@.subrange(
                    4 + 4 * j,
                    8 + 4 * j,
                ),
        decreases count - i,
    {
        let mut p: usize = 4 + 4 * i;
        let id: u32 = le_u32(buffer, &mut p).unwrap();
        out.push(id);
        i = i + 1;
    }
    out
}

/// Collects extracted ids into a point set.
pub fn ids_to_point_set(ids: &Vec<u32>) -> (r: PointSet)
    ensures
        r.wf(),
        forall|x: u32| r@.contains(x) == ids@.contains(x),
{
    let n: usize = ids.len();
    let mut out: PointSet = PointSet::new();
    let mut i: usize = 0;
    while i < n
        invariant
            n == ids@.len(),
            i <= n,
            out.wf(),
            forall|x: u32| out@.contains(x) == ids@.subrange(0, i as int).contains(x),
        decreases n - i,
    {
        let id: u32 = ids[i];
        out.insert(id);
        proof {
            assert forall|x: u32| out@.contains(x) == ids@.subrange(
                0,
                i + 1,
            ).contains(x) by {
                let pre = ids@.subrange(0, i as int);
                let cur = ids@.subrange(0, i + 1);
                assert(cur.drop_last() =~= pre);
                assert(cur.last() == id);
                if x == id {
                    assert(cur.contains(x)) by {
                        assert(cur[cur.len() - 1] == x);
                    }
                } else {
                    if pre.contains(x) {
                        let k = choose|k: int| 0 <= k < pre.len() && pre[k] == x;
                        assert(cur[k] == x);
                    }
                    if cur.contains(x) {
                        let k = choose|k: int| 0 <= k < cur.len() && cur[k] == x;
                        assert(pre[k] == x);
                    }
                }
            }
        }
        i = i + 1;
    }
    proof {
        assert(ids@.subrange(0, n as int) =~= ids@);
    }
    out
}

} // verus!
