//! The orchestrator's canonical state: the agent table, the pending
//! registration table, the global reveal mask, the ticket table and the
//! latest-value snapshot channel.
//!
//! Every operation is a plain function of the state and its inputs; the
//! wall clock and the random ticket source enter only as arguments of the
//! `*_at` / `*_with` variants or through the two trusted wrappers below.

use vstd::prelude::*;

use crate::msg::{
    AgentState, RegisterAgentResponse, WorldState, MAX_REPORT_BYTES, REPORT_INTERVAL_MS,
    SCHEMA_VERSION,
};
use crate::pointset::{spec_wire_parse, ParseError, PointSet};
use crate::tables::{
    assoc_lookup, assoc_unique, lemma_assoc_found, lemma_assoc_no_key, lemma_assoc_none_no_key,
    lemma_assoc_push, lemma_assoc_remove, lemma_assoc_update,
};

verus! {

/// Bound of the ticket table; the oldest entry leaves first.
pub const TICKET_CAP: usize = 1024;

/// An opaque token for one child process; the process itself is owned by
/// the embedding program, which keys it by this value.
#[derive(Clone, Copy, Debug, PartialEq, Eq, Structural)]
pub struct ProcessHandle {
    pub pid: u64,
}

/// A spawned child between spawn and registration.
#[derive(Clone, Copy, Debug, PartialEq, Eq, Structural)]
pub struct SpawnedChild {
    pub handle: ProcessHandle,
    pub spawned_at_ms: i64,
}

/// The runtime record of one registered agent.
#[derive(Clone, Copy, Debug, PartialEq, Eq, Structural)]
pub struct AgentRecord {
    /// Monotonic time of the last report, in milliseconds.
    pub last_seen_ms: i64,
    pub current_state: AgentState,
    pub process: Option<ProcessHandle>,
}

/// An immutable reveal-mask snapshot held by the ticket table: the framed
/// bytes, their decoded cardinality, and the decoded set itself.
pub struct Snapshot {
    pub bytes: Vec<u8>,
    pub count: u64,
    pub set: Ghost<Set<u32>>,
}

/// The stored bytes decode to the stored set, whose size is the stored
/// count.
pub open spec fn snapshot_wf(s: Snapshot) -> bool {
    &&& s.set@.finite()
    &&& s.set@.len() == s.count
    &&& spec_wire_parse(s.bytes@) == Ok::<Set<u32>, ParseError>(s.set@)
}

/// The typed failure of a state lookup.
#[derive(Clone, Copy, Debug, PartialEq, Eq, Structural)]
pub enum StateError {
    /// No pending session, ticket or agent under the given key.
    NotFound,
}

/// Static metadata of the scene's point cloud.
#[derive(Clone, Copy, Debug, PartialEq, Eq, Structural)]
pub struct PointCloudMetadata {
    pub total_points: u64,
}

/// Relies on `uuid::Uuid::new_v4` for a fresh random 128-bit token;
/// nothing is promised of the value.
#[verifier::external_body]
pub(crate) fn fresh_token() -> (r: u128) {
    uuid::Uuid::new_v4().as_u128()
}

/// Relies on `chrono::Utc::now().timestamp_millis()` for the wall clock in
/// milliseconds; nothing is promised of the value.
#[verifier::external_body]
pub(crate) fn wall_clock_ms() -> (r: i64) {
    chrono::Utc::now().timestamp_millis()
}

/// Strictly increasing ids, all below the bound.
pub open spec fn ids_monotone(s: Seq<u64>, bound: u64) -> bool {
    &&& forall|i: int, j: int| 0 <= i < j < s.len() ==> s[i] < s[j]
    &&& forall|i: int| 0 <= i < s.len() ==> #[trigger] s[i] < bound
}

/// A viewer's position on the snapshot channel: the version of the last
/// snapshot it has observed.
#[derive(Clone, Copy, Debug, PartialEq, Eq, Structural)]
pub struct ViewerCursor {
    pub seen_version: u64,
}

/// The single authoritative state of the orchestrator.
pub struct CanonicalState {
    agents: Vec<(u64, AgentRecord)>,
    pending: Vec<(u128, SpawnedChild)>,
    reveal_mask: PointSet,
    pub point_cloud_metadata: PointCloudMetadata,
    tickets: Vec<(u128, Snapshot)>,
    next_agent_id: u64,
    issued: Ghost<Seq<u64>>,
    latest: WorldState,
    version: u64,
}

impl CanonicalState {
    /// The registered agents, most recent last.
    pub closed spec fn agents_seq(&self) -> Seq<(u64, AgentRecord)> {
        self.agents@
    }

    /// The pending registrations, most recent last.
    pub closed spec fn pending_seq(&self) -> Seq<(u128, SpawnedChild)> {
        self.pending@
    }

    /// The ticket table, oldest first.
    pub closed spec fn tickets_seq(&self) -> Seq<(u128, Snapshot)> {
        self.tickets@
    }

    /// The set of revealed point ids.
    pub closed spec fn mask(&self) -> Set<u32> {
        self.reveal_mask@
    }

    /// The id the next registration will be given.
    pub closed spec fn spec_next_agent_id(&self) -> u64 {
        self.next_agent_id
    }

    /// Every agent id issued so far, in order.
    pub closed spec fn issued_ids(&self) -> Seq<u64> {
        self.issued@
    }

    /// The latest broadcast snapshot.
    pub closed spec fn spec_latest(&self) -> WorldState {
        self.latest
    }

    /// The version counter of the snapshot channel.
    pub closed spec fn spec_version(&self) -> u64 {
        self.version
    }

    /// The total point count of the scene.
    pub closed spec fn universe(&self) -> u64 {
        self.point_cloud_metadata.total_points
    }

    /// The core invariant: finite in-bounds mask, tables with distinct
    /// keys, a bounded well-formed ticket table, and strictly increasing
    /// agent ids below the next id.
    pub open spec fn inv_core(&self) -> bool {
        &&& self.mask().finite()
        &&& forall|id: u32| self.mask().contains(id) ==> (id as u64) < self.universe()
        &&& assoc_unique(self.agents_seq())
        &&& assoc_unique(self.pending_seq())
        &&& assoc_unique(self.tickets_seq())
        &&& self.tickets_seq().len() <= TICKET_CAP
        &&& forall|i: int|
            0 <= i < self.tickets_seq().len() ==> snapshot_wf(#[trigger] self.tickets_seq()[i].1)
        &&& forall|i: int|
            0 <= i < self.agents_seq().len() ==> 1 <= (#[trigger] self.agents_seq()[i]).0
                < self.spec_next_agent_id()
        &&& ids_monotone(self.issued_ids(), self.spec_next_agent_id())
        &&& self.spec_next_agent_id() >= 1
        &&& self.spec_version() >= 1
        &&& self.spec_latest().universe_points == self.universe()
        &&& self.spec_latest().schema_version == SCHEMA_VERSION
    }

    /// The latest snapshot's ticket is the newest table entry and its
    /// count matches the snapshot's coverage count.
    pub open spec fn snapshot_consistent(&self) -> bool {
        match self.spec_latest().reveal_mask_ticket {
            Some(t) => self.tickets_seq().len() > 0 && self.tickets_seq().last().0 == t
                && self.tickets_seq().last().1.count == self.spec_latest().revealed_count,
            None => self.spec_latest().revealed_count == 0,
        }
    }

    /// The state invariant.
    pub open spec fn inv(&self) -> bool {
        self.inv_core() && self.snapshot_consistent()
    }

    /// A fresh state over a universe of `total_points` ids: no agents, no
    /// pending sessions, an empty mask, an empty ticket table, and an
    /// initial empty snapshot on the channel.
    pub fn new(total_points: u64) -> (r: CanonicalState)
        ensures
            r.inv(),
            r.agents_seq().len() == 0,
            r.pending_seq().len() == 0,
            r.tickets_seq().len() == 0,
            r.mask() == Set::<u32>::empty(),
            r.universe() == total_points,
            r.spec_next_agent_id() == 1,
            r.issued_ids().len() == 0,
            r.spec_version() == 1,
            r.spec_latest().reveal_mask_ticket is None,
            r.spec_latest().agents@.len() == 0,
            r.spec_latest().revealed_count == 0,
            r.spec_latest().timestamp_ms == 0,
    {
        CanonicalState {
            agents: Vec::new(),
            pending: Vec::new(),
            reveal_mask: PointSet::new(),
            point_cloud_metadata: PointCloudMetadata { total_points },
            tickets: Vec::new(),
            next_agent_id: 1,
            issued: Ghost(Seq::empty()),
            latest: WorldState {
                timestamp_ms: 0,
                agents: Vec::new(),
                reveal_mask_ticket: None,
                revealed_count: 0,
                universe_points: total_points,
                schema_version: SCHEMA_VERSION,
            },
            version: 1,
        }
    }

    /// Number of revealed point ids; with `universe_points` this is the
    /// coverage ratio.
    pub fn revealed_count(&self) -> (r: u64)
        requires
            self.inv(),
        ensures
            r == self.mask().len(),
    {
        self.reveal_mask.len()
    }

    /// The universe size.
    pub fn universe_points(&self) -> (r: u64)
        ensures
            r == self.universe(),
    {
        self.point_cloud_metadata.total_points
    }

    /// Membership in the reveal mask.
    pub fn mask_contains(&self, id: u32) -> (r: bool)
        ensures
            r == self.mask().contains(id),
    {
        self.reveal_mask.contains(id)
    }

    /// The version counter of the snapshot channel.
    pub fn current_version(&self) -> (r: u64)
        ensures
            r == self.spec_version(),
    {
        self.version
    }

    /// The id the next registration will be given.
    pub fn peek_next_agent_id(&self) -> (r: u64)
        ensures
            r == self.spec_next_agent_id(),
    {
        self.next_agent_id
    }

    /// Number of registered agents.
    pub fn agents_len(&self) -> (r: usize)
        ensures
            r == self.agents_seq().len(),
    {
        self.agents.len()
    }

    /// The table entry at one index, for enumeration.
    pub fn agent_entry(&self, i: usize) -> (r: (u64, AgentRecord))
        requires
            i < self.agents_seq().len(),
        ensures
            r == self.agents_seq()[i as int],
    {
        let e: &(u64, AgentRecord) = &self.agents[i];
        (e.0, e.1)
    }

    /// Number of pending registrations.
    pub fn pending_len(&self) -> (r: usize)
        ensures
            r == self.pending_seq().len(),
    {
        self.pending.len()
    }

    /// The pending entry at one index, for enumeration.
    pub fn pending_entry(&self, i: usize) -> (r: (u128, SpawnedChild))
        requires
            i < self.pending_seq().len(),
        ensures
            r == self.pending_seq()[i as int],
    {
        let e: &(u128, SpawnedChild) = &self.pending[i];
        (e.0, e.1)
    }

    /// Drops every agent record at shutdown; the caller has terminated the
    /// processes first.
    pub fn clear_agents(&mut self)
        requires
            old(self).inv(),
        ensures
            final(self).inv(),
            final(self).agents_seq().len() == 0,
            final(self).pending_seq() == old(self).pending_seq(),
            final(self).mask() == old(self).mask(),
            final(self).tickets_seq() == old(self).tickets_seq(),
            final(self).spec_next_agent_id() == old(self).spec_next_agent_id(),
            final(self).issued_ids() == old(self).issued_ids(),
            final(self).spec_latest() == old(self).spec_latest(),
            final(self).spec_version() == old(self).spec_version(),
            final(self).universe() == old(self).universe(),
    {
        self.agents.clear();
    }

    /// Drops every pending registration at shutdown.
    pub fn clear_pending(&mut self)
        requires
            old(self).inv(),
        ensures
            final(self).inv(),
            final(self).pending_seq().len() == 0,
            final(self).agents_seq() == old(self).agents_seq(),
            final(self).mask() == old(self).mask(),
            final(self).tickets_seq() == old(self).tickets_seq(),
            final(self).spec_next_agent_id() == old(self).spec_next_agent_id(),
            final(self).issued_ids() == old(self).issued_ids(),
            final(self).spec_latest() == old(self).spec_latest(),
            final(self).spec_version() == old(self).spec_version(),
            final(self).universe() == old(self).universe(),
    {
        self.pending.clear();
    }

    /// Index of an agent id in the table.
    fn agent_index(&self, agent_id: u64) -> (r: Option<usize>)
        requires
            assoc_unique(self.agents_seq()),
        ensures
            match r {
                Some(i) => i < self.agents_seq().len() && self.agents_seq()[i as int].0
                    == agent_id && assoc_lookup(self.agents_seq(), agent_id) == Some(
                    self.agents_seq()[i as int].1,
                ),
                None => assoc_lookup(self.agents_seq(), agent_id) is None,
            },
    {
        let n: usize = self.agents.len();
        let mut i: usize = 0;
        while i < n
            invariant
                n == self.agents@.len(),
                i <= n,
                assoc_unique(self.agents@),
                forall|j: int| 0 <= j < i ==> (#[trigger] self.agents@[j]).0 != agent_id,
            decreases n - i,
        {
            if self.agents[i].0 == agent_id {
                proof {
                    lemma_assoc_found(self.agents@, agent_id, i as int);
                }
                return Some(i);
            }
            i = i + 1;
        }
        proof {
            lemma_assoc_no_key(self.agents@, agent_id);
        }
        None
    }

    /// Index of a session id in the pending table.
    fn pending_index(&self, session_id: u128) -> (r: Option<usize>)
        requires
            assoc_unique(self.pending_seq()),
        ensures
            match r {
                Some(i) => i < self.pending_seq().len() && self.pending_seq()[i as int].0
                    == session_id && assoc_lookup(self.pending_seq(), session_id) == Some(
                    self.pending_seq()[i as int].1,
                ),
                None => assoc_lookup(self.pending_seq(), session_id) is None,
            },
    {
        let n: usize = self.pending.len();
        let mut i: usize = 0;
        while i < n
            invariant
                n == self.pending@.len(),
                i <= n,
                assoc_unique(self.pending@),
                forall|j: int| 0 <= j < i ==> (#[trigger] self.pending@[j]).0 != session_id,
            decreases n - i,
        {
            if self.pending[i].0 == session_id {
                proof {
                    lemma_assoc_found(self.pending@, session_id, i as int);
                }
                return Some(i);
            }
            i = i + 1;
        }
        proof {
            lemma_assoc_no_key(self.pending@, session_id);
        }
        None
    }

    /// Index of a ticket in the ticket table.
    fn ticket_index(&self, ticket: u128) -> (r: Option<usize>)
        requires
            assoc_unique(self.tickets_seq()),
        ensures
            match r {
                Some(i) => i < self.tickets_seq().len() && self.tickets_seq()[i as int].0
                    == ticket && (assoc_lookup(self.tickets_seq(), ticket) matches Some(s)
                    && s == self.tickets_seq()[i as int].1),
                None => assoc_lookup(self.tickets_seq(), ticket) is None,
            },
    {
        let n: usize = self.tickets.len();
        let mut i: usize = 0;
        while i < n
            invariant
                n == self.tickets@.len(),
                i <= n,
                assoc_unique(self.tickets@),
                forall|j: int| 0 <= j < i ==> (#[trigger] self.tickets@[j]).0 != ticket,
            decreases n - i,
        {
            if self.tickets[i].0 == ticket {
                proof {
                    lemma_assoc_found(self.tickets@, ticket, i as int);
                }
                return Some(i);
            }
            i = i + 1;
        }
        proof {
            lemma_assoc_no_key(self.tickets@, ticket);
        }
        None
    }

    /// Merges a framed point set into the reveal mask and returns how many
    /// ids were new. Empty input merges nothing and succeeds with zero.
    /// Malformed input and ids at or beyond the universe are rejected with
    /// the state unchanged; the mask never shrinks.
    pub fn merge_discovered_points(&mut self, discovered: &[u8]) -> (r: Result<u64, ParseError>)
        requires
            old(self).inv(),
        ensures
            final(self).inv(),
            final(self).agents_seq() == old(self).agents_seq(),
            final(self).pending_seq() == old(self).pending_seq(),
            final(self).tickets_seq() == old(self).tickets_seq(),
            final(self).spec_next_agent_id() == old(self).spec_next_agent_id(),
            final(self).issued_ids() == old(self).issued_ids(),
            final(self).spec_latest() == old(self).spec_latest(),
            final(self).spec_version() == old(self).spec_version(),
            final(self).universe() == old(self).universe(),
            old(self).mask().subset_of(final(self).mask()),
            match r {
                Ok(n) => {
                    &&& if discovered@.len() == 0 {
                        final(self).mask() == old(self).mask()
                    } else {
                        spec_wire_parse(discovered@) matches Ok(s) && final(self).mask() == old(self).mask().union(s) && forall|id: u32|
                            s.contains(id) ==> (id as u64) < old(self).universe()
                    }
                    &&& n + old(self).mask().len() == final(self).mask().len()
                },
                Err(e) => {
                    &&& final(self).mask() == old(self).mask()
                    &&& discovered@.len() > 0
                    &&& match spec_wire_parse(discovered@) {
                        Ok(s) => e == ParseError::IdOutOfUniverse && exists|id: u32|
                            s.contains(id) && (id as u64) >= old(self).universe(),
                        Err(pe) => e == pe,
                    }
                },
            },
    {
        if discovered.len() == 0 {
            return Ok(0);
        }
        let parsed: PointSet = match PointSet::deserialize(discovered) {
            Ok(ps) => ps,
            Err(e) => {
                return Err(e);
            },
        };
        match parsed.max_id() {
            Some(m) => {
                if m as u64 >= self.point_cloud_metadata.total_points {
                    proof {
                        assert(parsed@.contains(m) && (m as u64) >= old(self).universe());
                        assert(exists|id: u32|
                            parsed@.contains(id) && (id as u64) >= old(self).universe());
                        assert(spec_wire_parse(discovered@) matches Ok(s) && s == parsed@);
                    }
                    return Err(ParseError::IdOutOfUniverse);
                }
            },
            None => {},
        }
        let before: u64 = self.reveal_mask.len();
        self.reveal_mask.union_in_place(&parsed);
        let after: u64 = self.reveal_mask.len();
        proof {
            vstd::set_lib::lemma_len_subset(old(self).mask(), self.mask());
            assert forall|id: u32| self.mask().contains(id) implies (id as u64)
                < self.universe() by {
                if !old(self).mask().contains(id) {
                    assert(parsed@.contains(id));
                }
            }
        }
        Ok(after - before)
    }

    /// Captures a snapshot of the reveal mask under the ticket `raw`,
    /// appends it as the newest table entry, and evicts the oldest entry
    /// when the table is full. Leaves the broadcast side untouched, so the
    /// caller must publish a snapshot before the state is handed on.
    fn mint_ticket(&mut self, raw: u128)
        requires
            old(self).inv_core(),
        ensures
            final(self).inv_core(),
            final(self).agents_seq() == old(self).agents_seq(),
            final(self).pending_seq() == old(self).pending_seq(),
            final(self).mask() == old(self).mask(),
            final(self).spec_next_agent_id() == old(self).spec_next_agent_id(),
            final(self).issued_ids() == old(self).issued_ids(),
            final(self).spec_latest() == old(self).spec_latest(),
            final(self).spec_version() == old(self).spec_version(),
            final(self).universe() == old(self).universe(),
            final(self).tickets_seq().len() > 0,
            final(self).tickets_seq().last().0 == raw,
            final(self).tickets_seq().last().1.set@ == old(self).mask(),
            final(self).tickets_seq().last().1.count == old(self).mask().len(),
            assoc_lookup(final(self).tickets_seq(), raw) == Some(final(self).tickets_seq().last().1),
            forall|t: u128|
                t != raw && assoc_lookup(final(self).tickets_seq(), t) is Some ==> assoc_lookup(
                    final(self).tickets_seq(),
                    t,
                ) == assoc_lookup(old(self).tickets_seq(), t),
            (assoc_lookup(old(self).tickets_seq(), raw) is Some || old(self).tickets_seq().len()
                < TICKET_CAP) ==> forall|t: u128|
                t != raw ==> assoc_lookup(final(self).tickets_seq(), t) == assoc_lookup(
                    old(self).tickets_seq(),
                    t,
                ),
            (assoc_lookup(old(self).tickets_seq(), raw) is None && old(self).tickets_seq().len()
                == TICKET_CAP) ==> (forall|t: u128|
                t != raw && t != old(self).tickets_seq()[0].0 ==> assoc_lookup(
                    final(self).tickets_seq(),
                    t,
                ) == assoc_lookup(old(self).tickets_seq(), t)) && assoc_lookup(
                final(self).tickets_seq(),
                old(self).tickets_seq()[0].0,
            ) is None,
    {
        match self.ticket_index(raw) {
            Some(i) => {
                proof {
                    lemma_assoc_remove(self.tickets@, i as int);
                }
                self.tickets.remove(i);
            },
            None => {
                if self.tickets.len() == TICKET_CAP {
                    proof {
                        lemma_assoc_remove(self.tickets@, 0);
                        lemma_assoc_none_no_key(self.tickets@, raw);
                    }
                    self.tickets.remove(0);
                }
            },
        }
        let bytes: Vec<u8> = self.reveal_mask.serialize();
        let count: u64 = self.reveal_mask.len();
        let snap = Snapshot { bytes, count, set: Ghost(self.mask()) };
        proof {
            lemma_assoc_push(self.tickets@, raw, snap);
        }
        self.tickets.push((raw, snap));
    }

    /// Read-only ticket lookup: the snapshot minted under the ticket, or
    /// nothing once it was evicted or never existed. The returned bytes
    /// are the stored ones; nothing is re-serialized, so repeated lookups
    /// of a live ticket always see the same bytes.
    pub fn lookup_ticket(&self, ticket: u128) -> (r: Option<&Snapshot>)
        requires
            self.inv(),
        ensures
            match r {
                Some(s) => (assoc_lookup(self.tickets_seq(), ticket) matches Some(e) && e == *s)
                    && snapshot_wf(*s),
                None => assoc_lookup(self.tickets_seq(), ticket) is None,
            },
    {
        match self.ticket_index(ticket) {
            Some(i) => Some(&self.tickets[i].1),
            None => None,
        }
    }

    /// The reported states of all registered agents, in table order.
    fn snapshot_agent_states(&self) -> (r: Vec<AgentState>)
        ensures
            r@.len() == self.agents_seq().len(),
            forall|i: int|
                0 <= i < r@.len() ==> r@[i] == self.agents_seq()[i].1.current_state,
    {
        let n: usize = self.agents.len();
        let mut out: Vec<AgentState> = Vec::new();
        let mut i: usize = 0;
        while i < n
            invariant
                n == self.agents@.len(),
                i <= n,
                out@.len() == i,
                forall|j: int| 0 <= j < i ==> out@[j] == self.agents@[j].1.current_state,
            decreases n - i,
        {
            out.push(self.agents[i].1.current_state);
            i = i + 1;
        }
        out
    }

    /// Builds a snapshot of the current state at time `now_ms`, mints the
    /// ticket `raw` for the current mask, and publishes the snapshot as the
    /// latest value of the broadcast channel. The published coverage count
    /// equals the stored snapshot's cardinality, so the snapshot's ticket
    /// resolves to a set of exactly that size.
    pub fn broadcast_at(&mut self, now_ms: i64, raw: u128)
        requires
            old(self).inv_core(),
            old(self).spec_version() < u64::MAX,
        ensures
            final(self).inv(),
            final(self).agents_seq() == old(self).agents_seq(),
            final(self).pending_seq() == old(self).pending_seq(),
            final(self).mask() == old(self).mask(),
            final(self).spec_next_agent_id() == old(self).spec_next_agent_id(),
            final(self).issued_ids() == old(self).issued_ids(),
            final(self).universe() == old(self).universe(),
            final(self).spec_version() == old(self).spec_version() + 1,
            final(self).spec_latest().timestamp_ms == now_ms,
            final(self).spec_latest().reveal_mask_ticket == Some(raw),
            final(self).spec_latest().revealed_count == old(self).mask().len(),
            final(self).spec_latest().universe_points == old(self).universe(),
            final(self).spec_latest().schema_version == SCHEMA_VERSION,
            final(self).spec_latest().agents@.len() == old(self).agents_seq().len(),
            forall|i: int|
                0 <= i < old(self).agents_seq().len() ==> final(self).spec_latest().agents@[i]
                    == old(self).agents_seq()[i].1.current_state,
            (assoc_lookup(final(self).tickets_seq(), raw) matches Some(s) && s.set@ == old(self).mask() && s.count == old(self).mask().len() && snapshot_wf(s)),
            forall|t: u128|
                t != raw && assoc_lookup(final(self).tickets_seq(), t) is Some ==> assoc_lookup(
                    final(self).tickets_seq(),
                    t,
                ) == assoc_lookup(old(self).tickets_seq(), t),
            (assoc_lookup(old(self).tickets_seq(), raw) is Some || old(self).tickets_seq().len()
                < TICKET_CAP) ==> forall|t: u128|
                t != raw ==> assoc_lookup(final(self).tickets_seq(), t) == assoc_lookup(
                    old(self).tickets_seq(),
                    t,
                ),
    {
        let states: Vec<AgentState> = self.snapshot_agent_states();
        let count: u64 = self.reveal_mask.len();
        self.mint_ticket(raw);
        self.latest = WorldState {
            timestamp_ms: now_ms,
            agents: states,
            reveal_mask_ticket: Some(raw),
            revealed_count: count,
            universe_points: self.point_cloud_metadata.total_points,
            schema_version: SCHEMA_VERSION,
        };
        self.version = self.version + 1;
    }

    /// Publishes a snapshot stamped with the wall clock under a fresh
    /// random ticket.
    pub fn broadcast_world_state(&mut self)
        requires
            old(self).inv_core(),
            old(self).spec_version() < u64::MAX,
        ensures
            final(self).inv(),
            final(self).agents_seq() == old(self).agents_seq(),
            final(self).pending_seq() == old(self).pending_seq(),
            final(self).mask() == old(self).mask(),
            final(self).spec_next_agent_id() == old(self).spec_next_agent_id(),
            final(self).issued_ids() == old(self).issued_ids(),
            final(self).universe() == old(self).universe(),
            final(self).spec_version() == old(self).spec_version() + 1,
            final(self).spec_latest().revealed_count == old(self).mask().len(),
            final(self).spec_latest().universe_points == old(self).universe(),
            final(self).spec_latest().agents@.len() == old(self).agents_seq().len(),
            forall|i: int|
                0 <= i < old(self).agents_seq().len() ==> final(self).spec_latest().agents@[i]
                    == old(self).agents_seq()[i].1.current_state,
            (final(self).spec_latest().reveal_mask_ticket matches Some(t) && (assoc_lookup(
                final(self).tickets_seq(),
                t,
            ) matches Some(s) && s.set@ == old(self).mask() && s.count == old(self).mask().len())),
            // every other live ticket keeps its snapshot, and while the
            // table is not full none is evicted at all
            match final(self).spec_latest().reveal_mask_ticket {
                Some(tk) => (forall|t: u128|
                    t != tk && assoc_lookup(final(self).tickets_seq(), t) is Some
                        ==> assoc_lookup(final(self).tickets_seq(), t) == assoc_lookup(
                        old(self).tickets_seq(),
                        t,
                    )) && (old(self).tickets_seq().len() < TICKET_CAP ==> forall|t: u128|
                    t != tk ==> assoc_lookup(final(self).tickets_seq(), t) == assoc_lookup(
                        old(self).tickets_seq(),
                        t,
                    )),
                None => true,
            },
    {
        let now_ms: i64 = wall_clock_ms();
        let raw: u128 = fresh_token();
        self.broadcast_at(now_ms, raw);
    }

    /// A viewer's entry point to the snapshot channel. With
    /// `include_initial` the next poll returns the current snapshot at
    /// once; without it, only a snapshot newer than the current one.
    pub fn subscribe_world_state(&self, include_initial: bool) -> (r: ViewerCursor)
        requires
            self.inv(),
        ensures
            include_initial ==> r.seen_version < self.spec_version(),
            !include_initial ==> r.seen_version == self.spec_version(),
    {
        if include_initial {
            ViewerCursor { seen_version: self.version - 1 }
        } else {
            ViewerCursor { seen_version: self.version }
        }
    }

    /// One poll of the snapshot channel: returns the latest snapshot
    /// exactly when it is newer than what the viewer has seen, and moves
    /// the cursor to the current version. Intermediate snapshots coalesce:
    /// a poll never observes anything but the latest value, and no queue
    /// exists to build up.
    pub fn poll_world_state(&self, cursor: &mut ViewerCursor) -> (r: Option<&WorldState>)
        ensures
            match r {
                Some(w) => old(cursor).seen_version < self.spec_version() && *w
                    == self.spec_latest() && final(cursor).seen_version == self.spec_version(),
                None => old(cursor).seen_version >= self.spec_version() && *final(cursor) == *old(cursor),
            },
    {
        if cursor.seen_version < self.version {
            cursor.seen_version = self.version;
            Some(&self.latest)
        } else {
            None
        }
    }

    /// Second phase of the two-phase registration: atomically consumes the
    /// pending entry under `session_id`, moves its process handle into a
    /// fresh agent record, and issues the next agent id. Succeeds exactly
    /// when a pending entry exists; a competing registration of the same
    /// session therefore finds nothing and is refused.
    pub fn register_agent(&mut self, session_id: u128, now_ms: i64) -> (r: Result<
        RegisterAgentResponse,
        StateError,
    >)
        requires
            old(self).inv(),
            old(self).spec_next_agent_id() < u64::MAX,
        ensures
            final(self).inv(),
            final(self).mask() == old(self).mask(),
            final(self).tickets_seq() == old(self).tickets_seq(),
            final(self).spec_latest() == old(self).spec_latest(),
            final(self).spec_version() == old(self).spec_version(),
            final(self).universe() == old(self).universe(),
            match r {
                Ok(resp) => {
                    &&& (assoc_lookup(old(self).pending_seq(), session_id) matches Some(child)
                        && (assoc_lookup(final(self).agents_seq(), resp.agent_id) matches Some(
                        rec,
                    ) && rec.process == Some(child.handle) && rec.last_seen_ms == now_ms
                        && rec.current_state == AgentState::spec_initial(resp.agent_id)))
                    &&& assoc_lookup(final(self).pending_seq(), session_id) is None
                    &&& forall|s2: u128|
                        s2 != session_id ==> assoc_lookup(final(self).pending_seq(), s2)
                            == assoc_lookup(old(self).pending_seq(), s2)
                    &&& forall|a: u64|
                        a != resp.agent_id ==> assoc_lookup(final(self).agents_seq(), a)
                            == assoc_lookup(old(self).agents_seq(), a)
                    &&& resp.agent_id == old(self).spec_next_agent_id()
                    &&& final(self).spec_next_agent_id() == old(self).spec_next_agent_id() + 1
                    &&& final(self).issued_ids() == old(self).issued_ids().push(resp.agent_id)
                    &&& forall|i: int|
                        0 <= i < old(self).issued_ids().len() ==> old(self).issued_ids()[i]
                            < resp.agent_id
                    &&& resp.server_time_ms == now_ms
                    &&& resp.report_interval_ms == REPORT_INTERVAL_MS
                    &&& resp.max_report_bytes == MAX_REPORT_BYTES
                    &&& resp.schema_version == SCHEMA_VERSION
                },
                Err(e) => {
                    &&& e == StateError::NotFound
                    &&& assoc_lookup(old(self).pending_seq(), session_id) is None
                    &&& final(self).agents_seq() == old(self).agents_seq()
                    &&& final(self).pending_seq() == old(self).pending_seq()
                    &&& final(self).spec_next_agent_id() == old(self).spec_next_agent_id()
                    &&& final(self).issued_ids() == old(self).issued_ids()
                },
            },
    {
        let i: usize = match self.pending_index(session_id) {
            Some(i) => i,
            None => {
                return Err(StateError::NotFound);
            },
        };
        let child: SpawnedChild = self.pending[i].1;
        proof {
            lemma_assoc_remove(self.pending@, i as int);
        }
        self.pending.remove(i);
        let agent_id: u64 = self.next_agent_id;
        self.next_agent_id = self.next_agent_id + 1;
        let rec = AgentRecord {
            last_seen_ms: now_ms,
            current_state: AgentState::initial(agent_id),
            process: Some(child.handle),
        };
        proof {
            assert(forall|j: int|
                0 <= j < self.agents@.len() ==> (#[trigger] self.agents@[j]).0 != agent_id);
            lemma_assoc_no_key(self.agents@, agent_id);
            lemma_assoc_push(self.agents@, agent_id, rec);
        }
        self.agents.push((agent_id, rec));
        proof {
            self.issued@ = old(self).issued_ids().push(agent_id);
        }
        Ok(RegisterAgentResponse {
            agent_id,
            server_time_ms: now_ms,
            report_interval_ms: REPORT_INTERVAL_MS,
            max_report_bytes: MAX_REPORT_BYTES,
            schema_version: SCHEMA_VERSION,
        })
    }

    /// Records a spawned child under its one-time session id. Refused when
    /// the session id is already pending.
    pub fn add_pending_registration(&mut self, session_id: u128, child: SpawnedChild) -> (r: bool)
        requires
            old(self).inv(),
        ensures
            final(self).inv(),
            final(self).agents_seq() == old(self).agents_seq(),
            final(self).mask() == old(self).mask(),
            final(self).tickets_seq() == old(self).tickets_seq(),
            final(self).spec_next_agent_id() == old(self).spec_next_agent_id(),
            final(self).issued_ids() == old(self).issued_ids(),
            final(self).spec_latest() == old(self).spec_latest(),
            final(self).spec_version() == old(self).spec_version(),
            final(self).universe() == old(self).universe(),
            r == (assoc_lookup(old(self).pending_seq(), session_id) is None),
            r ==> assoc_lookup(final(self).pending_seq(), session_id) == Some(child) && forall|
                s2: u128,
            |
                s2 != session_id ==> assoc_lookup(final(self).pending_seq(), s2) == assoc_lookup(
                    old(self).pending_seq(),
                    s2,
                ),
            !r ==> final(self).pending_seq() == old(self).pending_seq(),
    {
        match self.pending_index(session_id) {
            Some(_) => false,
            None => {
                proof {
                    lemma_assoc_push(self.pending@, session_id, child);
                }
                self.pending.push((session_id, child));
                true
            },
        }
    }

    /// Removes a pending entry, returning the stored child so the caller
    /// can terminate it.
    pub fn remove_pending_registration(&mut self, session_id: u128) -> (r: Option<SpawnedChild>)
        requires
            old(self).inv(),
        ensures
            final(self).inv(),
            final(self).agents_seq() == old(self).agents_seq(),
            final(self).mask() == old(self).mask(),
            final(self).tickets_seq() == old(self).tickets_seq(),
            final(self).spec_next_agent_id() == old(self).spec_next_agent_id(),
            final(self).issued_ids() == old(self).issued_ids(),
            final(self).spec_latest() == old(self).spec_latest(),
            final(self).spec_version() == old(self).spec_version(),
            final(self).universe() == old(self).universe(),
            r == assoc_lookup(old(self).pending_seq(), session_id),
            r is Some ==> final(self).pending_seq().len() + 1 == old(self).pending_seq().len(),
            r is None ==> final(self).pending_seq() == old(self).pending_seq(),
            assoc_lookup(final(self).pending_seq(), session_id) is None,
            forall|s2: u128|
                s2 != session_id ==> assoc_lookup(final(self).pending_seq(), s2) == assoc_lookup(
                    old(self).pending_seq(),
                    s2,
                ),
    {
        match self.pending_index(session_id) {
            Some(i) => {
                let child: SpawnedChild = self.pending[i].1;
                proof {
                    lemma_assoc_remove(self.pending@, i as int);
                }
                self.pending.remove(i);
                Some(child)
            },
            None => None,
        }
    }

    /// In-place update of a known agent's reported state; the process
    /// handle is preserved and `last_seen` advances to `now_ms`. A report
    /// for an unknown agent is dropped: no record is ever created here.
    pub fn update_agent_state(&mut self, agent_id: u64, state: AgentState, now_ms: i64) -> (r:
        bool)
        requires
            old(self).inv(),
        ensures
            final(self).inv(),
            final(self).pending_seq() == old(self).pending_seq(),
            final(self).mask() == old(self).mask(),
            final(self).tickets_seq() == old(self).tickets_seq(),
            final(self).spec_next_agent_id() == old(self).spec_next_agent_id(),
            final(self).issued_ids() == old(self).issued_ids(),
            final(self).spec_latest() == old(self).spec_latest(),
            final(self).spec_version() == old(self).spec_version(),
            final(self).universe() == old(self).universe(),
            r == (assoc_lookup(old(self).agents_seq(), agent_id) is Some),
            r ==> (assoc_lookup(old(self).agents_seq(), agent_id) matches Some(prev)
                && assoc_lookup(final(self).agents_seq(), agent_id) == Some(
                AgentRecord {
                    last_seen_ms: now_ms,
                    current_state: state,
                    process: prev.process,
                },
            )) && (forall|a: u64|
                a != agent_id ==> assoc_lookup(final(self).agents_seq(), a) == assoc_lookup(
                    old(self).agents_seq(),
                    a,
                )) && final(self).agents_seq().len() == old(self).agents_seq().len(),
            !r ==> final(self).agents_seq() == old(self).agents_seq(),
    {
        match self.agent_index(agent_id) {
            Some(i) => {
                let prev: AgentRecord = self.agents[i].1;
                let rec = AgentRecord {
                    last_seen_ms: now_ms,
                    current_state: state,
                    process: prev.process,
                };
                proof {
                    lemma_assoc_update(self.agents@, i as int, rec);
                    assert(forall|a: int|
                        0 <= a < self.agents@.len() && a != i ==> self.agents@.update(
                            i as int,
                            (agent_id, rec),
                        )[a] == self.agents@[a]);
                }
                self.agents.set(i, (agent_id, rec));
                true
            },
            None => false,
        }
    }

    /// Removes an agent's runtime record, returning it so the caller can
    /// reap the process.
    pub fn remove_agent(&mut self, agent_id: u64) -> (r: Option<AgentRecord>)
        requires
            old(self).inv(),
        ensures
            final(self).inv(),
            final(self).pending_seq() == old(self).pending_seq(),
            final(self).mask() == old(self).mask(),
            final(self).tickets_seq() == old(self).tickets_seq(),
            final(self).spec_next_agent_id() == old(self).spec_next_agent_id(),
            final(self).issued_ids() == old(self).issued_ids(),
            final(self).spec_latest() == old(self).spec_latest(),
            final(self).spec_version() == old(self).spec_version(),
            final(self).universe() == old(self).universe(),
            r == assoc_lookup(old(self).agents_seq(), agent_id),
            r is Some ==> final(self).agents_seq().len() + 1 == old(self).agents_seq().len(),
            r is None ==> final(self).agents_seq() == old(self).agents_seq(),
            assoc_lookup(final(self).agents_seq(), agent_id) is None,
            forall|a: u64|
                a != agent_id ==> assoc_lookup(final(self).agents_seq(), a) == assoc_lookup(
                    old(self).agents_seq(),
                    a,
                ),
    {
        match self.agent_index(agent_id) {
            Some(i) => {
                let rec: AgentRecord = self.agents[i].1;
                proof {
                    lemma_assoc_remove(self.agents@, i as int);
                }
                self.agents.remove(i);
                Some(rec)
            },
            None => None,
        }
    }

    /// Clears the reveal mask, invalidates every ticket, and publishes a
    /// fresh snapshot of the emptied state under the ticket `raw`. Every
    /// previously minted ticket afterwards resolves to nothing.
    pub fn reset_simulation_at(&mut self, now_ms: i64, raw: u128)
        requires
            old(self).inv(),
            old(self).spec_version() < u64::MAX,
        ensures
            final(self).inv(),
            final(self).mask() == Set::<u32>::empty(),
            final(self).agents_seq() == old(self).agents_seq(),
            final(self).pending_seq() == old(self).pending_seq(),
            final(self).spec_next_agent_id() == old(self).spec_next_agent_id(),
            final(self).issued_ids() == old(self).issued_ids(),
            final(self).universe() == old(self).universe(),
            final(self).spec_version() == old(self).spec_version() + 1,
            forall|t: u128| t != raw ==> assoc_lookup(final(self).tickets_seq(), t) is None,
            (assoc_lookup(final(self).tickets_seq(), raw) matches Some(s) && s.set@ == Set::<
                u32,
            >::empty() && s.count == 0),
            final(self).spec_latest().reveal_mask_ticket == Some(raw),
            final(self).spec_latest().revealed_count == 0,
            final(self).spec_latest().timestamp_ms == now_ms,
    {
        self.reveal_mask.clear();
        self.tickets.clear();
        self.broadcast_at(now_ms, raw);
        proof {
            assert forall|t: u128| t != raw implies assoc_lookup(
                self.tickets_seq(),
                t,
            ) is None by {
                assert(assoc_lookup(Seq::<(u128, Snapshot)>::empty(), t) is None);
            }
        }
    }
}

/// Agent-id monotonicity: across a run the issued ids are strictly
/// increasing, so no id is ever reused.
pub proof fn lemma_agent_ids_monotone(s: CanonicalState)
    requires
        s.inv(),
    ensures
        forall|i: int, j: int|
            0 <= i < j < s.issued_ids().len() ==> s.issued_ids()[i] < s.issued_ids()[j],
{
}

} // verus!
