//! The tasking hook: a pure function from canonical state to a task
//! assignment, at most one new task per agent.

use vstd::prelude::*;

use crate::msg::Task;
use crate::state::CanonicalState;

verus! {

/// Analyzes the current world state and allocates new tasks to agents.
/// The default policy assigns no task to anyone; richer policies replace
/// this hook without touching the callers.
pub fn allocate_tasks(_state: &CanonicalState) -> (r: Vec<(u64, Task)>)
    ensures
        r@.len() == 0,
{
    Vec::new()
}

} // verus!
