//! Conditions under which a task of a job runs, given its upstream tasks.

use vstd::prelude::*;

verus! {

/// When a task runs, given how its upstream tasks ended.
#[derive(Debug, Clone, Copy, PartialEq, Eq, Structural)]
pub enum TaskCondition {
    /// Run only if all upstream tasks succeeded.
    AllSuccess,
    /// Run only if any upstream task failed.
    OnFailure,
    /// Run regardless of upstream status.
    AllDone,
}

} // verus!
