//! Conditions on the runs of another job that a job depends on.

use vstd::prelude::*;
use std::time::Duration;

verus! {

/// What a dependency on another job asks of that job's runs.
#[derive(Debug, PartialEq, Eq)]
pub enum DependencyCondition {
    /// The last run must have succeeded.
    LastSuccess,
    /// The last run must have completed (success or failure).
    LastComplete,
    /// A run must have succeeded within the given time window.
    WithinWindow(Duration),
}

} // verus!
