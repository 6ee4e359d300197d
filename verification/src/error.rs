//! The errors of the planning operations.

use vstd::prelude::*;

verus! {

/// Why an operation on tasks, on their relationships or on a schedule was
/// refused. A refused operation changes nothing.
#[derive(Debug, Clone, Copy, PartialEq, Eq, Structural)]
pub enum PlanError {
    /// A task handle was never issued or belongs to a task that was removed.
    HandleNotFound,
    /// No relationship joins the two tasks in the given direction.
    EdgeNotFound,
    /// The requested relationships would close a cycle.
    CycleDetected,
    /// An internal rule would be broken: a derived instant or duration does
    /// not fit in its type, or a change that was checked beforehand failed.
    InvariantViolation,
}

impl PlanError {
    /// A sentence that says what went wrong.
    pub fn message(&self) -> (r: &'static str)
        ensures
            r@ == match self {
                PlanError::HandleNotFound => "task handle not found"@,
                PlanError::EdgeNotFound => "relationship not found"@,
                PlanError::CycleDetected => "the relationship would close a cycle"@,
                PlanError::InvariantViolation => "internal invariant violated"@,
            },
    {
        match self {
            PlanError::HandleNotFound => "task handle not found",
            PlanError::EdgeNotFound => "relationship not found",
            PlanError::CycleDetected => "the relationship would close a cycle",
            PlanError::InvariantViolation => "internal invariant violated",
        }
    }
}

} // verus!
