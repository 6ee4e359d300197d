use vstd::prelude::*;

verus! {

/// The predecessor - successor relationship between two tasks.
#[derive(Debug, Clone, Copy, PartialEq, Eq, Structural)]
pub enum TimeRelationship {
    /// The predecessor has to start for the successor to finish.
    StartToFinish,
    /// The predecessor has to finish for the successor to finish.
    FinishToFinish,
    /// The predecessor has to finish for the successor to start.
    FinishToStart,
    /// The predecessor has to start for the successor to start.
    StartToStart,
}

impl Default for TimeRelationship {
    fn default() -> (r: Self)
        ensures
            r == TimeRelationship::FinishToStart,
    {
        TimeRelationship::FinishToStart
    }
}

} // verus!
