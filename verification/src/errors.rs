//! The run's fatal error conditions.  Every failure is a
//! configuration or data defect, never a transient condition, so
//! there is no retry anywhere: callers abort the run.

use vstd::prelude::*;

verus! {

/// Why a run must stop.
#[derive(Clone, Copy, Debug, PartialEq, Eq, Structural)]
pub enum RunError {
    /// A clause is not of the shape `code:ticker:param` with a
    /// parameter that fits an `i32`.
    BadClause,
    /// A clause names an indicator code the library does not have.
    UnknownIndicator,
    /// A clause names a ticker with no bar history in the supplied
    /// price repository.
    MissingTicker,
    /// Ranking left no survivors to breed the next generation from.
    EmptyPopulation,
}

} // verus!
