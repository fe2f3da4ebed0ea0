use vstd::prelude::*;

verus! {

/// Why a query failed. An absent record is not represented here: a point
/// lookup reports "not found" through `Option`, as a normal outcome.
#[derive(Clone, Copy, Debug, PartialEq, Eq, Structural)]
pub enum QueryError {
    /// The caller asked for a range whose low end exceeds its high end; the
    /// request is rejected before any scan.
    InvalidRange,
    /// The storage backend could not be reached. The in-memory store never
    /// produces it; a caller that fronts this library with a remote backend
    /// maps that backend's failures to this variant.
    Unavailable,
}

impl QueryError {
    /// A stable, user-visible description of the error kind.
    pub fn message(&self) -> (r: &'static str)
        ensures
            *self == QueryError::InvalidRange ==> r@ == "Invalid range: start_id is greater than end_id"@,
            *self == QueryError::Unavailable ==> r@ == "Internal Server Error"@,
    {
        match self {
            QueryError::InvalidRange => "Invalid range: start_id is greater than end_id",
            QueryError::Unavailable => "Internal Server Error",
        }
    }
}

} // verus!
