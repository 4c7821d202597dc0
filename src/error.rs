use vstd::prelude::*;

verus! {

/// Why an operation was refused. A refused operation leaves every store unchanged.
#[derive(Clone, Copy, Debug, PartialEq, Eq, Structural)]
pub enum StoreError {
    /// The anonymous identity tried a mutating or identity-scoped operation,
    /// or a caller tried to change a record it does not own.
    Unauthorized,
    /// The referenced entity or relation does not exist.
    NotFound,
    /// The record or relation already exists (or the vote repeats the stored one).
    Conflict,
    /// The target has no room left (a full study group).
    CapacityExceeded,
    /// An amount would not fit in 64 bits.
    Overflow,
}

} // verus!
