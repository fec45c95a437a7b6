use vstd::prelude::*;

verus! {

/// The faults a container operation can report through its fallible variants.
///
/// The eager operations state the same conditions as preconditions instead;
/// the fallible variants exist for callers that want a recoverable result.
#[derive(Clone, Copy, Debug, PartialEq, Eq, Structural)]
pub enum ArrayVecError {
    /// An operation would have raised the length above the fixed capacity.
    CapacityExceeded,
    /// An index or a range endpoint lay outside the live region.
    IndexOutOfBounds,
    /// A range whose start lay beyond its end.
    InvalidRange,
}

} // verus!
