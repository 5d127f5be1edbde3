use vstd::prelude::*;

verus! {

/// The error taxonomy of the graph layer.
///
/// Every fallible operation reports one of these kinds; none of the verified
/// operations panics on any input its contract admits.
#[derive(Clone, Copy, Debug, PartialEq, Eq, Structural)]
pub enum GraphError {
    /// Memory for a graph, an array or a result could not be obtained.
    /// Unlike the other kinds this one is not recoverable: the caller should
    /// propagate it upward immediately.
    AllocationFailure,
    /// A caller-supplied value lies outside the accepted domain: a vertex id
    /// out of range, an edge count that no graph of the requested shape can
    /// carry, or a count that does not fit the engine's signed 64-bit ids.
    InvalidParameter,
    /// A positional array access lies outside `[0, length)`. Checked at this
    /// layer, before any memory is touched.
    IndexOutOfRange,
    /// A diagnostic code that fits none of the kinds above, carried through
    /// unchanged for the caller.
    EngineInternalFailure(i64),
}

} // verus!
