use vstd::prelude::*;

verus! {

/// The fatal conditions of a run: each one stops the whole drawing.
#[derive(Debug, Clone, Copy, PartialEq, Eq, Structural)]
pub enum PathError {
    /// A coordinate list does not split into whole pairs or groups.
    MalformedParameters,
    /// A group was closed that had not been opened.
    StackUnderflow,
    /// A subpath was closed under another transform than the one it began with.
    TransformMismatch,
    /// A coordinate left the range of the drawing units.
    Overflow,
}

} // verus!
