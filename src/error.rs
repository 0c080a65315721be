use vstd::prelude::*;

verus! {

/// Why a conversion step or a decode stopped.
#[derive(Clone, Copy, Debug, PartialEq, Eq, Structural)]
pub enum ConvertError {
    /// A face refers to an attribute that was never declared, or the input
    /// is not laid out as its format requires.
    MalformedInput,
    /// The version field of an encoded artifact is not the expected one.
    VersionMismatch,
    /// A mesh object needs more than 65536 attributes, vertices or faces.
    CapacityExceeded,
}

} // verus!
