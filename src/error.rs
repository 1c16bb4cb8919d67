use vstd::prelude::*;

verus! {

/// The errors the library reports.
#[derive(Clone, Copy, Debug, PartialEq, Eq, Structural)]
pub enum NetError {
    /// A persisted model is malformed or truncated.
    Deserialization,
    /// A batch or an error signal does not have the shape the layer expects.
    DimensionMismatch,
    /// `backward` was asked for without a matching `forward` before it.
    MissingForward,
    /// A request needs a model and none is held.
    NoModel,
}

} // verus!
