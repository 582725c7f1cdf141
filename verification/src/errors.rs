//! Error kinds shared by the lattice, the graph, the operators and the passes.

use vstd::prelude::*;

verus! {

/// Why an operation of this crate failed.
#[derive(Clone, Copy, Debug, PartialEq, Eq, Structural)]
pub enum TractError {
    /// Two exact element types differ.
    TypeMismatch,
    /// Two shapes, ranks or dimensions cannot both hold, or a tensor cannot
    /// take the shape asked of it.
    ShapeMismatch,
    /// The rules of a node narrowed one fact to two different exact values.
    ContradictoryFact,
    /// An operator was given the wrong number of inputs or outputs.
    ArityMismatch,
    /// The operator knows the request but does not support this combination of
    /// parameters.
    UnimplementedVariant,
    /// An edge names a node or a slot that the graph does not have, or an
    /// inlet is left without a source.
    DanglingEdge,
    /// An edge was added to an inlet that already has a source.
    DuplicateInlet,
    /// A node depends on itself, directly or through other nodes.
    CyclicGraph,
    /// A node definition lacks an attribute that the operator needs.
    MissingAttribute,
}

pub type TractResult<T> = Result<T, TractError>;

/// An error together with the node at which it was found.
#[derive(Clone, Copy, Debug, PartialEq, Eq, Structural)]
pub struct NodeError {
    pub node: usize,
    pub kind: TractError,
}

} // verus!
