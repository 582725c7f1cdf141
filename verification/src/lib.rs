//! Analysis and optimisation core of a tensor-model inference compiler.
//!
//! The crate holds a lattice of partial facts about tensors, a dataflow graph
//! whose edges carry such facts, a rule engine that narrows the facts of one
//! node to a fixed point, and passes that rewrite the graph: the reduction
//! of operators to simpler ones, and constant propagation.

pub mod analyser;
pub mod dim;
pub mod errors;
pub mod model;
pub mod ops;
pub mod optim;
pub mod tensor;
pub mod tfpb;

pub use crate::dim::TDim;
pub use crate::errors::{TractError, TractResult};
pub use crate::tensor::{DatumType, Tensor, ToSharedTensor};
