//! Partial knowledge about tensors, and the engine that narrows it.

pub mod laws;
pub mod macros;
pub mod propagate;
pub mod rules;
pub mod solver;
pub mod types;
