//! Verified core of a minimal feedforward neural-network trainer.
//!
//! The library covers the parts of the trainer that are exact: splitting the
//! labeled record format into its fields (with an integer fast path for
//! plain decimal data), one-hot encoding,
//! layer-shape planning for a multilayer perceptron, the shape law of the
//! forward pass, partitioning a dataset into mini-batches, the termination
//! decision of the training loop, and classification-mistake counting.
//! The floating-point arithmetic of the engine itself (activations, softmax,
//! gradients) lives with the caller, which drives it through the shapes,
//! batch bounds and decisions this crate proves correct.

pub mod eval;
pub mod mnist;
pub mod network;
pub mod parsing;
pub mod training;
