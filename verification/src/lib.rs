//! A small reverse-mode automatic differentiation engine over fixed-point
//! numbers: dense tensors, a tape of recorded operations, and an adaptive
//! moment optimizer.

pub mod data;
pub mod error;
pub mod fixed;
pub mod graph;
pub mod lemmas;
pub mod model;
pub mod numeric;
pub mod optim;
pub mod shape;
pub mod tensor;
pub mod train;
