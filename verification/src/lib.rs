//! A small dense feed-forward neural network with sigmoid activation,
//! trained by batch gradient descent, over any scalar type that supplies
//! the arithmetic.

pub mod error;
pub mod scalar;
pub mod matrix;
pub mod array_utils;
pub mod neural_network;
