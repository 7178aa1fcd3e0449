//! A dense two-dimensional matrix engine and a small feed-forward
//! neural-network trainer built on top of it.
//!
//! The matrix engine ([`matrix::Matrix`]) carries exact element-wise and
//! product contracts over a mathematical view of each matrix; the trainer
//! ([`nets::FFNet`]) owns a stack of fully-connected layers and performs
//! mini-batch gradient accumulation whose result is proved independent of
//! how the batch is split into worker chunks.

pub mod numeric;
pub mod matrix;
pub mod nets;
pub mod idx;
pub mod rng;

pub use matrix::Matrix;
