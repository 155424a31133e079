//! A small feed-forward neural-network engine with verified bookkeeping.
//!
//! The library stores, frames, validates and sequences; it never computes with
//! the numbers inside a matrix. The arithmetic is handed in by the caller as an
//! [`network::Arithmetic`] together with the activation and loss functions.

pub mod dataset;
pub mod error;
pub mod network;
pub mod solver;
