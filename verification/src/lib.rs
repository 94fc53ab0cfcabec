//! Noise-variance propagation for circuits over encrypted values that are
//! compiled to several sets of cryptographic parameters ("partitions").
//!
//! The variance carried by every operator is kept symbolic: a combination,
//! with non-negative integer coefficients, of the basic noise sources of each
//! partition. A later numeric stage turns these coefficients into parameters.

pub mod analyze;
pub mod config;
pub mod consistency;
pub mod error;
pub mod laws;
pub mod operator;
pub mod partitionning;
pub mod partitions;
pub mod precision_cut;
pub mod round;
pub mod symbolic_variance;
pub mod unparametrized;
