//! Sparse triplet assembly with exact rational coefficients.
//!
//! The crate offers a coordinate-list accumulator for sparse matrices
//! ([`triplet::SparseTriplet`]), dense containers ([`matrix::Matrix`],
//! [`vector::Vector`]), materialization of the accumulated triples into a
//! dense window, a matrix-vector product that can mirror triangular storage,
//! and an independent check of a candidate solution of a linear system
//! ([`verify::VerifyLinSys`]). Coefficients are exact rationals
//! ([`rational::Rational`]), so duplicate summation and the residual
//! computation are reproducible and carry machine-checked contracts.

pub mod error;
pub mod kernel;
pub mod laws;
pub mod matrix;
pub mod rational;
pub mod triplet;
pub mod vector;
pub mod verify;
