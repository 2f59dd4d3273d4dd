//! Curve points for signature and key-agreement algorithms, on top of an
//! accelerator that adds and doubles points but is defined on part of the
//! inputs only: it cannot add a point to itself, to its inverse or to the
//! identity. This crate builds the total group operation on it, with
//! negation, scalar multiplication, the two-term linear combination and the
//! compressed encoding, and proves them against a model of the curve's
//! group.
//!
//! - `point`: a point as the identity or sixteen words, with comparison and
//!   selection in constant time.
//! - `convert`: scalars and coordinates between big-endian bytes,
//!   little-endian words and little-endian bits.
//! - `model`: the group of a curve of odd prime order as the contracts see
//!   it, and the laws that follow.
//! - `curve`: the accelerated operations and the field operations that a
//!   curve brings.
//! - `group`, `scalar`, `encoding`: the arithmetic.
//! - `ecdsa`, `secp256k1`, `bn254`: the point types of the curves.
//! - `affine`, `projective`: the point types of the group algebra.
//! - `tiny`: a curve of seven points with its arithmetic in software.

pub mod affine;
pub mod bn254;
pub mod convert;
mod ct;
pub mod curve;
pub mod ecdsa;
pub mod encoding;
pub mod group;
pub mod model;
pub mod point;
pub mod projective;
pub mod scalar;
pub mod secp256k1;
pub mod tiny;
