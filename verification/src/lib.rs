//! Powers-of-tau ceremony core: parameter updates, Fiat-Shamir proofs of
//! correct exponentiation, and the batched pairing verification, built over
//! the BN254 pairing library and verified against a discrete-log model of
//! the curve groups.
//!
//! `field` holds the scalar-field arithmetic the contracts are written in;
//! `curve` the trusted bindings to the pairing library and the model that
//! assigns each point a discrete logarithm; `codec` the byte encodings the
//! external verifying contract fixes; `protocol` the update and
//! verification procedures with the lemmas that relate them.

pub mod codec;
pub mod curve;
pub mod field;
pub mod protocol;
