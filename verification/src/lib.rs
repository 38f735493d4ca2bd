//! Core engine for sovereign identity documents: deterministic identity
//! derivation from key material, the document tree and its invariants,
//! typed path-based mutation, cryptographic proof verification, and a
//! canonical text codec for persistence.

pub mod codec;
pub mod crypto;
pub mod doc;
pub mod errors;
pub mod model;
pub mod mutate;
pub mod parse;
pub mod proofcheck;
pub mod store;
pub mod text;
pub mod validate;
