//! Registry of setup parameters for composite zero-knowledge proofs: a closed,
//! tagged set of parameter kinds with a canonical byte encoding.
pub mod element;
pub mod layout;
pub mod param;
pub mod api;
pub mod circuit;
