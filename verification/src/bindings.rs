//! Calls into other crates, each with the contract that the library relies on.
//!
//! The contracts of the wrappers in this module are not proved: each states what the
//! source or the documentation of the called function shows.

pub mod collections;
pub mod hashing;
pub mod hexadecimal;
pub mod random;
pub mod snappy;
pub mod sorting;
