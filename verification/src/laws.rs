//! What the operations of the library are for, said of their inputs and results.
//!
//! Each law follows from the contracts of the functions it speaks of, and is stated without
//! the steps by which they work.

pub mod checkpoints;
pub mod collections;
pub mod fetching;
pub mod layout;
pub mod limits;
pub mod messages;
pub mod refusals;
pub mod roots;
pub mod sequencing;
pub mod setup;
pub mod signing;
pub mod store;
pub mod storing;
pub mod texts;
pub mod timing;
pub mod values;
