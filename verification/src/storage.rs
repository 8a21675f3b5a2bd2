//! Chain storage: tables of bytes and the store on top of them.

pub mod backend;
pub mod keys;
pub mod model;
pub mod payloads;
pub mod retention;
pub mod store;
pub mod tables;
