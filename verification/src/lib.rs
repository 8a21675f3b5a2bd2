//! Building blocks of a lean consensus client: SSZ types, chain storage,
//! block sequencing and the peer-to-peer request rules.

pub mod attestation;
pub mod bindings;
pub mod block;
pub mod blockchain;
pub mod checkpoint;
pub mod checkpoint_sync;
pub mod encoding;
pub mod fixtures;
pub mod genesis;
pub mod hash_root;
pub mod laws;
pub mod net;
pub mod ordered_map;
pub mod primitives;
pub mod pubkey;
pub mod sizes;
pub mod startup;
pub mod state;
pub mod storage;
pub mod text;
pub mod validator_config;
