//! The store that a node starts with.

use crate::checkpoint_sync::{acceptable, read_checkpoint_state, refused_for, CheckpointSyncError};
use crate::encoding::{decode_inverts_encode, decoded, Ssz};
use crate::genesis::{numbered, GenesisConfig};
use crate::hash_root::TreeHash;
use crate::state::{is_genesis, State, StateView, VALIDATOR_REGISTRY_LIMIT};
use crate::storage::backend::StorageBackend;
use crate::storage::model::anchor_consistent;
use crate::storage::store::Store;
use vstd::prelude::*;

verus! {

/// Why a node cannot start.
#[derive(Clone, Copy, PartialEq, Eq, Debug, Structural)]
pub enum StartupError {
    /// The genesis configuration has more validators than a state can hold.
    TooManyValidators,
    /// The downloaded state cannot be used.
    Sync(CheckpointSyncError),
    /// The state root in the header of the downloaded state is wrong.
    InconsistentAnchor,
}

/// A state that can be encoded is within the limits of its lists.
proof fn lemma_valid_hashable(v: StateView)
    requires
        State::valid(v),
    ensures
        State::hashable(v),
{
}

/// The store that starts at genesis.
pub fn genesis_store<B: StorageBackend>(backend: B, genesis: &GenesisConfig) -> (r: Result<
    Store<B>,
    StartupError,
>)
    requires
        backend.valid(),
    ensures
        genesis.genesis_validators@.len() > VALIDATOR_REGISTRY_LIMIT ==> r matches Err(
            StartupError::TooManyValidators,
        ),
        genesis.genesis_validators@.len() <= VALIDATOR_REGISTRY_LIMIT ==> (r matches Ok(
            store,
        ) && exists|state: StateView| #[trigger]
            is_genesis(
                state,
                genesis.genesis_time,
                numbered(genesis.genesis_validators@),
            ) && store.starts_at(backend.db(), state, None)),
{
    if genesis.genesis_validators.len() > VALIDATOR_REGISTRY_LIMIT {
        return Err(StartupError::TooManyValidators);
    }
    let validators = genesis.validators();
    let state = State::from_genesis(genesis.genesis_time, validators);
    Ok(Store::from_anchor_state(backend, state))
}

/// The store that starts at a downloaded state.
pub fn checkpoint_store<B: StorageBackend>(
    backend: B,
    genesis: &GenesisConfig,
    bytes: &[u8],
) -> (r: Result<Store<B>, StartupError>)
    requires
        backend.valid(),
    ensures
        match decoded::<State>(bytes@) {
            None => r matches Err(StartupError::Sync(CheckpointSyncError::SszDecode(e))) && e
                == State::fault(bytes@),
            Some(state) => {
                let validators = numbered(genesis.genesis_validators@);
                if !acceptable(state, genesis.genesis_time, validators) {
                    r matches Err(StartupError::Sync(e)) && refused_for(
                        state,
                        genesis.genesis_time,
                        validators,
                        e,
                    )
                } else if !anchor_consistent(state) {
                    r matches Err(StartupError::InconsistentAnchor)
                } else {
                    r matches Ok(store) && store.starts_at(backend.db(), state, None)
                }
            },
        },
{
    let validators = genesis.validators();
    match read_checkpoint_state(bytes, genesis.genesis_time, validators.as_slice()) {
        Ok(state) => {
            proof {
                decode_inverts_encode::<State>(bytes@, state@);
                lemma_valid_hashable(state@);
            }
            match Store::try_from_anchor_state(backend, state) {
                Ok(store) => Ok(store),
                Err(_) => Err(StartupError::InconsistentAnchor),
            }
        },
        Err(e) => Err(StartupError::Sync(e)),
    }
}

} // verus!
