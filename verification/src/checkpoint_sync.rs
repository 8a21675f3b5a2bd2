//! Checks on a state that was downloaded as a starting point.

use crate::block::BlockHeader;
use crate::encoding::{decode_inverts_encode, decoded, DecodeError, Ssz};
use crate::hash_root::TreeHash;
use crate::primitives::same_bytes;
use crate::state::{State, StateView, Validator};
use crate::text::{around, join_around};
use vstd::prelude::*;

verus! {

/// Why a downloaded state cannot be used.
#[derive(Clone, Copy, PartialEq, Eq, Debug, Structural)]
pub enum CheckpointSyncError {
    /// The bytes are not the encoding of a state.
    SszDecode(DecodeError),
    SlotIsZero,
    NoValidators,
    GenesisTimeMismatch { expected: u64, got: u64 },
    ValidatorCountMismatch { expected: usize, got: usize },
    NonSequentialValidatorIndex { position: usize, expected: u64, got: u64 },
    ValidatorPubkeyMismatch { index: usize },
    FinalizedExceedsStateSlot,
    JustifiedPrecedesFinalized,
    JustifiedFinalizedRootMismatch,
    BlockHeaderSlotExceedsState,
    BlockHeaderFinalizedRootMismatch,
    BlockHeaderJustifiedRootMismatch,
}

impl CheckpointSyncError {
    /// The text of the error.
    pub open spec fn message(&self) -> Seq<char> {
        match self {
            CheckpointSyncError::SszDecode(e) => "SSZ deserialization failed: "@ + e.message(),
            CheckpointSyncError::SlotIsZero => "checkpoint state slot cannot be 0"@,
            CheckpointSyncError::NoValidators => "checkpoint state has no validators"@,
            CheckpointSyncError::GenesisTimeMismatch { expected, got } => around(
                "genesis time mismatch: expected "@,
                *expected as nat,
                around(", got "@, *got as nat, ""@),
            ),
            CheckpointSyncError::ValidatorCountMismatch { expected, got } => around(
                "validator count mismatch: expected "@,
                *expected as nat,
                around(", got "@, *got as nat, ""@),
            ),
            CheckpointSyncError::NonSequentialValidatorIndex { position, expected, got } => around(
                "validator at position "@,
                *position as nat,
                around(
                    " has non-sequential index (expected "@,
                    *expected as nat,
                    around(", got "@, *got as nat, ")"@),
                ),
            ),
            CheckpointSyncError::ValidatorPubkeyMismatch { index } => around(
                "validator "@,
                *index as nat,
                " pubkey mismatch"@,
            ),
            CheckpointSyncError::FinalizedExceedsStateSlot => "finalized slot cannot exceed state slot"@,
            CheckpointSyncError::JustifiedPrecedesFinalized => "justified slot cannot precede finalized slot"@,
            CheckpointSyncError::JustifiedFinalizedRootMismatch => "justified and finalized at same slot must have matching roots"@,
            CheckpointSyncError::BlockHeaderSlotExceedsState => "block header slot exceeds state slot"@,
            CheckpointSyncError::BlockHeaderFinalizedRootMismatch => "block header at finalized slot must match finalized root"@,
            CheckpointSyncError::BlockHeaderJustifiedRootMismatch => "block header at justified slot must match justified root"@,
        }
    }

    /// The text of the error.
    pub fn text(&self) -> (r: String)
        ensures
            r@ == self.message(),
    {
        match self {
            CheckpointSyncError::SszDecode(e) => e.text_after("SSZ deserialization failed: "),
            CheckpointSyncError::SlotIsZero => "checkpoint state slot cannot be 0".to_owned(),
            CheckpointSyncError::NoValidators => "checkpoint state has no validators".to_owned(),
            CheckpointSyncError::GenesisTimeMismatch { expected, got } => {
                let rest = join_around(", got ", *got, "");
                join_around("genesis time mismatch: expected ", *expected, rest.as_str())
            },
            CheckpointSyncError::ValidatorCountMismatch { expected, got } => {
                let rest = join_around(", got ", *got as u64, "");
                join_around(
                    "validator count mismatch: expected ",
                    *expected as u64,
                    rest.as_str(),
                )
            },
            CheckpointSyncError::NonSequentialValidatorIndex { position, expected, got } => {
                let last = join_around(", got ", *got, ")");
                let rest = join_around(
                    " has non-sequential index (expected ",
                    *expected,
                    last.as_str(),
                );
                join_around("validator at position ", *position as u64, rest.as_str())
            },
            CheckpointSyncError::ValidatorPubkeyMismatch { index } => {
                join_around("validator ", *index as u64, " pubkey mismatch")
            },
            CheckpointSyncError::FinalizedExceedsStateSlot => {
                "finalized slot cannot exceed state slot".to_owned()
            },
            CheckpointSyncError::JustifiedPrecedesFinalized => {
                "justified slot cannot precede finalized slot".to_owned()
            },
            CheckpointSyncError::JustifiedFinalizedRootMismatch => {
                "justified and finalized at same slot must have matching roots".to_owned()
            },
            CheckpointSyncError::BlockHeaderSlotExceedsState => {
                "block header slot exceeds state slot".to_owned()
            },
            CheckpointSyncError::BlockHeaderFinalizedRootMismatch => {
                "block header at finalized slot must match finalized root".to_owned()
            },
            CheckpointSyncError::BlockHeaderJustifiedRootMismatch => {
                "block header at justified slot must match justified root".to_owned()
            },
        }
    }
}

/// Whether the validator at `i` has `i` as its index.
pub open spec fn sequential_at(validators: Seq<Validator>, i: int) -> bool {
    validators[i].index == i
}

/// Whether the validators at `i` have the same keys.
pub open spec fn same_keys_at(a: Seq<Validator>, b: Seq<Validator>, i: int) -> bool {
    a[i].attestation_pubkey@ == b[i].attestation_pubkey@ && a[i].proposal_pubkey@
        == b[i].proposal_pubkey@
}

/// Whether `i` is the first validator that is not numbered by its position.
pub open spec fn first_unsequential(validators: Seq<Validator>, i: int) -> bool {
    &&& 0 <= i < validators.len()
    &&& !sequential_at(validators, i)
    &&& forall|j: int| 0 <= j < i ==> #[trigger] sequential_at(validators, j)
}

/// Whether `i` is the first validator with other keys than expected.
pub open spec fn first_key_mismatch(a: Seq<Validator>, b: Seq<Validator>, i: int) -> bool {
    &&& 0 <= i < a.len()
    &&& !same_keys_at(a, b, i)
    &&& forall|j: int| 0 <= j < i ==> #[trigger] same_keys_at(a, b, j)
}

/// Whether the state belongs to the chain of the expected genesis.
pub open spec fn matches_genesis(
    state: StateView,
    genesis_time: u64,
    validators: Seq<Validator>,
) -> bool {
    &&& state.slot != 0
    &&& state.validators.len() != 0
    &&& state.config.genesis_time == genesis_time
    &&& state.validators.len() == validators.len()
    &&& forall|i: int|
        0 <= i < state.validators.len() ==> #[trigger] sequential_at(state.validators, i)
    &&& forall|i: int|
        0 <= i < state.validators.len() ==> #[trigger] same_keys_at(
            state.validators,
            validators,
            i,
        )
}

/// The first of the consistency rules between slots and roots that a state breaks.
pub open spec fn consistency_error(state: StateView) -> Option<CheckpointSyncError> {
    let header = state.latest_block_header;
    let justified = state.latest_justified;
    let finalized = state.latest_finalized;
    if finalized.slot > state.slot {
        Some(CheckpointSyncError::FinalizedExceedsStateSlot)
    } else if justified.slot < finalized.slot {
        Some(CheckpointSyncError::JustifiedPrecedesFinalized)
    } else if justified.slot == finalized.slot && justified.root@ != finalized.root@ {
        Some(CheckpointSyncError::JustifiedFinalizedRootMismatch)
    } else if header.slot > state.slot {
        Some(CheckpointSyncError::BlockHeaderSlotExceedsState)
    } else if header.slot == finalized.slot && BlockHeader::root(header) != finalized.root@ {
        Some(CheckpointSyncError::BlockHeaderFinalizedRootMismatch)
    } else if header.slot == justified.slot && BlockHeader::root(header) != justified.root@ {
        Some(CheckpointSyncError::BlockHeaderJustifiedRootMismatch)
    } else {
        None
    }
}

/// Whether `error` is the reason to refuse a state: the first rule that it breaks.
pub open spec fn refused_for(
    state: StateView,
    genesis_time: u64,
    validators: Seq<Validator>,
    error: CheckpointSyncError,
) -> bool {
    if state.slot == 0 {
        error == CheckpointSyncError::SlotIsZero
    } else if state.validators.len() == 0 {
        error == CheckpointSyncError::NoValidators
    } else if state.config.genesis_time != genesis_time {
        error == (CheckpointSyncError::GenesisTimeMismatch {
            expected: genesis_time,
            got: state.config.genesis_time,
        })
    } else if state.validators.len() != validators.len() {
        error == (CheckpointSyncError::ValidatorCountMismatch {
            expected: validators.len() as usize,
            got: state.validators.len() as usize,
        })
    } else if exists|i: int| first_unsequential(state.validators, i) {
        error matches CheckpointSyncError::NonSequentialValidatorIndex { position, expected, got }
            && first_unsequential(state.validators, position as int) && expected == position && got
            == state.validators[position as int].index
    } else if exists|i: int| first_key_mismatch(state.validators, validators, i) {
        error matches CheckpointSyncError::ValidatorPubkeyMismatch { index }
            && first_key_mismatch(state.validators, validators, index as int)
    } else {
        Some(error) == consistency_error(state)
    }
}

/// Whether a state passes every rule.
pub open spec fn acceptable(
    state: StateView,
    genesis_time: u64,
    validators: Seq<Validator>,
) -> bool {
    matches_genesis(state, genesis_time, validators) && consistency_error(state) is None
}

/// Verifies that a downloaded state is structurally valid.
///
/// - `state`: the downloaded state
/// - `expected_genesis_time`: genesis time from the local configuration
/// - `expected_validators`: validators from the local genesis configuration
pub fn verify_checkpoint_state(
    state: &State,
    expected_genesis_time: u64,
    expected_validators: &[Validator],
) -> (r: Result<(), CheckpointSyncError>)
    ensures
        r is Ok <==> acceptable(state@, expected_genesis_time, expected_validators@),
        r matches Err(error) ==> refused_for(
            state@,
            expected_genesis_time,
            expected_validators@,
            error,
        ),
{
    let ghost vs = state@.validators;
    proof {
        assert(vs =~= state.validators@);
    }
    // Slot sanity check
    if state.slot == 0 {
        return Err(CheckpointSyncError::SlotIsZero);
    }
    // Validators exist
    if state.validators.len() == 0 {
        return Err(CheckpointSyncError::NoValidators);
    }
    // Genesis time matches
    if state.config.genesis_time != expected_genesis_time {
        return Err(
            CheckpointSyncError::GenesisTimeMismatch {
                expected: expected_genesis_time,
                got: state.config.genesis_time,
            },
        );
    }
    // Validator count matches
    if state.validators.len() != expected_validators.len() {
        return Err(
            CheckpointSyncError::ValidatorCountMismatch {
                expected: expected_validators.len(),
                got: state.validators.len(),
            },
        );
    }
    // Validator indices are sequential (0, 1, 2, ...)
    let mut position: usize = 0;
    while position < state.validators.len()
        invariant
            0 <= position <= vs.len(),
            vs == state.validators@,
            vs == state@.validators,
            state@.slot != 0,
            vs.len() == expected_validators@.len(),
            vs.len() != 0,
            state@.config.genesis_time == expected_genesis_time,
            forall|j: int| 0 <= j < position ==> #[trigger] sequential_at(vs, j),
        decreases vs.len() - position,
    {
        let index: u64 = state.validators[position].index;
        if index != position as u64 {
            proof {
                assert(first_unsequential(vs, position as int));
                assert(!sequential_at(vs, position as int));
            }
            return Err(
                CheckpointSyncError::NonSequentialValidatorIndex {
                    position,
                    expected: position as u64,
                    got: index,
                },
            );
        }
        position = position + 1;
    }
    proof {
        assert forall|i: int| !first_unsequential(vs, i) by {
            if 0 <= i < vs.len() {
                assert(sequential_at(vs, i));
            }
        }
    }
    // Validator pubkeys match
    let mut i: usize = 0;
    while i < state.validators.len()
        invariant
            0 <= i <= vs.len(),
            vs == state.validators@,
            vs == state@.validators,
            state@.slot != 0,
            vs.len() == expected_validators@.len(),
            vs.len() != 0,
            state@.config.genesis_time == expected_genesis_time,
            forall|j: int| !#[trigger] first_unsequential(vs, j),
            forall|j: int| 0 <= j < i ==> #[trigger] same_keys_at(vs, expected_validators@, j),
        decreases vs.len() - i,
    {
        let ours = &expected_validators[i];
        let theirs = &state.validators[i];
        if !same_bytes(theirs.attestation_pubkey.as_slice(), ours.attestation_pubkey.as_slice())
            || !same_bytes(theirs.proposal_pubkey.as_slice(), ours.proposal_pubkey.as_slice()) {
            proof {
                assert(first_key_mismatch(vs, expected_validators@, i as int));
                assert(!same_keys_at(vs, expected_validators@, i as int));
            }
            return Err(CheckpointSyncError::ValidatorPubkeyMismatch { index: i });
        }
        i = i + 1;
    }
    proof {
        assert forall|k: int| !first_key_mismatch(vs, expected_validators@, k) by {
            if 0 <= k < vs.len() {
                assert(same_keys_at(vs, expected_validators@, k));
            }
        }
        assert(matches_genesis(state@, expected_genesis_time, expected_validators@));
    }
    // Finalized slot sanity
    if state.latest_finalized.slot > state.slot {
        return Err(CheckpointSyncError::FinalizedExceedsStateSlot);
    }
    // Justified must be at or after finalized
    if state.latest_justified.slot < state.latest_finalized.slot {
        return Err(CheckpointSyncError::JustifiedPrecedesFinalized);
    }
    // If justified and finalized are at same slot, roots must match
    if state.latest_justified.slot == state.latest_finalized.slot && !same_bytes(
        state.latest_justified.root.as_slice(),
        state.latest_finalized.root.as_slice(),
    ) {
        return Err(CheckpointSyncError::JustifiedFinalizedRootMismatch);
    }
    // Block header slot consistency
    if state.latest_block_header.slot > state.slot {
        return Err(CheckpointSyncError::BlockHeaderSlotExceedsState);
    }
    // If block header matches checkpoint slots, roots must match
    let block_root = state.latest_block_header.tree_hash_root();
    if state.latest_block_header.slot == state.latest_finalized.slot && !same_bytes(
        block_root.as_slice(),
        state.latest_finalized.root.as_slice(),
    ) {
        return Err(CheckpointSyncError::BlockHeaderFinalizedRootMismatch);
    }
    if state.latest_block_header.slot == state.latest_justified.slot && !same_bytes(
        block_root.as_slice(),
        state.latest_justified.root.as_slice(),
    ) {
        return Err(CheckpointSyncError::BlockHeaderJustifiedRootMismatch);
    }
    Ok(())
}

/// Decodes a downloaded state and verifies it.
pub fn read_checkpoint_state(
    bytes: &[u8],
    expected_genesis_time: u64,
    expected_validators: &[Validator],
) -> (r: Result<State, CheckpointSyncError>)
    ensures
        match r {
            Ok(state) => decoded::<State>(bytes@) == Some(state@) && acceptable(
                state@,
                expected_genesis_time,
                expected_validators@,
            ),
            Err(CheckpointSyncError::SszDecode(e)) => decoded::<State>(bytes@) is None && e
                == State::fault(bytes@),
            Err(error) => decoded::<State>(bytes@) matches Some(state) && !acceptable(
                state,
                expected_genesis_time,
                expected_validators@,
            ) && refused_for(state, expected_genesis_time, expected_validators@, error),
        },
{
    match State::from_ssz_bytes(bytes) {
        Ok(state) => {
            proof {
                decode_inverts_encode::<State>(bytes@, state@);
            }
            match verify_checkpoint_state(&state, expected_genesis_time, expected_validators) {
                Ok(()) => Ok(state),
                Err(error) => Err(error),
            }
        },
        Err(e) => Err(CheckpointSyncError::SszDecode(e)),
    }
}

/// There is one reason to refuse a state that is not acceptable, and none to refuse one
/// that is.
pub proof fn refusal_is_unique(
    state: StateView,
    genesis_time: u64,
    validators: Seq<Validator>,
    a: CheckpointSyncError,
    b: CheckpointSyncError,
)
    requires
        refused_for(state, genesis_time, validators, a),
        refused_for(state, genesis_time, validators, b),
    ensures
        a == b,
        !acceptable(state, genesis_time, validators),
{
    let vs = state.validators;
    assert forall|i: int, j: int|
        first_unsequential(vs, i) && first_unsequential(vs, j) implies i == j by {
        if i < j {
            assert(sequential_at(vs, i));
        } else if j < i {
            assert(sequential_at(vs, j));
        }
    }
    assert forall|i: int, j: int|
        first_key_mismatch(vs, validators, i) && first_key_mismatch(
            vs,
            validators,
            j,
        ) implies i == j by {
        if i < j {
            assert(same_keys_at(vs, validators, i));
        } else if j < i {
            assert(same_keys_at(vs, validators, j));
        }
    }
}

} // verus!
