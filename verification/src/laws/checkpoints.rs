//! Which downloaded states a node starts from.

use crate::block::BlockHeader;
use crate::checkpoint_sync::{
    acceptable, first_key_mismatch, first_unsequential, read_checkpoint_state, refused_for,
    same_keys_at, sequential_at, verify_checkpoint_state, CheckpointSyncError,
};
use crate::encoding::{decode_inverts_encode, read_gives_back_written, Ssz};
use crate::hash_root::TreeHash;
use crate::state::{State, StateView, Validator};
use vstd::prelude::*;

verus! {

/// A state is accepted exactly if it is past genesis, belongs to the expected chain with the
/// expected validators, key by key, and its checkpoints and header agree with each other.
pub proof fn accepted_states_belong_to_the_chain(
    state: StateView,
    genesis_time: u64,
    expected: Seq<Validator>,
)
    ensures
        acceptable(state, genesis_time, expected) <==> {
            &&& state.slot > 0
            &&& state.config.genesis_time == genesis_time
            &&& state.validators.len() == expected.len()
            &&& expected.len() > 0
            &&& forall|i: int| 0 <= i < expected.len() ==> (#[trigger] state.validators[i]).index == i
            &&& forall|i: int|
                0 <= i < expected.len() ==> (#[trigger] state.validators[i]).attestation_pubkey@
                    == expected[i].attestation_pubkey@
            &&& forall|i: int|
                0 <= i < expected.len() ==> (#[trigger] state.validators[i]).proposal_pubkey@
                    == expected[i].proposal_pubkey@
            &&& state.latest_finalized.slot <= state.latest_justified.slot
            &&& state.latest_finalized.slot <= state.slot
            &&& state.latest_block_header.slot <= state.slot
            &&& state.latest_finalized.slot == state.latest_justified.slot
                ==> state.latest_finalized.root@ == state.latest_justified.root@
            &&& state.latest_block_header.slot == state.latest_finalized.slot
                ==> state.latest_finalized.root@ == BlockHeader::root(state.latest_block_header)
            &&& state.latest_block_header.slot == state.latest_justified.slot
                ==> state.latest_justified.root@ == BlockHeader::root(state.latest_block_header)
        },
{
    let vs = state.validators;
    if acceptable(state, genesis_time, expected) {
        assert forall|i: int| 0 <= i < expected.len() implies (#[trigger] vs[i]).index == i by {
            assert(sequential_at(vs, i));
        }
        assert forall|i: int| 0 <= i < expected.len() implies (
        #[trigger] vs[i]).attestation_pubkey@ == expected[i].attestation_pubkey@ by {
            assert(same_keys_at(vs, expected, i));
        }
        assert forall|i: int| 0 <= i < expected.len() implies (#[trigger] vs[i]).proposal_pubkey@
            == expected[i].proposal_pubkey@ by {
            assert(same_keys_at(vs, expected, i));
        }
    }
}

/// A state that differs from an accepted one in one public key of one validator is refused
/// for that validator.
pub proof fn one_other_key_is_refused(
    good: StateView,
    bad: StateView,
    genesis_time: u64,
    expected: Seq<Validator>,
    at: int,
    error: CheckpointSyncError,
)
    requires
        acceptable(good, genesis_time, expected),
        0 <= at < good.validators.len(),
        bad == (StateView { validators: bad.validators, ..good }),
        bad.validators.len() == good.validators.len(),
        forall|i: int|
            0 <= i < good.validators.len() && i != at ==> (#[trigger] bad.validators[i])
                == good.validators[i],
        bad.validators[at].index == good.validators[at].index,
        bad.validators[at].attestation_pubkey@ != good.validators[at].attestation_pubkey@
            || bad.validators[at].proposal_pubkey@ != good.validators[at].proposal_pubkey@,
    ensures
        !acceptable(bad, genesis_time, expected),
        refused_for(bad, genesis_time, expected, error) ==> (
        error matches CheckpointSyncError::ValidatorPubkeyMismatch { index } && index == at),
{
    let (g, b) = (good.validators, bad.validators);
    accepted_states_belong_to_the_chain(good, genesis_time, expected);
    accepted_states_belong_to_the_chain(bad, genesis_time, expected);
    assert forall|i: int| 0 <= i < b.len() implies (#[trigger] b[i]).index == i by {
        assert(g[i].index == i);
    }
    assert(g[at].attestation_pubkey@ == expected[at].attestation_pubkey@);
    assert(g[at].proposal_pubkey@ == expected[at].proposal_pubkey@);
    assert(b[at].attestation_pubkey@ != expected[at].attestation_pubkey@
        || b[at].proposal_pubkey@ != expected[at].proposal_pubkey@);
    if refused_for(bad, genesis_time, expected, error) {
        if exists|i: int| first_unsequential(b, i) {
            let i = choose|i: int| first_unsequential(b, i);
            assert(b[i].index == i);
        }
        assert(!same_keys_at(b, expected, at));
        assert forall|j: int| 0 <= j < at implies #[trigger] same_keys_at(b, expected, j) by {
            assert(b[j] == g[j]);
            assert(g[j].attestation_pubkey@ == expected[j].attestation_pubkey@);
            assert(g[j].proposal_pubkey@ == expected[j].proposal_pubkey@);
        }
        assert(first_key_mismatch(b, expected, at));
        let index = match error {
            CheckpointSyncError::ValidatorPubkeyMismatch { index } => index as int,
            _ => 0,
        };
        if index < at {
            assert(same_keys_at(b, expected, index));
        } else if index > at {
            assert(same_keys_at(b, expected, at));
        }
    }
}

/// Each refusal tells something that is true of the refused state and false of an accepted
/// one, and the earlier demands are met.
pub proof fn refusals_tell_the_truth(
    state: StateView,
    genesis_time: u64,
    expected: Seq<Validator>,
    error: CheckpointSyncError,
)
    requires
        refused_for(state, genesis_time, expected, error),
    ensures
        !(error is SszDecode),
        error is SlotIsZero <==> state.slot == 0,
        error is NoValidators <==> state.slot > 0 && state.validators.len() == 0,
        error matches CheckpointSyncError::GenesisTimeMismatch { expected: want, got } ==> want
            == genesis_time && got == state.config.genesis_time && got != want,
        error matches CheckpointSyncError::ValidatorCountMismatch { expected: want, got } ==> want
            == expected.len() as usize && got == state.validators.len() as usize
            && state.validators.len() != expected.len(),
        error matches CheckpointSyncError::NonSequentialValidatorIndex {
            position,
            expected: want,
            got,
        } ==> position < state.validators.len() && want == position && got
            == state.validators[position as int].index && got != want && forall|i: int|
            0 <= i < position ==> (#[trigger] state.validators[i]).index == i,
        error matches CheckpointSyncError::ValidatorPubkeyMismatch { index } ==> index
            < state.validators.len() && (state.validators[index as int].attestation_pubkey@
            != expected[index as int].attestation_pubkey@
            || state.validators[index as int].proposal_pubkey@
            != expected[index as int].proposal_pubkey@) && forall|i: int|
            0 <= i < index ==> (#[trigger] state.validators[i]).attestation_pubkey@
                == expected[i].attestation_pubkey@ && state.validators[i].proposal_pubkey@
                == expected[i].proposal_pubkey@,
        error is FinalizedExceedsStateSlot ==> state.latest_finalized.slot > state.slot,
        error is JustifiedPrecedesFinalized ==> state.latest_justified.slot
            < state.latest_finalized.slot <= state.slot,
        error is JustifiedFinalizedRootMismatch ==> state.latest_justified.slot
            == state.latest_finalized.slot && state.latest_justified.root@
            != state.latest_finalized.root@,
        error is BlockHeaderSlotExceedsState ==> state.latest_block_header.slot > state.slot,
        error is BlockHeaderFinalizedRootMismatch ==> state.latest_block_header.slot
            == state.latest_finalized.slot && state.latest_finalized.root@ != BlockHeader::root(
            state.latest_block_header,
        ),
        error is BlockHeaderJustifiedRootMismatch ==> state.latest_block_header.slot
            == state.latest_justified.slot && state.latest_justified.root@ != BlockHeader::root(
            state.latest_block_header,
        ),
{
    let vs = state.validators;
    match error {
        CheckpointSyncError::NonSequentialValidatorIndex { position, .. } => {
            assert forall|i: int| 0 <= i < position implies (#[trigger] vs[i]).index == i by {
                assert(sequential_at(vs, i));
            }
        },
        CheckpointSyncError::ValidatorPubkeyMismatch { index } => {
            assert forall|i: int| 0 <= i < index implies (#[trigger] vs[i]).attestation_pubkey@
                == expected[i].attestation_pubkey@ && vs[i].proposal_pubkey@
                == expected[i].proposal_pubkey@ by {
                assert(same_keys_at(vs, expected, i));
            }
        },
        _ => {},
    }
}

/// A checkpoint state is accepted if and only if it is a state of the expected chain, past
/// genesis, with the expected validators in their order and consistent checkpoints. Else the
/// error tells the first reason.
pub proof fn verification_accepts_the_right_states(
    state: State,
    genesis_time: u64,
    expected: &[Validator],
    r: Result<(), CheckpointSyncError>,
)
    requires
        call_ensures(verify_checkpoint_state, (&state, genesis_time, expected), r),
    ensures
        r is Ok <==> {
            &&& state@.slot > 0
            &&& state@.config.genesis_time == genesis_time
            &&& state@.validators.len() == expected@.len()
            &&& expected@.len() > 0
            &&& forall|i: int|
                0 <= i < expected@.len() ==> (#[trigger] state@.validators[i]).index == i
            &&& forall|i: int|
                0 <= i < expected@.len() ==> (#[trigger] state@.validators[i]).attestation_pubkey@
                    == expected@[i].attestation_pubkey@
            &&& forall|i: int|
                0 <= i < expected@.len() ==> (#[trigger] state@.validators[i]).proposal_pubkey@
                    == expected@[i].proposal_pubkey@
            &&& state@.latest_finalized.slot <= state@.latest_justified.slot
            &&& state@.latest_finalized.slot <= state@.slot
            &&& state@.latest_block_header.slot <= state@.slot
            &&& state@.latest_finalized.slot == state@.latest_justified.slot
                ==> state@.latest_finalized.root@ == state@.latest_justified.root@
            &&& state@.latest_block_header.slot == state@.latest_finalized.slot
                ==> state@.latest_finalized.root@ == BlockHeader::root(state@.latest_block_header)
            &&& state@.latest_block_header.slot == state@.latest_justified.slot
                ==> state@.latest_justified.root@ == BlockHeader::root(state@.latest_block_header)
        },
        r matches Err(error) ==> refused_for(state@, genesis_time, expected@, error),
{
    accepted_states_belong_to_the_chain(state@, genesis_time, expected@);
}

/// Where everything else of a state is right, the first validator with another attestation or
/// proposal key is the one that is named.
pub proof fn other_keys_are_named(
    state: State,
    genesis_time: u64,
    expected: &[Validator],
    r: Result<(), CheckpointSyncError>,
    at: int,
)
    requires
        call_ensures(verify_checkpoint_state, (&state, genesis_time, expected), r),
        state@.slot > 0,
        state@.config.genesis_time == genesis_time,
        state@.validators.len() == expected@.len(),
        expected@.len() <= u64::MAX,
        forall|i: int| 0 <= i < expected@.len() ==> (#[trigger] state@.validators[i]).index == i,
        0 <= at < expected@.len(),
        state@.validators[at].attestation_pubkey@ != expected@[at].attestation_pubkey@
            || state@.validators[at].proposal_pubkey@ != expected@[at].proposal_pubkey@,
        forall|i: int|
            0 <= i < at ==> (#[trigger] state@.validators[i]).attestation_pubkey@
                == expected@[i].attestation_pubkey@ && state@.validators[i].proposal_pubkey@
                == expected@[i].proposal_pubkey@,
    ensures
        r matches Err(CheckpointSyncError::ValidatorPubkeyMismatch { index }) && index == at,
{
    let validators = state@.validators;
    accepted_states_belong_to_the_chain(state@, genesis_time, expected@);
    assert(validators[at] == validators[at]);
    assert forall|i: int| 0 <= i < validators.len() implies #[trigger] sequential_at(
        validators,
        i,
    ) by {
        assert(validators[i].index == i);
    }
    assert forall|i: int| 0 <= i < at implies #[trigger] same_keys_at(
        validators,
        expected@,
        i,
    ) by {
        assert(validators[i].attestation_pubkey@ == expected@[i].attestation_pubkey@);
    }
    assert(!same_keys_at(validators, expected@, at));
    assert(first_key_mismatch(validators, expected@, at));
    assert forall|i: int| first_key_mismatch(validators, expected@, i) implies i == at by {
        if i < at {
            assert(same_keys_at(validators, expected@, i));
        }
        if at < i {
            assert(same_keys_at(validators, expected@, at));
        }
    }
    assert(r is Err);
    refusals_tell_the_truth(state@, genesis_time, expected@, r->Err_0);
}

/// A checkpoint state that is read is the one that was written, verified like any other.
pub proof fn written_states_are_verified(
    bytes: &[u8],
    written: StateView,
    genesis_time: u64,
    expected: &[Validator],
    r: Result<State, CheckpointSyncError>,
)
    requires
        call_ensures(read_checkpoint_state, (bytes, genesis_time, expected), r),
    ensures
        State::valid(written) && bytes@ == State::enc(written) ==> {
            &&& r is Ok <==> acceptable(written, genesis_time, expected@)
            &&& r matches Ok(state) ==> state@ == written
            &&& r matches Err(error) ==> refused_for(written, genesis_time, expected@, error)
        },
        r matches Ok(state) ==> bytes@ == State::enc(state@) && acceptable(
            state@,
            genesis_time,
            expected@,
        ),
{
    if State::valid(written) && bytes@ == State::enc(written) {
        read_gives_back_written::<State>(written);
    }
    if let Ok(state) = r {
        decode_inverts_encode::<State>(bytes@, state@);
    }
}

} // verus!
