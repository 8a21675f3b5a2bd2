//! What errors say.

use crate::blockchain::key_manager::KeyManagerError;
use crate::checkpoint_sync::CheckpointSyncError;
use crate::encoding::error::DecodeError;
use crate::net::codec::CodecError;
use crate::net::gossip::DecompressError;
use crate::net::messages::ResponseCode;
use crate::text::decimal_text;
use vstd::prelude::*;

verus! {

/// A decoding error names what is wrong and the numbers it is about.
pub proof fn decoding_errors_tell_their_numbers(error: DecodeError, r: String)
    requires
        call_ensures(DecodeError::text, (&error,), r),
    ensures
        error matches DecodeError::OffsetIntoFixedPortion(i) ==> r@
            == "OffsetIntoFixedPortion("@ + decimal_text(i as nat) + ")"@,
        error matches DecodeError::OffsetSkipsVariableBytes(i) ==> r@
            == "OffsetSkipsVariableBytes("@ + decimal_text(i as nat) + ")"@,
        error matches DecodeError::OffsetsAreDecreasing(i) ==> r@
            == "OffsetsAreDecreasing("@ + decimal_text(i as nat) + ")"@,
        error matches DecodeError::OffsetOutOfBounds(i) ==> r@
            == "OffsetOutOfBounds("@ + decimal_text(i as nat) + ")"@,
        error matches DecodeError::InvalidListFixedBytesLen(i) ==> r@
            == "InvalidListFixedBytesLen("@ + decimal_text(i as nat) + ")"@,
        error matches DecodeError::InvalidByteLength { len, expected } ==> r@
            == "InvalidByteLength { len: "@
            + decimal_text(len as nat) + ", expected: "@
            + decimal_text(expected as nat) + " }"@,
        error matches DecodeError::InvalidLengthPrefix { len, expected } ==> r@
            == "InvalidLengthPrefix { len: "@
            + decimal_text(len as nat) + ", expected: "@
            + decimal_text(expected as nat) + " }"@,
        error matches DecodeError::TooManyItems { items, max } ==> r@
            == "BytesInvalid(\"VariableList of "@
            + decimal_text(items as nat) + " items exceeds maximum of "@
            + decimal_text(max as nat) + "\")"@,
        error matches DecodeError::PartialItem { items, bytes } ==> r@
            == "BytesInvalid(\"VariableList of "@
            + decimal_text(items as nat) + " items has "@
            + decimal_text(bytes as nat) + " bytes\")"@,
        error matches DecodeError::TooManyVariableItems { items, max } ==> r@
            == "BytesInvalid(\"Variable length list of "@
            + decimal_text(items as nat) + " items exceeds maximum of Some("@
            + decimal_text(max as nat) + ")\")"@,
        error matches DecodeError::WrongVectorLength { expected, items } ==> r@
            == "BytesInvalid(\"FixedVector of "@
            + decimal_text(expected as nat) + " items has "@
            + decimal_text(items as nat) + " items\")"@,
        error matches DecodeError::ExcessBitBytes { given, expected } ==> r@
            == "BytesInvalid(\"BitList failed to decode: InvalidByteCount { given: "@
            + decimal_text(given as nat) + ", expected: "@
            + decimal_text(expected as nat) + " }\")"@,
{
    assert(r@ == error.message());
    if let DecodeError::InvalidByteLength { len, expected } = error {
        assert(r@ =~= "InvalidByteLength { len: "@
            + decimal_text(len as nat) + ", expected: "@
            + decimal_text(expected as nat) + " }"@);
    }
    if let DecodeError::InvalidLengthPrefix { len, expected } = error {
        assert(r@ =~= "InvalidLengthPrefix { len: "@
            + decimal_text(len as nat) + ", expected: "@
            + decimal_text(expected as nat) + " }"@);
    }
    if let DecodeError::TooManyItems { items, max } = error {
        assert(r@ =~= "BytesInvalid(\"VariableList of "@
            + decimal_text(items as nat) + " items exceeds maximum of "@
            + decimal_text(max as nat) + "\")"@);
    }
    if let DecodeError::PartialItem { items, bytes } = error {
        assert(r@ =~= "BytesInvalid(\"VariableList of "@
            + decimal_text(items as nat) + " items has "@
            + decimal_text(bytes as nat) + " bytes\")"@);
    }
    if let DecodeError::TooManyVariableItems { items, max } = error {
        assert(r@ =~= "BytesInvalid(\"Variable length list of "@
            + decimal_text(items as nat) + " items exceeds maximum of Some("@
            + decimal_text(max as nat) + ")\")"@);
    }
    if let DecodeError::WrongVectorLength { expected, items } = error {
        assert(r@ =~= "BytesInvalid(\"FixedVector of "@
            + decimal_text(expected as nat) + " items has "@
            + decimal_text(items as nat) + " items\")"@);
    }
    if let DecodeError::ExcessBitBytes { given, expected } = error {
        assert(r@ =~= "BytesInvalid(\"BitList failed to decode: InvalidByteCount { given: "@
            + decimal_text(given as nat) + ", expected: "@
            + decimal_text(expected as nat) + " }\")"@);
    }
}

/// An error on a checkpoint state tells what was expected before what there was.
pub proof fn checkpoint_errors_tell_their_numbers(error: CheckpointSyncError, r: String)
    requires
        call_ensures(CheckpointSyncError::text, (&error,), r),
    ensures
        error matches CheckpointSyncError::GenesisTimeMismatch { expected, got } ==> r@
            == "genesis time mismatch: expected "@ + decimal_text(expected as nat) + ", got "@
            + decimal_text(got as nat),
        error matches CheckpointSyncError::ValidatorCountMismatch { expected, got } ==> r@
            == "validator count mismatch: expected "@ + decimal_text(expected as nat) + ", got "@
            + decimal_text(got as nat),
        error matches CheckpointSyncError::NonSequentialValidatorIndex { position, expected, got }
            ==> r@ == "validator at position "@ + decimal_text(position as nat)
            + " has non-sequential index (expected "@ + decimal_text(expected as nat) + ", got "@
            + decimal_text(got as nat) + ")"@,
        error matches CheckpointSyncError::ValidatorPubkeyMismatch { index } ==> r@
            == "validator "@ + decimal_text(index as nat) + " pubkey mismatch"@,
{
    reveal_strlit("");
    assert(r@ == error.message());
    if let CheckpointSyncError::GenesisTimeMismatch { expected, got } = error {
        assert(r@ =~= "genesis time mismatch: expected "@ + decimal_text(expected as nat)
            + ", got "@ + decimal_text(got as nat));
    }
    if let CheckpointSyncError::ValidatorCountMismatch { expected, got } = error {
        assert(r@ =~= "validator count mismatch: expected "@ + decimal_text(expected as nat)
            + ", got "@ + decimal_text(got as nat));
    }
    if let CheckpointSyncError::NonSequentialValidatorIndex { position, expected, got } = error {
        assert(r@ =~= "validator at position "@ + decimal_text(position as nat)
            + " has non-sequential index (expected "@ + decimal_text(expected as nat) + ", got "@
            + decimal_text(got as nat) + ")"@);
    }
}

/// Errors of signing and compression tell the validator, the reason and the sizes.
pub proof fn other_errors_tell_their_numbers(
    signing: KeyManagerError,
    compression: DecompressError,
    a: String,
    b: String,
)
    ensures
        call_ensures(KeyManagerError::text, (&signing,), a) ==> {
            &&& signing matches KeyManagerError::ValidatorKeyNotFound(v) ==> a@
                == "Validator key not found for validator_id: "@ + decimal_text(v as nat)
            &&& signing matches KeyManagerError::SigningError(reason) ==> a@ == "Signing error: "@
                + reason@
            &&& signing matches KeyManagerError::SignatureConversionError(reason) ==> a@
                == "Signature conversion error: "@ + reason@
        },
        call_ensures(DecompressError::text, (&compression,), b) ==> (
        compression matches DecompressError::TooLarge { size, max } ==> b@
            == "uncompressed size "@ + decimal_text(size as nat) + " exceeds maximum "@
            + decimal_text(max as nat)),
{
    reveal_strlit("");
    if call_ensures(KeyManagerError::text, (&signing,), a) {
        if let KeyManagerError::ValidatorKeyNotFound(v) = signing {
            assert(a@ =~= "Validator key not found for validator_id: "@ + decimal_text(v as nat));
        }
    }
    if call_ensures(DecompressError::text, (&compression,), b) {
        if let DecompressError::TooLarge { size, max } = compression {
            assert(b@ =~= "uncompressed size "@ + decimal_text(size as nat)
                + " exceeds maximum "@ + decimal_text(max as nat));
        }
    }
}

/// Codes of responses have names: codes without one of their own are server errors below 128
/// and invalid requests from there on.
pub proof fn response_codes_have_names(code: ResponseCode, r: String)
    requires
        call_ensures(ResponseCode::text, (&code,), r),
    ensures
        code.0 == 0 ==> r@ == "SUCCESS(0)"@,
        code.0 == 1 ==> r@ == "INVALID_REQUEST(1)"@,
        code.0 == 2 ==> r@ == "SERVER_ERROR(2)"@,
        code.0 == 3 ==> r@ == "RESOURCE_UNAVAILABLE(3)"@,
        4 <= code.0 < 128 ==> r@ == "SERVER_ERROR("@ + decimal_text(code.0 as nat) + ")"@,
        128 <= code.0 ==> r@ == "INVALID_REQUEST("@ + decimal_text(code.0 as nat) + ")"@,
{
}

/// The codes of responses.
pub proof fn response_codes_are_numbered(
    a: ResponseCode,
    b: ResponseCode,
    c: ResponseCode,
    d: ResponseCode,
)
    ensures
        call_ensures(ResponseCode::success, (), a) ==> a.0 == 0,
        call_ensures(ResponseCode::invalid_request, (), b) ==> b.0 == 1,
        call_ensures(ResponseCode::server_error, (), c) ==> c.0 == 2,
        call_ensures(ResponseCode::resource_unavailable, (), d) ==> d.0 == 3,
{
}

/// Errors of the codec name the protocol or what is wrong with the payload.
pub proof fn codec_errors_tell_their_reason(error: CodecError, protocol: &str, r: String, s: String)
    requires
        call_ensures(CodecError::text, (&error, protocol), r),
    ensures
        error is UnknownProtocol ==> r@ == "unknown protocol: "@ + protocol@,
        error is UnexpectedEof ==> r@ == "unexpected end of file"@,
        error matches CodecError::InvalidData(e) && call_ensures(DecodeError::text, (&e,), s) ==> r@
            == s@,
        error matches CodecError::InvalidMessage(e) && call_ensures(DecodeError::text, (&e,), s)
            ==> r@ == "Invalid error message: "@ + s@,
{
}

} // verus!
