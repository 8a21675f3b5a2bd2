use ethlambda::attestation::{bits_from_vec, AggregatedAttestation, AttestationData, XmssSignature};
use ethlambda::block::{AggregatedSignatureProof, Block, BlockBody, BlockSignatures, SignedBlock};
use ethlambda::checkpoint::Checkpoint;
use ethlambda::encoding::bits::decode_bits;
use ethlambda::encoding::list::decode_list;
use ethlambda::encoding::{DecodeError, Ssz};
use ethlambda::primitives::H256;
use ethlambda::state::{ChainConfig, State, Validator};
use ssz::{Decode, SszDecoderBuilder};
use ssz_types::typenum::{Sum, U1024, U1048576, U1073741824, U2048, U262144, U3, U40, U4096};
use ssz_types::{BitList, FixedVector, VariableList};

type U3112 = Sum<Sum<U2048, U1024>, U40>;

// The same layouts, decoded by the field decoders of the `ssz` crate.

// A container of `N` bytes without variable parts.
struct Fixed<const N: usize>;

impl<const N: usize> Decode for Fixed<N> {
    fn is_ssz_fixed_len() -> bool {
        true
    }

    fn ssz_fixed_len() -> usize {
        N
    }

    fn from_ssz_bytes(bytes: &[u8]) -> Result<Self, ssz::DecodeError> {
        if bytes.len() != N {
            return Err(ssz::DecodeError::InvalidByteLength { len: bytes.len(), expected: N });
        }
        Ok(Fixed)
    }
}

struct OutsideProof;

impl Decode for OutsideProof {
    fn is_ssz_fixed_len() -> bool {
        false
    }

    fn from_ssz_bytes(bytes: &[u8]) -> Result<Self, ssz::DecodeError> {
        let mut builder = SszDecoderBuilder::new(bytes);
        builder.register_type::<BitList<U4096>>()?;
        builder.register_type::<VariableList<u8, U1048576>>()?;
        let mut decoder = builder.build()?;
        decoder.decode_next::<BitList<U4096>>()?;
        decoder.decode_next::<VariableList<u8, U1048576>>()?;
        Ok(OutsideProof)
    }
}

struct OutsideAttestation;

impl Decode for OutsideAttestation {
    fn is_ssz_fixed_len() -> bool {
        false
    }

    fn from_ssz_bytes(bytes: &[u8]) -> Result<Self, ssz::DecodeError> {
        let mut builder = SszDecoderBuilder::new(bytes);
        builder.register_type::<BitList<U4096>>()?;
        builder.register_type::<Fixed<128>>()?;
        let mut decoder = builder.build()?;
        decoder.decode_next::<BitList<U4096>>()?;
        decoder.decode_next::<Fixed<128>>()?;
        Ok(OutsideAttestation)
    }
}

struct OutsideBody;

impl Decode for OutsideBody {
    fn is_ssz_fixed_len() -> bool {
        false
    }

    fn from_ssz_bytes(bytes: &[u8]) -> Result<Self, ssz::DecodeError> {
        let mut builder = SszDecoderBuilder::new(bytes);
        builder.register_type::<VariableList<OutsideAttestation, U4096>>()?;
        let mut decoder = builder.build()?;
        decoder.decode_next::<VariableList<OutsideAttestation, U4096>>()?;
        Ok(OutsideBody)
    }
}

struct OutsideBlock;

impl Decode for OutsideBlock {
    fn is_ssz_fixed_len() -> bool {
        false
    }

    fn from_ssz_bytes(bytes: &[u8]) -> Result<Self, ssz::DecodeError> {
        let mut builder = SszDecoderBuilder::new(bytes);
        builder.register_type::<u64>()?;
        builder.register_type::<u64>()?;
        builder.register_type::<Fixed<32>>()?;
        builder.register_type::<Fixed<32>>()?;
        builder.register_type::<OutsideBody>()?;
        let mut decoder = builder.build()?;
        decoder.decode_next::<u64>()?;
        decoder.decode_next::<u64>()?;
        decoder.decode_next::<Fixed<32>>()?;
        decoder.decode_next::<Fixed<32>>()?;
        decoder.decode_next::<OutsideBody>()?;
        Ok(OutsideBlock)
    }
}

struct OutsideSignatures;

impl Decode for OutsideSignatures {
    fn is_ssz_fixed_len() -> bool {
        false
    }

    fn from_ssz_bytes(bytes: &[u8]) -> Result<Self, ssz::DecodeError> {
        let mut builder = SszDecoderBuilder::new(bytes);
        builder.register_type::<VariableList<OutsideProof, U4096>>()?;
        builder.register_type::<FixedVector<u8, U3112>>()?;
        let mut decoder = builder.build()?;
        decoder.decode_next::<VariableList<OutsideProof, U4096>>()?;
        decoder.decode_next::<FixedVector<u8, U3112>>()?;
        Ok(OutsideSignatures)
    }
}

struct OutsideSignedBlock;

impl Decode for OutsideSignedBlock {
    fn is_ssz_fixed_len() -> bool {
        false
    }

    fn from_ssz_bytes(bytes: &[u8]) -> Result<Self, ssz::DecodeError> {
        let mut builder = SszDecoderBuilder::new(bytes);
        builder.register_type::<OutsideBlock>()?;
        builder.register_type::<OutsideSignatures>()?;
        let mut decoder = builder.build()?;
        decoder.decode_next::<OutsideBlock>()?;
        decoder.decode_next::<OutsideSignatures>()?;
        Ok(OutsideSignedBlock)
    }
}

struct OutsideState;

impl Decode for OutsideState {
    fn is_ssz_fixed_len() -> bool {
        false
    }

    fn from_ssz_bytes(bytes: &[u8]) -> Result<Self, ssz::DecodeError> {
        let mut builder = SszDecoderBuilder::new(bytes);
        builder.register_type::<Fixed<8>>()?;
        builder.register_type::<u64>()?;
        builder.register_type::<Fixed<112>>()?;
        builder.register_type::<Fixed<40>>()?;
        builder.register_type::<Fixed<40>>()?;
        builder.register_type::<VariableList<Fixed<32>, U262144>>()?;
        builder.register_type::<BitList<U262144>>()?;
        builder.register_type::<VariableList<Fixed<112>, U4096>>()?;
        builder.register_type::<VariableList<Fixed<32>, U262144>>()?;
        builder.register_type::<BitList<U1073741824>>()?;
        let mut decoder = builder.build()?;
        decoder.decode_next::<Fixed<8>>()?;
        decoder.decode_next::<u64>()?;
        decoder.decode_next::<Fixed<112>>()?;
        decoder.decode_next::<Fixed<40>>()?;
        decoder.decode_next::<Fixed<40>>()?;
        decoder.decode_next::<VariableList<Fixed<32>, U262144>>()?;
        decoder.decode_next::<BitList<U262144>>()?;
        decoder.decode_next::<VariableList<Fixed<112>, U4096>>()?;
        decoder.decode_next::<VariableList<Fixed<32>, U262144>>()?;
        decoder.decode_next::<BitList<U1073741824>>()?;
        Ok(OutsideState)
    }
}

fn outcome<T, E: std::fmt::Debug>(r: Result<T, E>) -> Option<String> {
    r.err().map(|e| format!("{:?}", e))
}

fn own_outcome<T>(r: Result<T, DecodeError>) -> Option<String> {
    r.err().map(|e| e.text())
}

fn votes() -> Vec<bool> {
    vec![true, false, false, true, true, false, false, false, false, true]
}

fn checkpoint(n: u8) -> Checkpoint {
    Checkpoint { root: H256([n; 32]), slot: n as u64 }
}

fn signed_block() -> SignedBlock {
    let attestation = || AggregatedAttestation {
        aggregation_bits: bits_from_vec(&votes()),
        data: AttestationData {
            slot: 1,
            head: checkpoint(1),
            target: checkpoint(2),
            source: checkpoint(3),
        },
    };
    let proof_of = |n: usize| AggregatedSignatureProof::new(bits_from_vec(&votes()), vec![7; n]);
    SignedBlock {
        message: Block {
            slot: 7,
            proposer_index: 2,
            parent_root: H256([4; 32]),
            state_root: H256([5; 32]),
            body: BlockBody { attestations: vec![attestation(), attestation(), attestation()] },
        },
        signature: BlockSignatures {
            attestation_signatures: vec![proof_of(3), proof_of(0), proof_of(5)],
            proposer_signature: XmssSignature::default(),
        },
    }
}

fn state() -> State {
    State {
        config: ChainConfig { genesis_time: 12 },
        slot: 9,
        latest_block_header: signed_block().message.header(),
        latest_justified: checkpoint(1),
        latest_finalized: checkpoint(2),
        historical_block_hashes: vec![H256([1; 32]), H256([2; 32])],
        justified_slots: votes(),
        validators: vec![Validator {
            attestation_pubkey: [1; 52],
            proposal_pubkey: [2; 52],
            index: 0,
        }],
        justifications_roots: vec![H256([9; 32])],
        justifications_validators: vec![true; 17],
    }
}

// Changed copies of bytes: cut off at every place, longer, and with other values in places.
fn damaged(bytes: &[u8], step: usize) -> Vec<Vec<u8>> {
    let mut out = Vec::new();
    for n in (0..bytes.len()).step_by(step) {
        out.push(bytes[..n].to_vec());
        for value in [0u8, 1, 3, 4, 8, 12, 128, 255] {
            let mut copy = bytes.to_vec();
            copy[n] = value;
            out.push(copy);
        }
        let mut copy = bytes.to_vec();
        copy.remove(n);
        out.push(copy);
    }
    let mut copy = bytes.to_vec();
    copy.push(0);
    out.push(copy);
    out
}

#[test]
fn blocks_are_refused_for_the_same_reasons() {
    let bytes = signed_block().as_ssz_bytes();
    let mut refused = 0;
    // past the signature only one byte in many is changed
    let short = bytes.len() - 3112;
    let mut tried = damaged(&bytes, 97);
    for n in 0..short.min(700) {
        for value in [0u8, 1, 3, 4, 8, 12, 128, 255] {
            let mut copy = bytes.clone();
            copy[n] = value;
            tried.push(copy);
        }
        tried.push(bytes[..n].to_vec());
    }
    for copy in tried {
        let own = own_outcome(SignedBlock::from_ssz_bytes(&copy));
        assert_eq!(own, outcome(OutsideSignedBlock::from_ssz_bytes(&copy)));
        if own.is_some() {
            refused += 1;
        }
    }
    assert!(refused > 500);
}

#[test]
fn states_are_refused_for_the_same_reasons() {
    let bytes = state().as_ssz_bytes();
    for copy in damaged(&bytes, 1) {
        assert_eq!(
            own_outcome(State::from_ssz_bytes(&copy)),
            outcome(OutsideState::from_ssz_bytes(&copy))
        );
    }
}

#[test]
fn proofs_are_refused_for_the_same_reasons() {
    let whole = signed_block();
    let proof_bytes = whole.signature.attestation_signatures[0].as_ssz_bytes();
    for copy in damaged(&proof_bytes, 1) {
        assert_eq!(
            own_outcome(AggregatedSignatureProof::from_ssz_bytes(&copy)),
            outcome(OutsideProof::from_ssz_bytes(&copy))
        );
    }
    for copy in damaged(&whole.signature.as_ssz_bytes()[..120], 1) {
        assert_eq!(
            own_outcome(BlockSignatures::from_ssz_bytes(&copy)),
            outcome(OutsideSignatures::from_ssz_bytes(&copy))
        );
    }
    for copy in damaged(&whole.message.body.as_ssz_bytes(), 1) {
        assert_eq!(
            own_outcome(BlockBody::from_ssz_bytes(&copy)),
            outcome(OutsideBody::from_ssz_bytes(&copy))
        );
    }
}

#[test]
fn lists_and_bits_are_refused_for_the_same_reasons() {
    for n in 0..50usize {
        let bytes: Vec<u8> = (0..n).map(|i| (i % 3) as u8).collect();
        assert_eq!(
            own_outcome(decode_list::<u64>(&bytes, 3)),
            outcome(VariableList::<u64, U3>::from_ssz_bytes(&bytes))
        );
        assert_eq!(
            own_outcome(XmssSignature::from_ssz_bytes(&bytes)),
            outcome(FixedVector::<u8, U3112>::from_ssz_bytes(&bytes))
        );
        assert_eq!(
            own_outcome(<u64 as Ssz>::from_ssz_bytes(&bytes)),
            outcome(<u64 as Decode>::from_ssz_bytes(&bytes))
        );
    }
    for a in 0..=255u8 {
        for bytes in [vec![a], vec![a, 0], vec![0, a], vec![a, 0, 0], vec![9, a, 1]] {
            assert_eq!(
                own_outcome(decode_bits(&bytes, 3)),
                outcome(BitList::<U3>::from_ssz_bytes(&bytes))
            );
        }
    }
    assert_eq!(
        own_outcome(decode_bits(&[], 3)),
        outcome(BitList::<U3>::from_ssz_bytes(&[]))
    );
    let many = vec![4; 4 * 4097];
    let mut offsets = (4 * 4097u32).to_le_bytes().to_vec();
    offsets.extend_from_slice(&many);
    assert_eq!(
        own_outcome(decode_list::<BlockBody>(&offsets, 4096)),
        outcome(VariableList::<OutsideBody, U4096>::from_ssz_bytes(&offsets))
    );
}
