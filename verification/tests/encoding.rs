use ethlambda::attestation::{
    bits_from_vec, bits_to_vec, validator_indices, AggregatedAttestation, AttestationData,
    SignedAggregatedAttestation, SignedAttestation, XmssSignature,
};
use ethlambda::block::{
    AggregatedSignatureProof, Block, BlockBody, BlockHeader, BlockSignatures, SignedBlock,
};
use ethlambda::checkpoint::Checkpoint;
use ethlambda::encoding::bits::{decode_bits, encode_bits, raw_bits};
use ethlambda::encoding::container::{join, split};
use ethlambda::encoding::list::{decode_list, encode_list};
use ethlambda::encoding::Ssz;
use ethlambda::hash_root::TreeHash;
use ethlambda::primitives::{compare_bytes, from_be, from_le, same_bytes, to_be, to_le, Order, H256};
use ethlambda::state::{ChainConfig, State, Validator};
use ssz_types::typenum::{U1048576, U1073741824, U262144, U4096};

fn checkpoint(n: u8) -> Checkpoint {
    Checkpoint { root: H256([n; 32]), slot: n as u64 * 1000 }
}

fn data() -> AttestationData {
    AttestationData {
        slot: 0x0102030405060708,
        head: checkpoint(1),
        target: checkpoint(2),
        source: checkpoint(3),
    }
}

fn votes() -> Vec<bool> {
    vec![true, false, false, true, true, false, false, false, false, true]
}

fn attestation() -> AggregatedAttestation {
    AggregatedAttestation { aggregation_bits: bits_from_vec(&votes()), data: data() }
}

fn block() -> Block {
    Block {
        slot: 7,
        proposer_index: 2,
        parent_root: H256([4; 32]),
        state_root: H256([5; 32]),
        body: BlockBody { attestations: vec![attestation(), attestation()] },
    }
}

fn a_proof(n: u8) -> AggregatedSignatureProof {
    AggregatedSignatureProof::new(bits_from_vec(&votes()), vec![n; n as usize])
}

fn signed_block() -> SignedBlock {
    SignedBlock {
        message: block(),
        signature: BlockSignatures {
            attestation_signatures: vec![a_proof(3), a_proof(5)],
            proposer_signature: XmssSignature::new(vec![8; 3112]).unwrap(),
        },
    }
}

fn state() -> State {
    State {
        config: ChainConfig { genesis_time: 12 },
        slot: 9,
        latest_block_header: block().header(),
        latest_justified: checkpoint(1),
        latest_finalized: checkpoint(2),
        historical_block_hashes: vec![H256([1; 32]), H256([2; 32]), H256([3; 32])],
        justified_slots: votes(),
        validators: vec![
            Validator { attestation_pubkey: [1; 52], proposal_pubkey: [2; 52], index: 0 },
            Validator { attestation_pubkey: [3; 52], proposal_pubkey: [4; 52], index: 1 },
        ],
        justifications_roots: vec![H256([9; 32])],
        justifications_validators: vec![true; 17],
    }
}

fn cat(parts: &[&[u8]]) -> Vec<u8> {
    parts.concat()
}

fn le4(n: usize) -> [u8; 4] {
    (n as u32).to_le_bytes()
}

// ============ Encodings ============

#[test]
fn integers_are_written_in_both_orders() {
    assert_eq!(to_le(0x0102, 8), vec![2, 1, 0, 0, 0, 0, 0, 0]);
    assert_eq!(to_le(0x0102, 1), vec![2]);
    assert_eq!(to_be(0x0102), vec![0, 0, 0, 0, 0, 0, 1, 2]);
    for x in [0, 1, 255, 256, u64::MAX] {
        assert_eq!(to_le(x, 8), x.to_le_bytes().to_vec());
        assert_eq!(to_be(x), x.to_be_bytes().to_vec());
        assert_eq!(from_le(&x.to_le_bytes()), x);
        assert_eq!(from_be(&x.to_be_bytes()), x);
        assert_eq!(Ssz::as_ssz_bytes(&x), ssz::Encode::as_ssz_bytes(&x));
    }
    assert!(<u64 as Ssz>::from_ssz_bytes(&[0; 7]).is_err());
    assert!(<u64 as Ssz>::from_ssz_bytes(&[0; 9]).is_err());
    assert!(H256::from_ssz_bytes(&[0; 31]).is_err());
    assert_eq!(H256::from_ssz_bytes(&[6; 32]).unwrap(), H256([6; 32]));
}

#[test]
fn bytes_are_compared_in_order() {
    assert!(matches!(compare_bytes(b"ab", b"abc"), Order::Before));
    assert!(matches!(compare_bytes(b"b", b"abc"), Order::After));
    assert!(matches!(compare_bytes(b"abc", b"abc"), Order::Same));
    assert!(same_bytes(b"", b""));
    assert!(!same_bytes(b"a", b""));
}

#[test]
fn fixed_containers_are_concatenated() {
    let c = checkpoint(1);
    let bytes = c.as_ssz_bytes();
    assert_eq!(bytes, cat(&[&[1; 32], &1000u64.to_le_bytes()]));
    assert_eq!(Checkpoint::from_ssz_bytes(&bytes).unwrap(), c);
    assert_eq!(Checkpoint::ssz_size(), Some(40));
    assert!(Checkpoint::from_ssz_bytes(&bytes[1..]).is_err());

    let d = data();
    let bytes = d.as_ssz_bytes();
    assert_eq!(
        bytes,
        cat(&[
            &d.slot.to_le_bytes(),
            &d.head.as_ssz_bytes(),
            &d.target.as_ssz_bytes(),
            &d.source.as_ssz_bytes(),
        ])
    );
    assert_eq!(bytes.len(), 128);
    assert_eq!(AttestationData::from_ssz_bytes(&bytes).unwrap(), d);

    let h = block().header();
    let bytes = h.as_ssz_bytes();
    assert_eq!(bytes.len(), 112);
    assert_eq!(&bytes[..16], cat(&[&7u64.to_le_bytes(), &2u64.to_le_bytes()]));
    assert_eq!(BlockHeader::from_ssz_bytes(&bytes).unwrap(), h);
}

#[test]
fn variable_parts_are_reached_by_offsets() {
    let a = attestation();
    let bits = ssz::Encode::as_ssz_bytes(&a.aggregation_bits);
    let bytes = a.as_ssz_bytes();
    assert_eq!(bytes, cat(&[&le4(132), &data().as_ssz_bytes(), &bits]));
    let read = AggregatedAttestation::from_ssz_bytes(&bytes).unwrap();
    assert_eq!(bits_to_vec(&read.aggregation_bits), votes());
    assert_eq!(read.data, data());

    // the list of attestations, each reached by its own offset
    let body = block().body;
    let list = cat(&[&le4(8), &le4(8 + bytes.len()), &bytes, &bytes]);
    assert_eq!(body.as_ssz_bytes(), cat(&[&le4(4), &list]));
    let b = block();
    assert_eq!(
        b.as_ssz_bytes(),
        cat(&[
            &7u64.to_le_bytes(),
            &2u64.to_le_bytes(),
            &[4; 32],
            &[5; 32],
            &le4(84),
            &body.as_ssz_bytes(),
        ])
    );

    let p = a_proof(3);
    assert_eq!(
        p.as_ssz_bytes(),
        cat(&[&le4(8), &le4(8 + bits.len()), &bits, &[3, 3, 3]])
    );
    assert_eq!(p.participant_indices(), vec![0, 3, 4, 9]);
    assert_eq!(validator_indices(&p.participants), vec![0, 3, 4, 9]);

    let s = signed_block();
    let bytes = s.as_ssz_bytes();
    assert_eq!(&bytes[..8], cat(&[&le4(8), &le4(8 + b.as_ssz_bytes().len())]));
    let read = SignedBlock::from_ssz_bytes(&bytes).unwrap();
    assert_eq!(read.as_ssz_bytes(), bytes);
    assert_eq!(read.message.body.attestations.len(), 2);
    assert_eq!(read.signature.attestation_signatures[1].proof_data, vec![5; 5]);
    assert_eq!(read.signature.proposer_signature.bytes, vec![8; 3112]);
}

#[test]
fn malformed_offsets_are_refused() {
    let good = attestation().as_ssz_bytes();
    let with_offset = |offset: usize| {
        let mut bytes = good.clone();
        bytes[..4].copy_from_slice(&le4(offset));
        bytes
    };
    assert!(AggregatedAttestation::from_ssz_bytes(&with_offset(132)).is_ok());
    for offset in [0, 131, 133, good.len() + 1, u32::MAX as usize] {
        assert!(AggregatedAttestation::from_ssz_bytes(&with_offset(offset)).is_err());
    }
    assert!(AggregatedAttestation::from_ssz_bytes(&good[..131]).is_err());
    // no bits at all, not even the one that ends them
    assert!(AggregatedAttestation::from_ssz_bytes(&good[..132]).is_err());
    assert!(BlockBody::from_ssz_bytes(&[]).is_err());
    assert!(BlockBody::from_ssz_bytes(&le4(4)).unwrap().attestations.is_empty());
}

#[test]
fn states_keep_every_field() {
    let s = state();
    let bytes = s.as_ssz_bytes();
    let read = State::from_ssz_bytes(&bytes).unwrap();
    assert_eq!(read.as_ssz_bytes(), bytes);
    assert_eq!(read.config.genesis_time, 12);
    assert_eq!(read.slot, 9);
    assert_eq!(read.latest_block_header, s.latest_block_header);
    assert_eq!(read.latest_justified, checkpoint(1));
    assert_eq!(read.latest_finalized, checkpoint(2));
    assert_eq!(read.historical_block_hashes, s.historical_block_hashes);
    assert_eq!(read.justified_slots, votes());
    assert_eq!(read.validators[1].proposal_pubkey, [4; 52]);
    assert_eq!(read.justifications_roots, vec![H256([9; 32])]);
    assert_eq!(read.justifications_validators, vec![true; 17]);
    // 8 + 8 + 112 + 40 + 40 bytes and five offsets
    assert_eq!(&bytes[208..212], &le4(228));
}

#[test]
fn signed_votes_are_read_back() {
    let signed = SignedAttestation {
        validator_id: 4,
        data: data(),
        signature: XmssSignature::new(vec![1; 3112]).unwrap(),
    };
    let bytes = signed.as_ssz_bytes();
    assert_eq!(bytes.len(), 8 + 128 + 3112);
    assert_eq!(SignedAttestation::from_ssz_bytes(&bytes).unwrap().as_ssz_bytes(), bytes);

    let aggregated = SignedAggregatedAttestation { data: data(), proof: a_proof(9) };
    let bytes = aggregated.as_ssz_bytes();
    assert_eq!(
        bytes,
        cat(&[&data().as_ssz_bytes(), &le4(132), &a_proof(9).as_ssz_bytes()])
    );
    let read = SignedAggregatedAttestation::from_ssz_bytes(&bytes).unwrap();
    assert_eq!(read.proof.proof_data, vec![9; 9]);

    assert_eq!(XmssSignature::new(vec![1; 3]).unwrap_err(), vec![1; 3]);
    assert!(XmssSignature::from_ssz_bytes(&[0; 3113]).is_err());
}

#[test]
fn bits_agree_with_the_bit_list() {
    for n in 0..40usize {
        let flags: Vec<bool> = (0..n).map(|i| i % 3 == 0).collect();
        let list = bits_from_vec(&flags);
        let bytes = ssz::Encode::as_ssz_bytes(&list);
        assert_eq!(encode_bits(&flags), bytes);
        assert_eq!(decode_bits(&bytes, 4096).unwrap(), flags);
        assert_eq!(bits_to_vec(&list), flags);
        assert_eq!(raw_bits(&flags).len(), (n + 7) / 8);
    }
    assert!(decode_bits(&[], 4096).is_err());
    assert!(decode_bits(&[1, 0], 4096).is_err());
    assert!(decode_bits(&[0b1000], 2).is_err());
    assert_eq!(decode_bits(&[0b1000], 3).unwrap(), vec![false; 3]);
    for bytes in [vec![0u8], vec![1], vec![255], vec![0, 1], vec![7, 2], vec![7, 0], vec![]] {
        let outside =
            <ssz::BitList<U4096> as ssz::Decode>::from_ssz_bytes(&bytes).map(|l| bits_to_vec(&l));
        assert_eq!(decode_bits(&bytes, 4096).ok(), outside.ok());
    }
}

#[test]
fn lists_agree_with_the_variable_list() {
    let numbers: Vec<u64> = vec![1, 2, 3];
    let bytes = ssz::Encode::as_ssz_bytes(&numbers);
    assert_eq!(encode_list(&numbers), bytes);
    assert_eq!(decode_list::<u64>(&bytes, 3).unwrap(), numbers);
    assert!(decode_list::<u64>(&bytes, 2).is_err());
    assert!(decode_list::<u64>(&bytes[1..], 3).is_err());
    assert_eq!(decode_list::<u64>(&[], 3).unwrap(), Vec::<u64>::new());
    let bodies = vec![block().body, BlockBody::default()];
    let bytes = encode_list(&bodies);
    assert_eq!(&bytes[..4], &le4(8));
    let read = decode_list::<BlockBody>(&bytes, 2).unwrap();
    assert_eq!(read[0].attestations.len(), 2);
    assert!(read[1].attestations.is_empty());
}

#[test]
fn containers_are_split_where_they_were_joined() {
    let layout = vec![Some(2), None, Some(1), None];
    let parts = vec![vec![1, 2], vec![3, 4, 5], vec![6], vec![]];
    let bytes = join(&layout, &parts);
    assert_eq!(bytes, cat(&[&[1, 2], &le4(11), &[6], &le4(14), &[3, 4, 5]]));
    let mut encoder_bytes = Vec::new();
    let mut encoder = ssz::SszEncoder::container(&mut encoder_bytes, 11);
    encoder.append(&[1u8, 2]);
    encoder.append(&vec![3u8, 4, 5]);
    encoder.append(&6u8);
    encoder.append(&Vec::<u8>::new());
    encoder.finalize();
    assert_eq!(bytes, encoder_bytes);
    let read = split(&layout, &bytes).unwrap();
    for i in 0..4 {
        assert_eq!(read[i], parts[i].as_slice());
    }
    assert!(split(&layout, &bytes[..10]).is_err());
}

#[test]
fn blocks_within_their_limits_fit() {
    assert!(signed_block().fits());
    let mut long = signed_block();
    long.signature.attestation_signatures[0].proof_data = vec![0; 1_048_576];
    assert!(long.fits());
    long.signature.attestation_signatures[0].proof_data.push(0);
    assert!(!long.fits());
    let mut many = signed_block();
    many.message.body.attestations = (0..4096).map(|_| attestation()).collect();
    assert!(many.fits());
    many.message.body.attestations.push(attestation());
    assert!(!many.fits());
    let mut signed = signed_block();
    signed.signature.attestation_signatures = (0..4097).map(|_| a_proof(1)).collect();
    assert!(!signed.fits());
    let mut short = signed_block();
    short.signature.proposer_signature.bytes.pop();
    assert!(!short.fits());
    assert_eq!(
        signed_block().as_ssz_bytes().len(),
        3212 + 2 * (4 + 134) + (4 + 10 + 3) + (4 + 10 + 5)
    );
}

// ============ Roots ============

fn leaf(n: u64) -> [u8; 32] {
    let mut bytes = [0; 32];
    bytes[..8].copy_from_slice(&n.to_le_bytes());
    bytes
}

fn node(parts: &[[u8; 32]]) -> [u8; 32] {
    tree_hash::merkle_root(&parts.concat(), 0).0
}

fn checkpoint_root(c: &Checkpoint) -> [u8; 32] {
    node(&[c.root.0, leaf(c.slot)])
}

fn data_root(d: &AttestationData) -> [u8; 32] {
    node(&[
        leaf(d.slot),
        checkpoint_root(&d.head),
        checkpoint_root(&d.target),
        checkpoint_root(&d.source),
    ])
}

fn attestation_root() -> [u8; 32] {
    let bits = tree_hash::TreeHash::tree_hash_root(&attestation().aggregation_bits).0;
    node(&[bits, data_root(&data())])
}

fn roots_list(roots: &[[u8; 32]]) -> ssz_types::VariableList<tree_hash::Hash256, U4096> {
    ssz_types::VariableList::new(roots.iter().map(|r| tree_hash::Hash256::from(*r)).collect())
        .unwrap()
}

fn list_root(roots: &[[u8; 32]]) -> [u8; 32] {
    tree_hash::TreeHash::tree_hash_root(&roots_list(roots)).0
}

#[test]
fn small_containers_hash_their_fields() {
    assert_eq!(checkpoint(3).tree_hash_root().0, checkpoint_root(&checkpoint(3)));
    assert_eq!(data().tree_hash_root().0, data_root(&data()));
    assert_eq!(attestation().tree_hash_root().0, attestation_root());
    assert_eq!(ChainConfig { genesis_time: 5 }.tree_hash_root().0, leaf(5));
    assert_eq!(H256([4; 32]).tree_hash_root(), H256([4; 32]));
}

#[test]
fn blocks_hash_like_their_headers() {
    let b = block();
    let body = list_root(&[attestation_root(), attestation_root()]);
    assert_eq!(b.body.tree_hash_root().0, body);
    assert_eq!(BlockBody::default().tree_hash_root().0, list_root(&[]));
    let expected = node(&[leaf(7), leaf(2), [4; 32], [5; 32], body]);
    assert_eq!(b.tree_hash_root().0, expected);
    assert_eq!(b.header().tree_hash_root().0, expected);
    let made = Block::from_header_and_body(b.header(), b.body.clone());
    assert_eq!(made.as_ssz_bytes(), b.as_ssz_bytes());
}

#[test]
fn states_hash_their_lists_with_limits() {
    let s = state();
    let pubkey = |n: u8| tree_hash::merkle_root(&[n; 52], 0).0;
    let validator = |i: u64, a: u8, p: u8| node(&[pubkey(a), pubkey(p), leaf(i)]);
    let bits = |flags: &[bool]| {
        let mut list = ssz::BitList::<U262144>::with_capacity(flags.len()).unwrap();
        for (i, flag) in flags.iter().enumerate() {
            list.set(i, *flag).unwrap();
        }
        tree_hash::TreeHash::tree_hash_root(&list).0
    };
    let long_bits = {
        let mut list = ssz::BitList::<U1073741824>::with_capacity(17).unwrap();
        for i in 0..17 {
            list.set(i, true).unwrap();
        }
        tree_hash::TreeHash::tree_hash_root(&list).0
    };
    let long_list = |roots: &[H256]| {
        let list: ssz_types::VariableList<tree_hash::Hash256, U262144> =
            ssz_types::VariableList::new(
                roots.iter().map(|r| tree_hash::Hash256::from(r.0)).collect(),
            )
            .unwrap();
        tree_hash::TreeHash::tree_hash_root(&list).0
    };
    let expected = node(&[
        leaf(12),
        leaf(9),
        s.latest_block_header.tree_hash_root().0,
        checkpoint_root(&checkpoint(1)),
        checkpoint_root(&checkpoint(2)),
        long_list(&s.historical_block_hashes),
        bits(&votes()),
        list_root(&[validator(0, 1, 2), validator(1, 3, 4)]),
        long_list(&s.justifications_roots),
        long_bits,
    ]);
    assert_eq!(s.tree_hash_root().0, expected);
    assert_eq!(s.validators[0].tree_hash_root().0, validator(0, 1, 2));
    let limit = ssz_types::VariableList::<u8, U1048576>::max_len();
    assert_eq!(limit, ethlambda::block::MAX_PROOF_SIZE);
}
