//! Numbers, roots, bits and the parts of blocks.

use crate::attestation::{
    bits_from_vec, bits_to_vec, set_indices_are_the_set_bits, validator_indices, XmssSignature,
};
use crate::bindings::collections::{participation, AggregationBits};
use crate::block::{AggregatedSignatureProof, Block, BlockBody, BlockHeader, SignedBlock};
use crate::checkpoint::Checkpoint;
use crate::encoding::Ssz;
use crate::encoding::bits::{
    bit_bytes, bits_enc, decode_bits, encode_bits, lemma_bits_injective, raw_bits,
};
use crate::encoding::error::DecodeError;
use crate::encoding::list::{
    decode_list, encode_list, item_views, lemma_list_injective, list_enc, list_valid,
};
use crate::hash_root::TreeHash;
use crate::laws::roots::header_root;
use crate::laws::setup::{decimal_value, numbers_are_written_in_decimal};
use crate::primitives::{
    be_bytes, compare_bytes, from_be, from_le, le_bytes, lemma_be_value_of_bytes,
    lemma_le_bytes_len, lemma_le_value_of_bytes, lemma_pow256_values, lex_lt, same_bytes, to_be,
    to_le, zero_root, H256, Order,
};
use crate::state::array52;
use crate::text::{decimal, join_around};
use vstd::prelude::*;

verus! {

/// A value is written as its encoding, and what is read is the value with that encoding.
pub proof fn values_are_written_and_read<T: Ssz>(
    x: T,
    written: Vec<u8>,
    bytes: &[u8],
    r: Result<T, DecodeError>,
)
    ensures
        call_ensures(T::as_ssz_bytes, (&x,), written) ==> written@ == T::enc(x@),
        call_ensures(T::from_ssz_bytes, (bytes,), r) ==> {
            &&& r matches Ok(y) ==> T::enc(y@) == bytes@
            &&& T::valid(x@) && bytes@ == T::enc(x@) ==> (r matches Ok(y) && y@ == x@)
        },
{
    if call_ensures(T::from_ssz_bytes, (bytes,), r) && T::valid(x@) && bytes@ == T::enc(x@) {
        if let Ok(y) = r {
            T::enc_injective(x@, y@);
        }
    }
}

/// Integers are written and read back, lowest or highest byte first.
pub proof fn integers_are_read_back(
    x: u64,
    a: Vec<u8>,
    b: Vec<u8>,
    bytes: &[u8],
    y: u64,
)
    ensures
        call_ensures(to_le, (x, 8usize), a) && bytes@ == a@ && call_ensures(from_le, (bytes,), y)
            ==> y == x,
        call_ensures(to_be, (x,), b) && bytes@ == b@ && call_ensures(from_be, (bytes,), y) ==> y
            == x,
        call_ensures(to_le, (x, 8usize), a) && call_ensures(to_be, (x,), b) ==> a@ == b@.reverse(),
        call_ensures(to_le, (x, 8usize), a) ==> a@.len() == 8 && a@[0] == x % 256,
{
    lemma_pow256_values();
    lemma_le_value_of_bytes(x as nat, 8);
    lemma_be_value_of_bytes(x as nat, 8);
    lemma_le_bytes_len(x as nat, 8);
    assert(le_bytes(x as nat, 8)[0] == x % 256);
    lemma_reversed(x as nat, 8);
}

proof fn lemma_reversed(x: nat, n: nat)
    ensures
        le_bytes(x, n) == be_bytes(x, n).reverse(),
    decreases n,
{
    if n > 0 {
        lemma_reversed(x / 256, (n - 1) as nat);
    }
    assert(le_bytes(x, n) =~= be_bytes(x, n).reverse());
}

/// Whether texts agree on their first bytes, and the next byte of the first is lower or
/// missing.
pub open spec fn comes_before(a: Seq<u8>, b: Seq<u8>, n: int) -> bool {
    &&& 0 <= n <= a.len()
    &&& n < b.len()
    &&& forall|k: int| 0 <= k < n ==> a[k] == b[k]
    &&& n < a.len() ==> a[n] < b[n]
}

proof fn lemma_comes_before(a: Seq<u8>, b: Seq<u8>)
    ensures
        lex_lt(a, b) <==> exists|n: int| comes_before(a, b, n),
    decreases a.len(),
{
    if b.len() == 0 {
    } else if a.len() == 0 {
        assert(comes_before(a, b, 0));
    } else if a[0] != b[0] {
        if a[0] < b[0] {
            assert(comes_before(a, b, 0));
        } else if exists|n: int| comes_before(a, b, n) {
            let n = choose|n: int| comes_before(a, b, n);
            if n > 0 {
                assert(a[0] == b[0]);
            }
        }
    } else {
        let c = a.drop_first();
        let d = b.drop_first();
        lemma_comes_before(c, d);
        if exists|n: int| comes_before(c, d, n) {
            let n = choose|n: int| comes_before(c, d, n);
            assert forall|k: int| 0 <= k < n + 1 implies a[k] == b[k] by {
                if k > 0 {
                    assert(c[k - 1] == d[k - 1]);
                }
            }
            assert(comes_before(a, b, n + 1));
        }
        if exists|n: int| comes_before(a, b, n) {
            let n = choose|n: int| comes_before(a, b, n);
            assert(n > 0);
            assert forall|k: int| 0 <= k < n - 1 implies c[k] == d[k] by {
                assert(a[k + 1] == b[k + 1]);
            }
            assert(comes_before(c, d, n - 1));
        }
    }
}

/// Bytes are compared from the first on, and a text comes before those that go on after it.
pub proof fn bytes_are_ordered(a: &[u8], b: &[u8], r: Order, same: bool)
    ensures
        call_ensures(compare_bytes, (a, b), r) ==> {
            &&& r == Order::Before <==> exists|n: int| comes_before(a@, b@, n)
            &&& r == Order::After <==> exists|n: int| comes_before(b@, a@, n)
            &&& r == Order::Same <==> a@ == b@
        },
        call_ensures(same_bytes, (a, b), same) ==> (same <==> a@ == b@),
{
    lemma_comes_before(a@, b@);
    lemma_comes_before(b@, a@);
}

/// The zero root has zero bytes, and no other root is zero.
pub proof fn the_zero_root_is_zero(root: H256, zero: H256, r: bool, i: int)
    requires
        0 <= i < 32,
    ensures
        call_ensures(H256::zero, (), zero) ==> zero@[i] == 0,
        call_ensures(H256::is_zero, (&root,), r) ==> (r <==> forall|k: int|
            0 <= k < 32 ==> #[trigger] root@[k] == 0),
{
    if call_ensures(H256::is_zero, (&root,), r) {
        if forall|k: int| 0 <= k < 32 ==> #[trigger] root@[k] == 0 {
            assert(root@ =~= zero_root());
        }
    }
}

/// Roots are their bytes.
pub proof fn roots_are_their_bytes(root: H256, bytes: &[u8], r: H256, v: Vec<u8>, s: &[u8])
    ensures
        call_ensures(H256::from_slice, (bytes,), r) ==> r@ == bytes@,
        call_ensures(H256::to_vec, (&root,), v) ==> v@ == root@,
        call_ensures(H256::as_slice, (&root,), s) ==> s@ == root@,
{
}

/// Numbers are written in decimal, and may stand between texts.
pub proof fn numbers_are_written(n: u64, r: String, before: &str, after: &str, s: String)
    ensures
        call_ensures(decimal, (n,), r) ==> decimal_value(r@) == n && r@.len() > 0 && (n > 0
            ==> r@[0] != '0'),
        call_ensures(decimal, (n,), r) && call_ensures(join_around, (before, n, after), s) ==> s@
            == before@ + r@ + after@,
{
    numbers_are_written_in_decimal(n as nat);
}

/// A signature has 3112 bytes, and other bytes are handed back.
pub proof fn signatures_have_their_size(bytes: Vec<u8>, r: Result<XmssSignature, Vec<u8>>)
    requires
        call_ensures(XmssSignature::new, (bytes,), r),
    ensures
        r is Ok <==> bytes@.len() == 3112,
        r matches Ok(signature) ==> signature@ == bytes@,
        r matches Err(b) ==> b@ == bytes@,
{
}

/// The indices of validators are the places of the set bits, in ascending order.
pub proof fn indices_are_those_of_set_bits(
    bits: AggregationBits,
    proof_data: AggregatedSignatureProof,
    list: Vec<bool>,
    r: Vec<u64>,
    v: u64,
    i: int,
    j: int,
)
    requires
        call_ensures(bits_to_vec, (&bits,), list),
        call_ensures(validator_indices, (&bits,), r) || (proof_data.participants == bits
            && call_ensures(AggregatedSignatureProof::participant_indices, (&proof_data,), r)),
    ensures
        r@.contains(v) <==> v < list@.len() && list@[v as int],
        0 <= i < j < r@.len() ==> r@[i] < r@[j],
{
    set_indices_are_the_set_bits(participation(bits));
}

/// Bits are kept one for one.
pub proof fn bits_are_kept(bits: Vec<bool>, r: AggregationBits, list: Vec<bool>)
    requires
        call_ensures(bits_from_vec, (&bits,), r),
        call_ensures(bits_to_vec, (&r,), list),
    ensures
        list@ == bits@,
{
}

/// A proof is made of its parts, and an empty one has no data.
pub proof fn proofs_are_made_of_their_parts(
    participants: AggregationBits,
    data: Vec<u8>,
    a: AggregatedSignatureProof,
    b: AggregatedSignatureProof,
)
    ensures
        call_ensures(AggregatedSignatureProof::new, (participants, data), a) ==> a.participants
            == participants && a.proof_data == data,
        call_ensures(AggregatedSignatureProof::empty, (participants,), b) ==> b.participants
            == participants && b.proof_data@.len() == 0,
{
}

/// A block's header tells its fields and the root of its body, has the root of the block, and
/// gives the block back with its body.
pub proof fn headers_stand_for_blocks(
    block: Block,
    body: BlockBody,
    header: BlockHeader,
    r: Block,
)
    requires
        call_ensures(Block::header, (&block,), header),
        call_ensures(Block::from_header_and_body, (header, body), r),
    ensures
        header.slot == block@.slot,
        header.proposer_index == block@.proposer_index,
        header.parent_root@ == block@.parent_root,
        header.state_root@ == block@.state_root,
        header.body_root@ == BlockBody::root(block@.body),
        BlockHeader::root(header) == Block::root(block@),
        body@ == block@.body ==> r@ == block@,
        r@.slot == header.slot,
        r@.proposer_index == header.proposer_index,
        r@.parent_root == header.parent_root@,
        r@.state_root == header.state_root@,
        r@.body == body@,
{
    header_root(header, block@);
}

/// Bits are written eight to a byte, and lists of values as their encoding.
pub proof fn lists_are_written<T: Ssz>(bits: Vec<bool>, items: Vec<T>, a: Vec<u8>, b: Vec<u8>, c: Vec<u8>)
    ensures
        call_ensures(encode_bits, (&bits,), a) ==> a@ == bits_enc(bits@),
        call_ensures(raw_bits, (&bits,), b) ==> b@ == bit_bytes(
            bits@,
            (bits@.len() + 7) / 8,
        ),
        call_ensures(encode_list::<T>, (&items,), c) ==> c@ == list_enc::<T>(item_views(items@)),
{
}

/// Lists of values are read back as they were written.
pub proof fn lists_are_read_back<T: Ssz>(
    items: Vec<T>,
    bytes: &[u8],
    limit: usize,
    r: Result<Vec<T>, DecodeError>,
)
    requires
        call_ensures(decode_list::<T>, (bytes, limit), r),
        bytes@ == list_enc::<T>(item_views(items@)),
        items@.len() <= limit,
        forall|i: int| 0 <= i < items@.len() ==> T::valid(#[trigger] item_views(items@)[i]),
        bytes@.len() <= 0xffff_ffff,
    ensures
        r matches Ok(read) && item_views(read@) == item_views(items@),
{
    let views = item_views(items@);
    assert(list_valid::<T>(views, limit as nat));
    if let Ok(read) = r {
        lemma_list_injective::<T>(item_views(read@), views);
    } else {
        assert(list_valid::<T>(views, limit as nat) && list_enc::<T>(views) == bytes@);
    }
}

/// Bits are read back as they were written.
pub proof fn bits_are_read_back(
    bits: Seq<bool>,
    bytes: &[u8],
    limit: usize,
    r: Result<Vec<bool>, DecodeError>,
)
    requires
        call_ensures(decode_bits, (bytes, limit), r),
        bytes@ == bits_enc(bits),
        bits.len() <= limit,
    ensures
        r matches Ok(read) && read@ == bits,
{
    if let Ok(read) = r {
        lemma_bits_injective(read@, bits);
    }
}

/// Default values are empty or zero.
pub proof fn defaults_are_zero(
    a: H256,
    b: Checkpoint,
    c: BlockBody,
    d: XmssSignature,
    i: int,
)
    ensures
        call_ensures(H256::default, (), a) && 0 <= i < 32 ==> a@[i] == 0,
        call_ensures(Checkpoint::default, (), b) && 0 <= i < 32 ==> b.slot == 0 && b.root@[i] == 0,
        call_ensures(BlockBody::default, (), c) ==> c@.attestations.len() == 0,
        call_ensures(XmssSignature::default, (), d) ==> d@.len() == 3112 && (0 <= i < 3112
            ==> d@[i] == 0),
{
}

/// Copies are equal to what they are copied from.
pub proof fn copies_are_equal(
    a: XmssSignature,
    b: XmssSignature,
    c: Block,
    d: Block,
    e: SignedBlock,
    f: SignedBlock,
)
    ensures
        call_ensures(XmssSignature::clone, (&a,), b) ==> b@ == a@,
        call_ensures(Block::clone, (&c,), d) ==> d@ == c@,
        call_ensures(SignedBlock::clone, (&e,), f) ==> f@ == e@,
{
}

/// Fifty-two bytes are kept as they are.
pub proof fn public_keys_keep_their_bytes(bytes: &[u8], r: [u8; 52])
    requires
        call_ensures(array52, (bytes,), r),
    ensures
        r@ == bytes@,
{
}

} // verus!
