//! Stored signatures and proofs, and the buffer of aggregated payloads.

use crate::attestation::{XMSS_SIGNATURE_SIZE, XmssSignature};
use crate::block::{AggregatedSignatureProof, AggregatedSignatureProofView};
use crate::encoding::container::{slice_views, views, width_from};
use crate::encoding::list::{bytes_fault_of, item_views};
use crate::encoding::{decode_field, fault_of, DecodeError, Ssz, SszContainer};
use crate::storage::keys::SignatureKey;
use std::collections::VecDeque;
use vstd::prelude::*;
use vstd::slice::slice_to_vec;

verus! {

/// A gossip signature with the slot of the data that it signs.
#[derive(Debug)]
pub struct StoredSignature {
    pub slot: u64,
    pub signature_bytes: Vec<u8>,
}

#[verifier::ext_equal]
pub struct StoredSignatureView {
    pub slot: u64,
    pub signature_bytes: Seq<u8>,
}

impl View for StoredSignature {
    type V = StoredSignatureView;

    open spec fn view(&self) -> StoredSignatureView {
        StoredSignatureView { slot: self.slot, signature_bytes: self.signature_bytes@ }
    }
}

impl StoredSignature {
    pub fn new(slot: u64, signature: XmssSignature) -> (r: StoredSignature)
        ensures
            r@ == (StoredSignatureView { slot, signature_bytes: signature@ }),
    {
        StoredSignature { slot, signature_bytes: signature.bytes }
    }
}

impl SszContainer for StoredSignature {
    open spec fn fixed() -> Option<usize> {
        None
    }

    open spec fn layout() -> Seq<Option<usize>> {
        seq![Some(8usize), None]
    }

    open spec fn parts(v: StoredSignatureView) -> Seq<Seq<u8>> {
        seq![
            u64::enc(v.slot),
            v.signature_bytes,
        ]
    }

    open spec fn limits(v: StoredSignatureView) -> bool {
        &&& u64::valid(v.slot)
        &&& v.signature_bytes.len() <= XMSS_SIGNATURE_SIZE
    }

    open spec fn part_fault(i: int, part: Seq<u8>) -> Option<DecodeError> {
        if i == 0 {
            fault_of::<u64>(part)
        } else if i == 1 {
            bytes_fault_of(part, XMSS_SIGNATURE_SIZE)
        } else {
            None
        }
    }

    proof fn layout_fits() {
        reveal_with_fuel(width_from, 3);
    }

    proof fn parts_conform(v: StoredSignatureView) {
        u64::enc_size(v.slot);
    }

    proof fn parts_injective(a: StoredSignatureView, b: StoredSignatureView) {
        assert(Self::parts(a)[0] == Self::parts(b)[0]);
        u64::enc_injective(a.slot, b.slot);
        assert(Self::parts(a)[1] == Self::parts(b)[1]);
    }

    fn fixed_size() -> (r: Option<usize>) {
        None
    }

    fn field_layout() -> (r: Vec<Option<usize>>) {
        let r: Vec<Option<usize>> = vec![Some(8usize), None];
        proof {
            assert(r@ =~= Self::layout());
        }
        r
    }

    fn encode_parts(&self) -> (r: Vec<Vec<u8>>) {
        let mut r: Vec<Vec<u8>> = Vec::new();
        r.push(self.slot.as_ssz_bytes());
        r.push(slice_to_vec(self.signature_bytes.as_slice()));
        proof {
            assert(views(r@) =~= Self::parts(self@));
        }
        r
    }

    fn decode_parts(parts: &Vec<&[u8]>) -> (r: Result<StoredSignature, DecodeError>) {
        let ghost ps = slice_views(parts@);
        let slot = match decode_field::<u64>(parts[0]) {
            Ok(x) => x,
            Err(e) => {
                proof {
                    assert forall|v: StoredSignatureView| Self::limits(v) implies #[trigger] Self::parts(v)
                        != ps by {
                        assert(Self::parts(v)[0] == u64::enc(v.slot));
                        assert(ps[0] == parts@[0]@);
                    }
                    assert(Self::part_fault(0, ps[0]) == Some(e));
                }
                return Err(e);
            },
        };
        proof {
            assert(ps[0] == parts@[0]@);
            assert(Self::part_fault(0, ps[0]) is None);
        }
        if parts[1].len() > XMSS_SIGNATURE_SIZE {
            proof {
                assert forall|v: StoredSignatureView| Self::limits(v) implies #[trigger] Self::parts(v) != ps by {
                    assert(Self::parts(v)[1] == v.signature_bytes);
                    assert(ps[1] == parts@[1]@);
                }
                assert(ps[1] == parts@[1]@);
            }
            return Err(DecodeError::TooManyItems { items: parts[1].len(), max: XMSS_SIGNATURE_SIZE });
        }
        proof {
            assert(ps[1] == parts@[1]@);
            assert(Self::part_fault(1, ps[1]) is None);
        }
        let signature_bytes = slice_to_vec(parts[1]);
        let r = StoredSignature { slot, signature_bytes };
        proof {
            assert(Self::parts(r@) =~= ps);
        }
        Ok(r)
    }
}

/// An aggregated proof with the slot of the data that it covers.
#[derive(Debug)]
pub struct StoredAggregatedPayload {
    pub slot: u64,
    pub proof: AggregatedSignatureProof,
}

#[verifier::ext_equal]
pub struct StoredAggregatedPayloadView {
    pub slot: u64,
    pub proof: AggregatedSignatureProofView,
}

impl View for StoredAggregatedPayload {
    type V = StoredAggregatedPayloadView;

    open spec fn view(&self) -> StoredAggregatedPayloadView {
        StoredAggregatedPayloadView { slot: self.slot, proof: self.proof@ }
    }
}

impl Clone for StoredAggregatedPayload {
    fn clone(&self) -> (r: StoredAggregatedPayload)
        ensures
            r@ == self@,
    {
        StoredAggregatedPayload { slot: self.slot, proof: self.proof.clone() }
    }
}

impl SszContainer for StoredAggregatedPayload {
    open spec fn fixed() -> Option<usize> {
        None
    }

    open spec fn layout() -> Seq<Option<usize>> {
        seq![Some(8usize), None]
    }

    open spec fn parts(v: StoredAggregatedPayloadView) -> Seq<Seq<u8>> {
        seq![
            u64::enc(v.slot),
            AggregatedSignatureProof::enc(v.proof),
        ]
    }

    open spec fn limits(v: StoredAggregatedPayloadView) -> bool {
        &&& u64::valid(v.slot)
        &&& AggregatedSignatureProof::valid(v.proof)
    }

    open spec fn part_fault(i: int, part: Seq<u8>) -> Option<DecodeError> {
        if i == 0 {
            fault_of::<u64>(part)
        } else if i == 1 {
            fault_of::<AggregatedSignatureProof>(part)
        } else {
            None
        }
    }

    proof fn layout_fits() {
        reveal_with_fuel(width_from, 3);
    }

    proof fn parts_conform(v: StoredAggregatedPayloadView) {
        u64::enc_size(v.slot);
    }

    proof fn parts_injective(a: StoredAggregatedPayloadView, b: StoredAggregatedPayloadView) {
        assert(Self::parts(a)[0] == Self::parts(b)[0]);
        u64::enc_injective(a.slot, b.slot);
        assert(Self::parts(a)[1] == Self::parts(b)[1]);
        AggregatedSignatureProof::enc_injective(a.proof, b.proof);
    }

    fn fixed_size() -> (r: Option<usize>) {
        None
    }

    fn field_layout() -> (r: Vec<Option<usize>>) {
        let r: Vec<Option<usize>> = vec![Some(8usize), None];
        proof {
            assert(r@ =~= Self::layout());
        }
        r
    }

    fn encode_parts(&self) -> (r: Vec<Vec<u8>>) {
        let mut r: Vec<Vec<u8>> = Vec::new();
        r.push(self.slot.as_ssz_bytes());
        r.push(self.proof.as_ssz_bytes());
        proof {
            assert(views(r@) =~= Self::parts(self@));
        }
        r
    }

    fn decode_parts(parts: &Vec<&[u8]>) -> (r: Result<StoredAggregatedPayload, DecodeError>) {
        let ghost ps = slice_views(parts@);
        let slot = match decode_field::<u64>(parts[0]) {
            Ok(x) => x,
            Err(e) => {
                proof {
                    assert forall|v: StoredAggregatedPayloadView| Self::limits(v) implies #[trigger] Self::parts(v)
                        != ps by {
                        assert(Self::parts(v)[0] == u64::enc(v.slot));
                        assert(ps[0] == parts@[0]@);
                    }
                    assert(Self::part_fault(0, ps[0]) == Some(e));
                }
                return Err(e);
            },
        };
        proof {
            assert(ps[0] == parts@[0]@);
            assert(Self::part_fault(0, ps[0]) is None);
        }
        let proof = match decode_field::<AggregatedSignatureProof>(parts[1]) {
            Ok(x) => x,
            Err(e) => {
                proof {
                    assert forall|v: StoredAggregatedPayloadView| Self::limits(v) implies #[trigger] Self::parts(v)
                        != ps by {
                        assert(Self::parts(v)[1] == AggregatedSignatureProof::enc(v.proof));
                        assert(ps[1] == parts@[1]@);
                    }
                    assert(Self::part_fault(1, ps[1]) == Some(e));
                }
                return Err(e);
            },
        };
        proof {
            assert(ps[1] == parts@[1]@);
            assert(Self::part_fault(1, ps[1]) is None);
        }
        let r = StoredAggregatedPayload { slot, proof };
        proof {
            assert(Self::parts(r@) =~= ps);
        }
        Ok(r)
    }
}

/// An entry of the buffer.
pub type PayloadEntry = (SignatureKey, StoredAggregatedPayload);

/// What an entry stands for.
pub type PayloadEntryView = (SignatureKey, StoredAggregatedPayloadView);

/// What entries stand for.
pub open spec fn entry_views(entries: Seq<PayloadEntry>) -> Seq<PayloadEntryView> {
    entries.map_values(|e: PayloadEntry| (e.0, e.1@))
}

/// The last `n` items of a sequence, or all if there are fewer.
pub open spec fn last_n<A>(s: Seq<A>, n: nat) -> Seq<A> {
    if s.len() <= n {
        s
    } else {
        s.skip(s.len() - n)
    }
}

/// The keys of entries, each once, in the order in which they first occur.
pub open spec fn distinct_keys(entries: Seq<PayloadEntryView>) -> Seq<SignatureKey>
    decreases entries.len(),
{
    if entries.len() == 0 {
        Seq::empty()
    } else {
        let before = distinct_keys(entries.drop_last());
        if before.contains(entries.last().0) {
            before
        } else {
            before.push(entries.last().0)
        }
    }
}

/// The payloads of a key, in order.
pub open spec fn payloads_of(
    entries: Seq<PayloadEntryView>,
    key: SignatureKey,
) -> Seq<StoredAggregatedPayloadView>
    decreases entries.len(),
{
    if entries.len() == 0 {
        Seq::empty()
    } else if entries.last().0 == key {
        payloads_of(entries.drop_last(), key).push(entries.last().1)
    } else {
        payloads_of(entries.drop_last(), key)
    }
}

/// The distinct keys hold no key twice, and every key that occurs.
pub proof fn distinct_keys_are_the_keys(entries: Seq<PayloadEntryView>)
    ensures
        distinct_keys(entries).no_duplicates(),
        forall|key: SignatureKey| #[trigger]
            distinct_keys(entries).contains(key) <==> exists|i: int|
                0 <= i < entries.len() && (#[trigger] entries[i]).0 == key,
    decreases entries.len(),
{
    if entries.len() > 0 {
        let prev = entries.drop_last();
        distinct_keys_are_the_keys(prev);
        let p = distinct_keys(prev);
        let d = distinct_keys(entries);
        let last = entries.last().0;
        assert forall|key: SignatureKey| #[trigger]
            d.contains(key) <==> exists|i: int|
                0 <= i < entries.len() && (#[trigger] entries[i]).0 == key by {
            if d.contains(key) {
                if key == last {
                    assert(entries[entries.len() - 1].0 == key);
                } else {
                    let j = choose|j: int| 0 <= j < d.len() && d[j] == key;
                    assert(p[j] == key);
                    assert(p.contains(key));
                    let i = choose|i: int| 0 <= i < prev.len() && (#[trigger] prev[i]).0 == key;
                    assert(entries[i].0 == key);
                }
            }
            if exists|i: int| 0 <= i < entries.len() && (#[trigger] entries[i]).0 == key {
                let i = choose|i: int| 0 <= i < entries.len() && (#[trigger] entries[i]).0 == key;
                if i < prev.len() {
                    assert(prev[i].0 == key);
                    assert(p.contains(key));
                    let j = choose|j: int| 0 <= j < p.len() && p[j] == key;
                    assert(d[j] == key);
                } else if !p.contains(last) {
                    assert(d[p.len() as int] == key);
                }
            }
        }
    }
}

/// Pushing one entry after others keeps the same entries as pushing all at once.
pub proof fn lemma_last_n_push<A>(s: Seq<A>, items: Seq<A>, x: A, n: nat)
    requires
        n > 0,
    ensures
        last_n(last_n(s + items, n).push(x), n) == last_n(s + items.push(x), n),
{
    assert(last_n(last_n(s + items, n).push(x), n) =~= last_n(s + items.push(x), n));
}

/// First in, first out buffer of aggregated payloads with a fixed capacity.
///
/// When the buffer is full, the oldest entry makes room for the newest. This prevents
/// unbounded memory growth when finalization stalls.
pub struct PayloadBuffer {
    entries: VecDeque<PayloadEntry>,
    capacity: usize,
}

impl View for PayloadBuffer {
    type V = Seq<PayloadEntryView>;

    closed spec fn view(&self) -> Seq<PayloadEntryView> {
        entry_views(self.entries@)
    }
}

impl PayloadBuffer {
    /// How many entries the buffer can hold; there is room for one in any case.
    pub closed spec fn room(&self) -> nat {
        if self.capacity == 0 {
            1
        } else {
            self.capacity as nat
        }
    }

    /// Whether the buffer holds no more than it can.
    pub open spec fn wf(&self) -> bool {
        self@.len() <= self.room()
    }

    /// An empty buffer.
    pub fn new(capacity: usize) -> (r: PayloadBuffer)
        ensures
            r.wf(),
            r@ == Seq::<PayloadEntryView>::empty(),
            r.room() == if capacity == 0 {
                1
            } else {
                capacity as nat
            },
    {
        let r = PayloadBuffer { entries: VecDeque::new(), capacity };
        proof {
            assert(r@ =~= Seq::<PayloadEntryView>::empty());
        }
        r
    }

    /// Inserts one entry, and removes the oldest if the buffer is full.
    pub fn push(&mut self, key: SignatureKey, payload: StoredAggregatedPayload)
        requires
            old(self).wf(),
        ensures
            final(self).wf(),
            final(self).room() == old(self).room(),
            final(self)@ == last_n(old(self)@.push((key, payload@)), old(self).room()),
    {
        let ghost before = self@;
        if self.entries.len() >= self.capacity {
            let _ = self.entries.pop_front();
        }
        self.entries.push_back((key, payload));
        proof {
            assert(self@ =~= last_n(before.push((key, payload@)), old(self).room()));
        }
    }

    /// Inserts entries in turn, and removes the oldest as needed.
    pub fn push_batch(&mut self, entries: Vec<PayloadEntry>)
        requires
            old(self).wf(),
        ensures
            final(self).wf(),
            final(self).room() == old(self).room(),
            final(self)@ == last_n(old(self)@ + entry_views(entries@), old(self).room()),
    {
        let ghost before = self@;
        let ghost items = entry_views(entries@);
        let n: usize = entries.len();
        let mut i: usize = 0;
        proof {
            assert(before + items.take(0) =~= before);
        }
        while i < n
            invariant
                0 <= i <= n,
                n == entries@.len(),
                items == entry_views(entries@),
                self.wf(),
                self.room() == old(self).room(),
                self.room() > 0,
                self@ == last_n(before + items.take(i as int), self.room()),
            decreases n - i,
        {
            let key = entries[i].0;
            let payload = entries[i].1.clone();
            proof {
                lemma_last_n_push(
                    before,
                    items.take(i as int),
                    items[i as int],
                    self.room(),
                );
                assert(items.take(i as int).push(items[i as int]) =~= items.take(i + 1));
            }
            self.push(key, payload);
            i = i + 1;
        }
        proof {
            assert(items.take(i as int) =~= items);
        }
    }

    /// Takes all entries, leaving the buffer empty.
    pub fn drain(&mut self) -> (r: Vec<PayloadEntry>)
        requires
            old(self).wf(),
        ensures
            final(self).wf(),
            final(self).room() == old(self).room(),
            final(self)@ == Seq::<PayloadEntryView>::empty(),
            entry_views(r@) == old(self)@,
    {
        let ghost all = self.entries@;
        let mut out: Vec<PayloadEntry> = Vec::new();
        while self.entries.len() > 0
            invariant
                self.capacity == old(self).capacity,
                out@ + self.entries@ == all,
            decreases self.entries@.len(),
        {
            let ghost left = self.entries@;
            let ghost had = out@;
            match self.entries.pop_front() {
                Some(e) => {
                    out.push(e);
                    proof {
                        assert(had + left =~= out@ + self.entries@);
                    }
                },
                None => {},
            }
        }
        proof {
            assert(out@ =~= all);
            assert(self@ =~= Seq::<PayloadEntryView>::empty());
        }
        out
    }

    /// The keys, each once.
    pub fn unique_keys(&self) -> (r: Vec<SignatureKey>)
        ensures
            r@ == distinct_keys(self@),
    {
        let mut out: Vec<SignatureKey> = Vec::new();
        let ghost es = self@;
        let n: usize = self.entries.len();
        let mut i: usize = 0;
        proof {
            assert(es.take(0) =~= Seq::<PayloadEntryView>::empty());
        }
        while i < n
            invariant
                0 <= i <= n,
                n == self.entries@.len(),
                es == entry_views(self.entries@),
                out@ == distinct_keys(es.take(i as int)),
            decreases n - i,
        {
            let key = self.entries[i].0;
            proof {
                assert(es.take(i + 1).drop_last() =~= es.take(i as int));
                assert(es.take(i + 1).last().0 == key);
            }
            if find_key(&out, &key).is_none() {
                out.push(key);
            }
            i = i + 1;
        }
        proof {
            assert(es.take(i as int) =~= es);
        }
        out
    }

    /// The payloads grouped by key, in the order of insertion within each group.
    pub fn grouped(&self) -> (r: Vec<(SignatureKey, Vec<StoredAggregatedPayload>)>)
        ensures
            r@.map_values(|g: (SignatureKey, Vec<StoredAggregatedPayload>)| g.0) == distinct_keys(
                self@,
            ),
            forall|i: int|
                0 <= i < r@.len() ==> item_views((#[trigger] r@[i]).1@) == payloads_of(
                    self@,
                    r@[i].0,
                ),
    {
        let keys = self.unique_keys();
        let mut out: Vec<(SignatureKey, Vec<StoredAggregatedPayload>)> = Vec::new();
        let mut i: usize = 0;
        while i < keys.len()
            invariant
                0 <= i <= keys@.len(),
                out@.len() == i,
                forall|k: int| 0 <= k < i ==> (#[trigger] out@[k]).0 == keys@[k],
                forall|k: int|
                    0 <= k < i ==> item_views((#[trigger] out@[k]).1@) == payloads_of(
                        self@,
                        out@[k].0,
                    ),
            decreases keys@.len() - i,
        {
            let group = self.payloads(&keys[i]);
            out.push((keys[i], group));
            i = i + 1;
        }
        proof {
            assert(out@.map_values(|g: (SignatureKey, Vec<StoredAggregatedPayload>)| g.0)
                =~= keys@);
        }
        out
    }

    /// The payloads of a key, in the order of insertion.
    pub fn payloads(&self, key: &SignatureKey) -> (r: Vec<StoredAggregatedPayload>)
        ensures
            item_views(r@) == payloads_of(self@, *key),
    {
        let mut out: Vec<StoredAggregatedPayload> = Vec::new();
        let ghost es = self@;
        let n: usize = self.entries.len();
        let mut i: usize = 0;
        proof {
            assert(es.take(0) =~= Seq::<PayloadEntryView>::empty());
            assert(item_views(out@) =~= Seq::<StoredAggregatedPayloadView>::empty());
        }
        while i < n
            invariant
                0 <= i <= n,
                n == self.entries@.len(),
                es == entry_views(self.entries@),
                item_views(out@) == payloads_of(es.take(i as int), *key),
            decreases n - i,
        {
            proof {
                assert(es.take(i + 1).drop_last() =~= es.take(i as int));
                assert(es.take(i + 1).last() == (self.entries@[i as int].0, self.entries@[i as int].1@));
            }
            let own = &self.entries[i].0;
            if own.0 == key.0 && own.1 == key.1 {
                let ghost had = item_views(out@);
                let payload = self.entries[i].1.clone();
                out.push(payload);
                proof {
                    assert(item_views(out@) =~= had.push(payload@));
                }
            }
            i = i + 1;
        }
        proof {
            assert(es.take(i as int) =~= es);
        }
        out
    }

    /// The number of entries.
    pub fn len(&self) -> (r: usize)
        ensures
            r == self@.len(),
    {
        self.entries.len()
    }

    /// The slots of the entries, in the order of insertion.
    pub fn slots(&self) -> (r: Vec<u64>)
        ensures
            r@ == self@.map_values(|e: PayloadEntryView| e.1.slot),
    {
        let mut out: Vec<u64> = Vec::new();
        let mut i: usize = 0;
        while i < self.entries.len()
            invariant
                0 <= i <= self.entries@.len(),
                out@.len() == i,
                forall|k: int| 0 <= k < i ==> #[trigger] out@[k] == self.entries@[k].1.slot,
            decreases self.entries@.len() - i,
        {
            out.push(self.entries[i].1.slot);
            i = i + 1;
        }
        proof {
            assert(out@ =~= self@.map_values(|e: PayloadEntryView| e.1.slot));
        }
        out
    }
}

/// Where a key stands in a list.
fn find_key(keys: &Vec<SignatureKey>, key: &SignatureKey) -> (r: Option<usize>)
    ensures
        match r {
            Some(i) => i < keys@.len() && keys@[i as int] == *key,
            None => !keys@.contains(*key),
        },
{
    let mut i: usize = 0;
    while i < keys.len()
        invariant
            0 <= i <= keys@.len(),
            forall|k: int| 0 <= k < i ==> #[trigger] keys@[k] != *key,
        decreases keys@.len() - i,
    {
        if keys[i].0 == key.0 && keys[i].1 == key.1 {
            return Some(i);
        }
        i = i + 1;
    }
    None
}

/// A buffer never grows beyond its room, and keeps the newest entries in order: entries
/// that were pushed are followed only by later ones.
pub proof fn buffer_keeps_the_newest(s: Seq<PayloadEntryView>, items: Seq<PayloadEntryView>, room: nat)
    requires
        s.len() <= room,
    ensures
        last_n(s + items, room).len() <= room,
        last_n(s + items, room) == (s + items).skip(
            (s + items).len() - last_n(s + items, room).len(),
        ),
        s.len() + items.len() <= room ==> last_n(s + items, room) == s + items,
{
    assert((s + items).skip(0) =~= s + items);
}

} // verus!
