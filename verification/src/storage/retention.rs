//! Which blocks and states are old enough to be removed.

use crate::bindings::sorting::sort_newest_first;
use crate::primitives::{same_bytes, H256};
use crate::storage::backend::key_views;
use vstd::prelude::*;
use vstd::slice::slice_to_vec;

verus! {

/// ~1 day of block history at 4-second slots (86400 / 4 = 21600).
pub const BLOCKS_TO_KEEP: usize = 21_600;

/// ~1 hour of state history at 4-second slots (3600 / 4 = 900).
pub const STATES_TO_KEEP: usize = 900;

/// States are removed no later than the blocks that they belong to.
pub proof fn blocks_outlive_states()
    ensures
        BLOCKS_TO_KEEP >= STATES_TO_KEEP,
{
}

/// The roots in a list.
pub open spec fn root_set(roots: Seq<H256>) -> Set<Seq<u8>> {
    Set::new(|k: Seq<u8>| exists|i: int| 0 <= i < roots.len() && (#[trigger] roots[i])@ == k)
}

/// Whether `retained` are `keep` of the newest keys: no other key has a higher slot than
/// one of them.
pub open spec fn retains(
    slots: Map<Seq<u8>, u64>,
    keep: nat,
    retained: Set<Seq<u8>>,
) -> bool {
    &&& retained.finite()
    &&& retained.len() == keep
    &&& retained.subset_of(slots.dom())
    &&& forall|a: Seq<u8>, b: Seq<u8>| #[trigger]
        retained.contains(a) && #[trigger] slots.dom().contains(b) && !retained.contains(b)
            ==> slots[a] >= slots[b]
}

/// The keys that are neither retained nor protected.
pub open spec fn outdated(
    slots: Map<Seq<u8>, u64>,
    retained: Set<Seq<u8>>,
    protected: Set<Seq<u8>>,
) -> Set<Seq<u8>> {
    slots.dom().difference(retained).difference(protected)
}

/// The keys of entries.
pub open spec fn entry_keys(entries: Seq<(Vec<u8>, u64)>) -> Seq<Seq<u8>> {
    entries.map_values(|e: (Vec<u8>, u64)| e.0@)
}

/// Whether entries give each key of a map once, with its slot.
pub open spec fn lists_slots(entries: Seq<(Vec<u8>, u64)>, slots: Map<Seq<u8>, u64>) -> bool {
    &&& entry_keys(entries).no_duplicates()
    &&& forall|i: int|
        0 <= i < entries.len() ==> slots.dom().contains((#[trigger] entries[i]).0@)
            && slots[entries[i].0@] == entries[i].1
    &&& forall|k: Seq<u8>| #[trigger] slots.dom().contains(k) ==> entry_keys(entries).contains(k)
}

/// A map that is listed has as many keys as the list.
pub proof fn lemma_listed_slots(entries: Seq<(Vec<u8>, u64)>, slots: Map<Seq<u8>, u64>)
    requires
        lists_slots(entries, slots),
    ensures
        slots.dom().finite(),
        slots.dom().len() == entries.len(),
{
    let keys = entry_keys(entries);
    assert forall|k: Seq<u8>| keys.contains(k) implies slots.dom().contains(k) by {
        let i = choose|i: int| 0 <= i < keys.len() && keys[i] == k;
        assert(entries[i].0@ == k);
    }
    assert(slots.dom() =~= keys.to_set());
    keys.unique_seq_to_set();
}

/// Reordering keeps what the entries list.
proof fn lemma_reordered(
    a: Seq<(Vec<u8>, u64)>,
    b: Seq<(Vec<u8>, u64)>,
    slots: Map<Seq<u8>, u64>,
)
    requires
        lists_slots(a, slots),
        a.to_multiset() == b.to_multiset(),
    ensures
        lists_slots(b, slots),
        b.len() == a.len(),
{
    a.to_multiset_ensures();
    b.to_multiset_ensures();
    let ka = entry_keys(a);
    let kb = entry_keys(b);
    assert(a.no_duplicates()) by {
        assert forall|i: int, j: int|
            0 <= i < a.len() && 0 <= j < a.len() && i != j implies a[i] != a[j] by {
            assert(ka[i] != ka[j]);
        }
    }
    a.lemma_multiset_has_no_duplicates();
    b.lemma_multiset_has_no_duplicates_conv();
    assert forall|i: int| 0 <= i < b.len() implies #[trigger] a.contains(b[i]) by {
        assert(b.contains(b[i]));
        assert(b.to_multiset().count(b[i]) > 0);
        assert(a.to_multiset().count(b[i]) > 0);
    }
    assert forall|i: int| 0 <= i < a.len() implies #[trigger] b.contains(a[i]) by {
        assert(a.contains(a[i]));
        assert(a.to_multiset().count(a[i]) > 0);
        assert(b.to_multiset().count(a[i]) > 0);
    }
    assert forall|i: int, j: int|
        0 <= i < kb.len() && 0 <= j < kb.len() && i != j implies kb[i] != kb[j] by {
        if kb[i] == kb[j] {
            assert(a.contains(b[i]) && a.contains(b[j]));
            let p = choose|p: int| 0 <= p < a.len() && a[p] == b[i];
            let q = choose|q: int| 0 <= q < a.len() && a[q] == b[j];
            assert(ka[p] == ka[q]);
            assert(p == q);
        }
    }
    assert forall|i: int| 0 <= i < b.len() implies slots.dom().contains((#[trigger] b[i]).0@)
        && slots[b[i].0@] == b[i].1 by {
        assert(a.contains(b[i]));
    }
    assert forall|k: Seq<u8>| #[trigger] slots.dom().contains(k) implies kb.contains(k) by {
        let p = choose|p: int| 0 <= p < ka.len() && ka[p] == k;
        assert(b.contains(a[p]));
        let q = choose|q: int| 0 <= q < b.len() && b[q] == a[p];
        assert(kb[q] == k);
    }
}

/// Whether a root is among the protected ones.
fn is_protected(key: &[u8], protected: &[H256]) -> (r: bool)
    ensures
        r == root_set(protected@).contains(key@),
{
    let mut i: usize = 0;
    while i < protected.len()
        invariant
            0 <= i <= protected@.len(),
            forall|k: int| 0 <= k < i ==> (#[trigger] protected@[k])@ != key@,
        decreases protected@.len() - i,
    {
        if same_bytes(protected[i].as_slice(), key) {
            return true;
        }
        i = i + 1;
    }
    false
}

/// The keys that are left when `keep` of the newest and the protected ones are kept.
///
/// Entries of one slot may come in any order, so which of them are kept at the edge of
/// the window is left open.
pub(crate) fn outdated_keys(
    entries: Vec<(Vec<u8>, u64)>,
    keep: usize,
    protected: &[H256],
    Ghost(slots): Ghost<Map<Seq<u8>, u64>>,
) -> (r: Vec<Vec<u8>>)
    requires
        lists_slots(entries@, slots),
        entries@.len() > keep,
    ensures
        key_views(r@).no_duplicates(),
        exists|retained: Set<Seq<u8>>| #[trigger]
            retains(slots, keep as nat, retained) && key_views(r@).to_set() == outdated(
                slots,
                retained,
                root_set(protected@),
            ),
{
    let mut entries = entries;
    let ghost before = entries@;
    sort_newest_first(&mut entries);
    proof {
        lemma_reordered(before, entries@, slots);
    }
    let ghost keys = entry_keys(entries@);
    let ghost guarded = root_set(protected@);
    let mut out: Vec<Vec<u8>> = Vec::new();
    let mut i: usize = keep;
    proof {
        assert(key_views(out@) =~= Seq::<Seq<u8>>::empty());
    }
    while i < entries.len()
        invariant
            keep <= i <= entries@.len(),
            keys == entry_keys(entries@),
            guarded == root_set(protected@),
            keys.no_duplicates(),
            key_views(out@).no_duplicates(),
            forall|k: Seq<u8>| #[trigger]
                key_views(out@).contains(k) <==> !guarded.contains(k) && exists|j: int|
                    keep <= j < i && #[trigger] keys[j] == k,
        decreases entries@.len() - i,
    {
        let ghost had = key_views(out@);
        let ghost key = keys[i as int];
        if !is_protected(entries[i].0.as_slice(), protected) {
            out.push(slice_to_vec(entries[i].0.as_slice()));
            proof {
                let now = key_views(out@);
                assert(now =~= had.push(key));
                assert(!had.contains(key)) by {
                    if had.contains(key) {
                        let j = choose|j: int| keep <= j < i && #[trigger] keys[j] == key;
                        assert(keys[j] == keys[i as int]);
                    }
                }
                assert forall|a: int, b: int|
                    0 <= a < now.len() && 0 <= b < now.len() && a != b implies now[a]
                    != now[b] by {
                    if a == had.len() {
                        assert(had.contains(now[b]));
                    } else if b == had.len() {
                        assert(had.contains(now[a]));
                    }
                }
                assert forall|k: Seq<u8>| #[trigger]
                    now.contains(k) <==> !guarded.contains(k) && exists|j: int|
                        keep <= j < i + 1 && #[trigger] keys[j] == k by {
                    assert(now[had.len() as int] == key);
                    if now.contains(k) {
                        let a = choose|a: int| 0 <= a < now.len() && now[a] == k;
                        if a < had.len() {
                            assert(had[a] == k);
                            assert(had.contains(k));
                        } else {
                            assert(keys[i as int] == k);
                        }
                    }
                    if had.contains(k) {
                        let a = choose|a: int| 0 <= a < had.len() && had[a] == k;
                        assert(now[a] == k);
                    }
                    if !guarded.contains(k) && exists|j: int|
                        keep <= j < i + 1 && #[trigger] keys[j] == k {
                        let j = choose|j: int| keep <= j < i + 1 && #[trigger] keys[j] == k;
                        if j < i {
                            assert(had.contains(k));
                        }
                    }
                }
            }
        } else {
            proof {
                assert forall|k: Seq<u8>| #[trigger]
                    had.contains(k) <==> !guarded.contains(k) && exists|j: int|
                        keep <= j < i + 1 && #[trigger] keys[j] == k by {
                    if !guarded.contains(k) && exists|j: int|
                        keep <= j < i + 1 && #[trigger] keys[j] == k {
                        let j = choose|j: int| keep <= j < i + 1 && #[trigger] keys[j] == k;
                        assert(j != i);
                        assert(had.contains(k));
                    }
                }
            }
        }
        i = i + 1;
    }
    proof {
        let window = keys.take(keep as int);
        let retained = window.to_set();
        assert(window.no_duplicates());
        window.unique_seq_to_set();
        assert forall|a: Seq<u8>| #[trigger] retained.contains(a) implies slots.dom().contains(
            a,
        ) by {
            let p = choose|p: int| 0 <= p < window.len() && window[p] == a;
            assert(entries@[p].0@ == a);
        }
        assert forall|a: Seq<u8>, b: Seq<u8>| #[trigger]
            retained.contains(a) && #[trigger] slots.dom().contains(b) && !retained.contains(
                b,
            ) implies slots[a] >= slots[b] by {
            let p = choose|p: int| 0 <= p < window.len() && window[p] == a;
            let q = choose|q: int| 0 <= q < keys.len() && keys[q] == b;
            if q < keep {
                assert(window[q] == b);
            }
            assert(entries@[p].0@ == a && entries@[q].0@ == b);
            assert(entries@[p].1 >= entries@[q].1);
        }
        assert(retains(slots, keep as nat, retained));
        let left = outdated(slots, retained, guarded);
        assert forall|k: Seq<u8>| left.contains(k) <==> key_views(out@).contains(k) by {
            if left.contains(k) {
                let q = choose|q: int| 0 <= q < keys.len() && keys[q] == k;
                if q < keep {
                    assert(window[q] == k);
                }
                assert(keep <= q < i && keys[q] == k);
            }
            if key_views(out@).contains(k) {
                let j = choose|j: int| keep <= j < i && #[trigger] keys[j] == k;
                assert(entries@[j].0@ == k);
                if retained.contains(k) {
                    let p = choose|p: int| 0 <= p < window.len() && window[p] == k;
                    assert(keys[p] == keys[j]);
                }
            }
        }
        assert(key_views(out@).to_set() =~= left);
    }
    out
}

} // verus!
