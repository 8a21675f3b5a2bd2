//! Blocks that wait for their parents.

use crate::ordered_map::OrderedMap;
use crate::primitives::H256;
use crate::storage::model::header_at;
use crate::storage::tables::{Db, Table};
use vstd::prelude::*;

verus! {

/// Which blocks wait, and for what.
#[verifier::ext_equal]
pub struct PendingView {
    /// The waiting blocks of each parent, in the order of their arrival.
    pub children: Map<Seq<u8>, Seq<H256>>,
    /// For each waiting block an ancestor that was missing when it came.
    pub parents: Map<Seq<u8>, Seq<u8>>,
}

/// A list with a root added, unless it is there already.
pub open spec fn with_root(roots: Seq<H256>, root: H256) -> Seq<H256> {
    if roots.contains(root) {
        roots
    } else {
        roots.push(root)
    }
}

/// The waiting blocks of a parent.
pub open spec fn waiting(children: Map<Seq<u8>, Seq<H256>>, parent: Seq<u8>) -> Seq<H256> {
    if children.dom().contains(parent) {
        children[parent]
    } else {
        Seq::empty()
    }
}

/// The waiting blocks with one more for a parent.
pub open spec fn with_child(
    children: Map<Seq<u8>, Seq<H256>>,
    parent: Seq<u8>,
    child: H256,
) -> Map<Seq<u8>, Seq<H256>> {
    children.insert(parent, with_root(waiting(children, parent), child))
}

/// Whether no block waits twice for a parent.
pub open spec fn waiting_once(children: Map<Seq<u8>, Seq<H256>>) -> bool {
    forall|parent: Seq<u8>| #[trigger]
        children.dom().contains(parent) ==> children[parent].no_duplicates()
}

/// What waits after a block and its missing parent are noted.
pub open spec fn noted(p: PendingView, child: H256, parent: H256) -> PendingView {
    PendingView {
        children: with_child(p.children, parent@, child),
        parents: p.parents.insert(child@, parent@),
    }
}

/// Where links lead from a root, following at most `fuel` of them; `None` if there are more.
pub open spec fn chase(
    next: Map<Seq<u8>, Seq<u8>>,
    root: Seq<u8>,
    fuel: nat,
) -> Option<Seq<u8>>
    decreases fuel,
{
    if !next.dom().contains(root) {
        Some(root)
    } else if fuel == 0 {
        None
    } else {
        chase(next, next[root], (fuel - 1) as nat)
    }
}

/// The root after `n` links.
spec fn after(next: Map<Seq<u8>, Seq<u8>>, root: Seq<u8>, n: nat) -> Seq<u8>
    decreases n,
{
    if n == 0 {
        root
    } else {
        next[after(next, root, (n - 1) as nat)]
    }
}

proof fn lemma_after_shift(next: Map<Seq<u8>, Seq<u8>>, root: Seq<u8>, n: nat)
    requires
        n > 0,
    ensures
        after(next, root, n) == after(next, next[root], (n - 1) as nat),
    decreases n,
{
    if n > 1 {
        lemma_after_shift(next, root, (n - 1) as nat);
    } else {
        assert(after(next, root, 0) == root);
    }
}

/// Links end within `fuel` exactly if some root within reach has none.
proof fn lemma_chase_after(next: Map<Seq<u8>, Seq<u8>>, root: Seq<u8>, fuel: nat)
    ensures
        chase(next, root, fuel) is None <==> forall|i: nat|
            i <= fuel ==> next.dom().contains(#[trigger] after(next, root, i)),
        forall|e: Seq<u8>|
            chase(next, root, fuel) == Some(e) ==> exists|i: nat|
                i <= fuel && #[trigger] after(next, root, i) == e && !next.dom().contains(e)
                    && forall|j: nat|
                    j < i ==> next.dom().contains(#[trigger] after(next, root, j)),
    decreases fuel,
{
    assert(after(next, root, 0) == root);
    if next.dom().contains(root) && fuel > 0 {
        let r1 = next[root];
        let f1 = (fuel - 1) as nat;
        lemma_chase_after(next, r1, f1);
        assert forall|i: nat| 1 <= i <= fuel implies #[trigger] after(next, root, i) == after(
            next,
            r1,
            (i - 1) as nat,
        ) by {
            lemma_after_shift(next, root, i);
        }
        if chase(next, r1, f1) is None {
            assert forall|i: nat| i <= fuel implies next.dom().contains(
                #[trigger] after(next, root, i),
            ) by {
                if i > 0 {
                    assert(next.dom().contains(after(next, r1, (i - 1) as nat)));
                }
            }
        } else {
            let e = chase(next, r1, f1)->0;
            let i = choose|i: nat|
                i <= f1 && #[trigger] after(next, r1, i) == e && !next.dom().contains(e)
                    && forall|j: nat|
                    j < i ==> next.dom().contains(#[trigger] after(next, r1, j));
            assert(after(next, root, (i + 1) as nat) == e);
            assert forall|j: nat| j < i + 1 implies next.dom().contains(
                #[trigger] after(next, root, j),
            ) by {
                if j > 0 {
                    assert(next.dom().contains(after(next, r1, (j - 1) as nat)));
                }
            }
        }
    }
}

/// Equal roots lead to equal roots.
proof fn lemma_after_same(next: Map<Seq<u8>, Seq<u8>>, root: Seq<u8>, a: nat, b: nat, k: nat)
    requires
        after(next, root, a) == after(next, root, b),
    ensures
        after(next, root, a + k) == after(next, root, b + k),
    decreases k,
{
    if k > 0 {
        lemma_after_same(next, root, a, b, (k - 1) as nat);
    }
}

/// Following as many links as there are is enough: if that does not end, no number of
/// links does. Where it ends, following more changes nothing.
pub proof fn chasing_all_links_is_enough(
    next: Map<Seq<u8>, Seq<u8>>,
    root: Seq<u8>,
    fuel: nat,
)
    requires
        next.dom().finite(),
    ensures
        chase(next, root, next.dom().len()) is None ==> chase(next, root, fuel) is None,
        chase(next, root, fuel) is Some ==> chase(next, root, next.dom().len()) == chase(
            next,
            root,
            fuel,
        ),
{
    let n = next.dom().len();
    lemma_chase_after(next, root, n);
    lemma_chase_after(next, root, fuel);
    if chase(next, root, fuel) is Some {
        let e = chase(next, root, fuel)->0;
        let i = choose|i: nat|
            i <= fuel && #[trigger] after(next, root, i) == e && !next.dom().contains(e)
                && forall|j: nat| j < i ==> next.dom().contains(#[trigger] after(next, root, j));
        // the roots on the way are different keys, so there are no more of them than keys
        let way = Seq::new(i, |j: int| after(next, root, j as nat));
        assert forall|a: int, b: int| 0 <= a < b < way.len() implies way[a] != way[b] by {
            if way[a] == way[b] {
                let k = (i - b) as nat;
                lemma_after_same(next, root, a as nat, b as nat, k);
                assert(after(next, root, (a + k) as nat) == after(next, root, i));
                assert(next.dom().contains(after(next, root, (a + k) as nat)));
            }
        }
        assert(way.no_duplicates());
        way.unique_seq_to_set();
        assert forall|k: Seq<u8>| way.to_set().contains(k) implies next.dom().contains(k) by {
            let j = choose|j: int| 0 <= j < way.len() && way[j] == k;
            assert(next.dom().contains(after(next, root, j as nat)));
        }
        vstd::set_lib::lemma_len_subset(way.to_set(), next.dom());
        assert(i <= n);
        assert(!next.dom().contains(after(next, root, i)));
        if chase(next, root, n) is Some {
            let e2 = chase(next, root, n)->0;
            let i2 = choose|i2: nat|
                i2 <= n && #[trigger] after(next, root, i2) == e2 && !next.dom().contains(e2)
                    && forall|j: nat|
                    j < i2 ==> next.dom().contains(#[trigger] after(next, root, j));
            assert(i == i2) by {
                if i < i2 {
                    assert(next.dom().contains(after(next, root, i)));
                } else if i2 < i {
                    assert(next.dom().contains(after(next, root, i2)));
                }
            }
        }
    }
}

/// How the way up through stored blocks ends.
pub enum ClimbEnd {
    /// This block is not stored: it is the one to fetch.
    Missing(H256),
    /// The state of this stored block's parent is there: it can be processed.
    Ready(H256),
    /// The way does not end.
    Endless,
}

/// The way up from a root through stored blocks, noting each of them as waiting for its
/// parent, for at most `fuel` steps.
pub open spec fn climb(db: Db, p: PendingView, root: H256, fuel: nat) -> (PendingView, ClimbEnd)
    decreases fuel,
{
    match header_at(db, root@) {
        None => (p, ClimbEnd::Missing(root)),
        Some(header) => if db[Table::States].dom().contains(header.parent_root@) {
            (p, ClimbEnd::Ready(root))
        } else if fuel == 0 {
            (p, ClimbEnd::Endless)
        } else {
            climb(
                db,
                noted(p, root, header.parent_root),
                header.parent_root,
                (fuel - 1) as nat,
            )
        },
    }
}

/// The links from stored blocks without a parent state to their parents.
pub open spec fn stored_links(db: Db) -> Map<Seq<u8>, Seq<u8>> {
    Map::new(
        |k: Seq<u8>|
            header_at(db, k) is Some && !db[Table::States].dom().contains(
                header_at(db, k)->0.parent_root@,
            ),
        |k: Seq<u8>| header_at(db, k)->0.parent_root@,
    )
}

/// The way up ends exactly where the links of stored blocks end.
proof fn lemma_climb_is_chase(db: Db, p: PendingView, root: H256, fuel: nat)
    ensures
        climb(db, p, root, fuel).1 is Endless <==> chase(stored_links(db), root@, fuel) is None,
    decreases fuel,
{
    match header_at(db, root@) {
        None => {},
        Some(header) => if !db[Table::States].dom().contains(header.parent_root@) && fuel > 0 {
            lemma_climb_is_chase(
                db,
                noted(p, root, header.parent_root),
                header.parent_root,
                (fuel - 1) as nat,
            );
        },
    }
}

/// Climbing as far as there are stored headers is enough: if that does not end, no number
/// of steps does.
pub proof fn climbing_all_headers_is_enough(db: Db, p: PendingView, root: H256, fuel: nat)
    requires
        db[Table::BlockHeaders].dom().finite(),
    ensures
        climb(db, p, root, db[Table::BlockHeaders].dom().len()).1 is Endless ==> climb(
            db,
            p,
            root,
            fuel,
        ).1 is Endless,
{
    let links = stored_links(db);
    let n = db[Table::BlockHeaders].dom().len();
    assert(links.dom().subset_of(db[Table::BlockHeaders].dom()));
    vstd::set_lib::lemma_len_subset(links.dom(), db[Table::BlockHeaders].dom());
    lemma_climb_is_chase(db, p, root, n);
    lemma_climb_is_chase(db, p, root, fuel);
    if climb(db, p, root, n).1 is Endless {
        chasing_all_links_is_enough(links, root@, n);
        chasing_all_links_is_enough(links, root@, fuel);
        if chase(links, root@, fuel) is Some {
            lemma_chase_more(links, root@, links.dom().len(), n);
        }
    }
}

/// More fuel does not change where links end.
proof fn lemma_chase_more(next: Map<Seq<u8>, Seq<u8>>, root: Seq<u8>, a: nat, b: nat)
    requires
        a <= b,
        chase(next, root, a) is Some,
    ensures
        chase(next, root, b) == chase(next, root, a),
    decreases a,
{
    if next.dom().contains(root) && a > 0 {
        lemma_chase_more(next, next[root], (a - 1) as nat, (b - 1) as nat);
    }
}

/// Blocks that wait for their parents.
pub struct PendingBlocks {
    children: OrderedMap<H256, Vec<H256>>,
    parents: OrderedMap<H256, H256>,
}

impl View for PendingBlocks {
    type V = PendingView;

    closed spec fn view(&self) -> PendingView {
        PendingView { children: self.children@, parents: self.parents@ }
    }
}

impl PendingBlocks {
    /// Whether the maps are in order, and no block waits twice for a parent.
    pub closed spec fn wf(&self) -> bool {
        &&& self.children.wf()
        &&& self.parents.wf()
        &&& self.parents@.dom().finite()
        &&& waiting_once(self.children@)
    }

    /// No block waits twice for a parent.
    pub proof fn blocks_wait_once(&self)
        requires
            self.wf(),
        ensures
            waiting_once(self@.children),
    {
    }

    /// Nothing waits.
    pub fn new() -> (r: PendingBlocks)
        ensures
            r.wf(),
            r@.children == Map::<Seq<u8>, Seq<H256>>::empty(),
            r@.parents == Map::<Seq<u8>, Seq<u8>>::empty(),
    {
        PendingBlocks { children: OrderedMap::new(), parents: OrderedMap::new() }
    }

    /// Notes that a block waits for its parent.
    pub fn add_child(&mut self, parent: &H256, child: H256)
        requires
            old(self).wf(),
        ensures
            final(self).wf(),
            final(self)@ == (PendingView {
                children: with_child(old(self)@.children, parent@, child),
                parents: old(self)@.parents,
            }),
    {
        let ghost before = self.children@;
        let mut roots: Vec<H256> = match self.children.remove(parent.as_slice()) {
            Some(roots) => roots,
            None => Vec::new(),
        };
        proof {
            assert(roots@ == waiting(before, parent@));
        }
        if !has_root(&roots, &child) {
            roots.push(child);
        }
        self.children.insert(*parent, roots);
        proof {
            assert(self.children@ =~= with_child(before, parent@, child));
            let now = with_root(waiting(before, parent@), child);
            assert(now.no_duplicates());
            assert forall|k: Seq<u8>| #[trigger]
                self.children@.dom().contains(k) implies self.children@[k].no_duplicates() by {
                if k != parent@ {
                    assert(before.dom().contains(k));
                }
            }
        }
    }

    /// Notes an ancestor that a block waits for.
    pub fn set_parent(&mut self, child: &H256, ancestor: H256)
        requires
            old(self).wf(),
        ensures
            final(self).wf(),
            final(self)@ == (PendingView {
                children: old(self)@.children,
                parents: old(self)@.parents.insert(child@, ancestor@),
            }),
    {
        self.parents.insert(*child, ancestor);
    }

    /// Follows noted ancestors from a root to one that has none; `None` if they go round
    /// in a circle.
    pub fn resolve(&self, root: &H256) -> (r: Option<H256>)
        requires
            self.wf(),
        ensures
            self@.parents.dom().finite(),
            match r {
                Some(end) => chase(self@.parents, root@, self@.parents.dom().len()) == Some(end@),
                None => chase(self@.parents, root@, self@.parents.dom().len()) is None,
            },
    {
        let mut current: H256 = *root;
        let mut fuel: usize = self.parents.len();
        let ghost next = self.parents@;
        let ghost all = next.dom().len();
        loop
            invariant
                self.wf(),
                next == self.parents@,
                all == next.dom().len(),
                chase(next, root@, all) == chase(next, current@, fuel as nat),
            decreases fuel,
        {
            match self.parents.get(current.as_slice()) {
                Some(ancestor) => {
                    if fuel == 0 {
                        return None;
                    }
                    fuel = fuel - 1;
                    current = *ancestor;
                },
                None => {
                    return Some(current);
                },
            }
        }
    }

    /// Takes the blocks that wait for a parent, and forgets what they waited for.
    pub fn take_children(&mut self, parent: &H256) -> (r: Vec<H256>)
        requires
            old(self).wf(),
        ensures
            final(self).wf(),
            r@ == waiting(old(self)@.children, parent@),
            r@.no_duplicates(),
            final(self)@.children == old(self)@.children.remove(parent@),
            final(self)@.parents == old(self)@.parents.remove_keys(
                Set::new(|k: Seq<u8>| exists|i: int| 0 <= i < r@.len() && (#[trigger] r@[i])@ == k),
            ),
    {
        let ghost before = self@;
        let roots: Vec<H256> = match self.children.remove(parent.as_slice()) {
            Some(roots) => roots,
            None => Vec::new(),
        };
        let mut i: usize = 0;
        proof {
            assert(roots@ =~= waiting(before.children, parent@));
            assert(self.parents@ =~= before.parents.remove_keys(root_keys(roots@, 0)));
        }
        while i < roots.len()
            invariant
                0 <= i <= roots@.len(),
                self.wf(),
                self.children@ == before.children.remove(parent@),
                self.parents@ == before.parents.remove_keys(root_keys(roots@, i as int)),
            decreases roots@.len() - i,
        {
            let ghost had = self.parents@;
            let _ = self.parents.remove(roots[i].as_slice());
            proof {
                let key = roots@[i as int]@;
                assert(root_keys(roots@, i + 1) =~= root_keys(roots@, i as int).insert(key)) by {
                    assert forall|k: Seq<u8>| root_keys(roots@, i + 1).contains(k) <==> root_keys(
                        roots@,
                        i as int,
                    ).insert(key).contains(k) by {
                        if k == key {
                            assert(roots@[i as int]@ == k);
                        }
                    }
                }
                assert(self.parents@ =~= before.parents.remove_keys(root_keys(roots@, i + 1)));
            }
            i = i + 1;
        }
        proof {
            let all = Set::new(
                |k: Seq<u8>| exists|i: int| 0 <= i < roots@.len() && (#[trigger] roots@[i])@ == k,
            );
            assert(root_keys(roots@, i as int) =~= all);
        }
        roots
    }
}

/// The bytes of the first `n` roots.
spec fn root_keys(roots: Seq<H256>, n: int) -> Set<Seq<u8>> {
    Set::new(|k: Seq<u8>| exists|i: int| 0 <= i < n && (#[trigger] roots[i])@ == k)
}

fn has_root(roots: &Vec<H256>, root: &H256) -> (r: bool)
    ensures
        r == roots@.contains(*root),
{
    let mut i: usize = 0;
    while i < roots.len()
        invariant
            0 <= i <= roots@.len(),
            forall|k: int| 0 <= k < i ==> #[trigger] roots@[k] != *root,
        decreases roots@.len() - i,
    {
        if roots[i] == *root {
            return true;
        }
        i = i + 1;
    }
    false
}

} // verus!
