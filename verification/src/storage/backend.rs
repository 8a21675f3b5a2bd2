//! Storage backends and batches of writes.

use crate::ordered_map::{lists, OrderedMap};
use crate::storage::tables::{complete, empty_db, Db, Entries, Table};
use vstd::prelude::*;
use vstd::slice::slice_to_vec;

verus! {

/// A change to one table.
pub enum WriteOp {
    Put { table: Table, entries: Vec<(Vec<u8>, Vec<u8>)> },
    Delete { table: Table, keys: Vec<Vec<u8>> },
}

/// What a change says, over plain byte strings.
pub enum WriteOpView {
    Put { table: Table, entries: Seq<(Seq<u8>, Seq<u8>)> },
    Delete { table: Table, keys: Seq<Seq<u8>> },
}

/// The byte strings of entries.
pub open spec fn pair_views(entries: Seq<(Vec<u8>, Vec<u8>)>) -> Seq<(Seq<u8>, Seq<u8>)> {
    entries.map_values(|e: (Vec<u8>, Vec<u8>)| (e.0@, e.1@))
}

/// The byte strings of keys.
pub open spec fn key_views(keys: Seq<Vec<u8>>) -> Seq<Seq<u8>> {
    keys.map_values(|k: Vec<u8>| k@)
}

impl View for WriteOp {
    type V = WriteOpView;

    open spec fn view(&self) -> WriteOpView {
        match self {
            WriteOp::Put { table, entries } => WriteOpView::Put {
                table: *table,
                entries: pair_views(entries@),
            },
            WriteOp::Delete { table, keys } => WriteOpView::Delete {
                table: *table,
                keys: key_views(keys@),
            },
        }
    }
}

/// A table after entries are put into it in turn.
pub open spec fn put_all(m: Entries, entries: Seq<(Seq<u8>, Seq<u8>)>) -> Entries
    decreases entries.len(),
{
    if entries.len() == 0 {
        m
    } else {
        put_all(m, entries.drop_last()).insert(entries.last().0, entries.last().1)
    }
}

/// The change that puts one entry into a table.
pub open spec fn put_op(table: Table, key: Seq<u8>, value: Seq<u8>) -> WriteOpView {
    WriteOpView::Put { table, entries: seq![(key, value)] }
}

/// A database after a change.
pub open spec fn apply_op(db: Db, op: WriteOpView) -> Db {
    match op {
        WriteOpView::Put { table, entries } => db.insert(table, put_all(db[table], entries)),
        WriteOpView::Delete { table, keys } => db.insert(
            table,
            db[table].remove_keys(keys.to_set()),
        ),
    }
}

/// A database after changes in turn.
pub open spec fn apply_ops(db: Db, ops: Seq<WriteOpView>) -> Db
    decreases ops.len(),
{
    if ops.len() == 0 {
        db
    } else {
        apply_op(apply_ops(db, ops.drop_last()), ops.last())
    }
}

/// Changes that are written together.
pub struct WriteBatch {
    pub ops: Vec<WriteOp>,
}

impl View for WriteBatch {
    type V = Seq<WriteOpView>;

    open spec fn view(&self) -> Seq<WriteOpView> {
        self.ops@.map_values(|op: WriteOp| op@)
    }
}

impl WriteBatch {
    /// A batch without changes.
    pub fn new() -> (r: WriteBatch)
        ensures
            r@ == Seq::<WriteOpView>::empty(),
    {
        let r = WriteBatch { ops: Vec::new() };
        proof {
            assert(r@ =~= Seq::<WriteOpView>::empty());
        }
        r
    }

    /// Adds entries to put into a table.
    pub fn put_batch(&mut self, table: Table, entries: Vec<(Vec<u8>, Vec<u8>)>)
        ensures
            final(self)@ == old(self)@.push(
                WriteOpView::Put { table, entries: pair_views(entries@) },
            ),
    {
        self.ops.push(WriteOp::Put { table, entries });
        proof {
            assert(self@ =~= old(self)@.push(
                WriteOpView::Put { table, entries: pair_views(entries@) },
            ));
        }
    }

    /// Adds one entry to put into a table.
    pub fn put(&mut self, table: Table, key: Vec<u8>, value: Vec<u8>)
        ensures
            final(self)@ == old(self)@.push(put_op(table, key@, value@)),
            forall|db: Db| #[trigger]
                apply_ops(db, final(self)@) == apply_ops(db, old(self)@).insert(
                    table,
                    apply_ops(db, old(self)@)[table].insert(key@, value@),
                ),
    {
        let ghost before = self@;
        let mut entries: Vec<(Vec<u8>, Vec<u8>)> = Vec::new();
        entries.push((key, value));
        proof {
            assert(pair_views(entries@) =~= seq![(key@, value@)]);
        }
        self.put_batch(table, entries);
        proof {
            assert forall|db: Db| #[trigger]
                apply_ops(db, self@) == apply_ops(db, before).insert(
                    table,
                    apply_ops(db, before)[table].insert(key@, value@),
                ) by {
                lemma_apply_push(db, before, self@.last());
                lemma_put_one(apply_ops(db, before)[table], key@, value@);
            }
        }
    }

    /// Adds keys to delete from a table.
    pub fn delete_batch(&mut self, table: Table, keys: Vec<Vec<u8>>)
        ensures
            final(self)@ == old(self)@.push(
                WriteOpView::Delete { table, keys: key_views(keys@) },
            ),
            forall|db: Db| #[trigger]
                apply_ops(db, final(self)@) == apply_ops(db, old(self)@).insert(
                    table,
                    apply_ops(db, old(self)@)[table].remove_keys(key_views(keys@).to_set()),
                ),
    {
        let ghost before = self@;
        self.ops.push(WriteOp::Delete { table, keys });
        proof {
            assert(self@ =~= before.push(WriteOpView::Delete { table, keys: key_views(keys@) }));
            assert forall|db: Db| #[trigger]
                apply_ops(db, self@) == apply_ops(db, before).insert(
                    table,
                    apply_ops(db, before)[table].remove_keys(key_views(keys@).to_set()),
                ) by {
                lemma_apply_push(db, before, self@.last());
            }
        }
    }
}

pub proof fn lemma_apply_push(db: Db, ops: Seq<WriteOpView>, op: WriteOpView)
    ensures
        apply_ops(db, ops.push(op)) == apply_op(apply_ops(db, ops), op),
{
    assert(ops.push(op).drop_last() =~= ops);
}

pub proof fn lemma_put_one(m: Entries, key: Seq<u8>, value: Seq<u8>)
    ensures
        put_all(m, seq![(key, value)]) == m.insert(key, value),
{
    let s = seq![(key, value)];
    assert(s.drop_last() =~= Seq::<(Seq<u8>, Seq<u8>)>::empty());
    assert(put_all(m, s.drop_last()) == m);
}

/// Where the store keeps its tables.
///
/// Reading and writing do not fail: a backend that meets an error of its medium ends the
/// program.
pub trait StorageBackend: Sized {
    spec fn valid(&self) -> bool;

    /// The contents of all tables.
    spec fn db(&self) -> Db;

    /// The value of a key.
    fn get(&self, table: Table, key: &[u8]) -> (r: Option<Vec<u8>>)
        requires
            self.valid(),
        ensures
            complete(self.db()),
            match r {
                Some(v) => self.db()[table].dom().contains(key@) && v@ == self.db()[table][key@],
                None => !self.db()[table].dom().contains(key@),
            },
    ;

    /// All entries of a table, in the order of their keys.
    fn entries(&self, table: Table) -> (r: Vec<(Vec<u8>, Vec<u8>)>)
        requires
            self.valid(),
        ensures
            complete(self.db()),
            lists(
                r@.map_values(|e: (Vec<u8>, Vec<u8>)| e.0@),
                r@.map_values(|e: (Vec<u8>, Vec<u8>)| e.1@),
                self.db()[table],
            ),
    ;

    /// The number of entries of a table.
    fn count(&self, table: Table) -> (r: usize)
        requires
            self.valid(),
        ensures
            complete(self.db()),
            self.db()[table].dom().finite(),
            r == self.db()[table].dom().len(),
    ;

    /// Writes all changes of a batch.
    fn commit(&mut self, batch: WriteBatch)
        requires
            old(self).valid(),
        ensures
            final(self).valid(),
            complete(old(self).db()),
            final(self).db() == apply_ops(old(self).db(), batch@),
    ;
}

/// Tables in memory.
pub struct InMemoryBackend {
    tables: Vec<OrderedMap<Vec<u8>, Vec<u8>>>,
}

spec fn position(table: Table) -> int {
    match table {
        Table::BlockHeaders => 0,
        Table::BlockBodies => 1,
        Table::BlockSignatures => 2,
        Table::States => 3,
        Table::GossipSignatures => 4,
        Table::AttestationDataByRoot => 5,
        Table::Metadata => 6,
        Table::LiveChain => 7,
    }
}

fn table_position(table: Table) -> (r: usize)
    ensures
        r == position(table),
        r < 8,
{
    match table {
        Table::BlockHeaders => 0,
        Table::BlockBodies => 1,
        Table::BlockSignatures => 2,
        Table::States => 3,
        Table::GossipSignatures => 4,
        Table::AttestationDataByRoot => 5,
        Table::Metadata => 6,
        Table::LiveChain => 7,
    }
}

impl InMemoryBackend {
    /// A backend with empty tables.
    pub fn new() -> (r: InMemoryBackend)
        ensures
            r.valid(),
            r.db() == empty_db(),
    {
        let mut tables: Vec<OrderedMap<Vec<u8>, Vec<u8>>> = Vec::new();
        let mut i: usize = 0;
        while i < 8
            invariant
                0 <= i <= 8,
                tables@.len() == i,
                forall|k: int|
                    0 <= k < i ==> (#[trigger] tables@[k]).wf() && tables@[k]@ == Map::<
                        Seq<u8>,
                        Seq<u8>,
                    >::empty(),
            decreases 8 - i,
        {
            tables.push(OrderedMap::new());
            i = i + 1;
        }
        let r = InMemoryBackend { tables };
        proof {
            assert(r.db() =~= empty_db());
        }
        r
    }

    /// Makes one change.
    fn write(&mut self, op: WriteOp)
        requires
            old(self).valid(),
        ensures
            final(self).valid(),
            final(self).db() == apply_op(old(self).db(), op@),
    {
        let ghost before = self.db();
        match op {
            WriteOp::Put { table, entries } => {
                let p: usize = table_position(table);
                let ghost pairs = pair_views(entries@);
                let mut i: usize = 0;
                proof {
                    assert(pairs.take(0) =~= Seq::<(Seq<u8>, Seq<u8>)>::empty());
                    assert(self.db() =~= before.insert(table, put_all(before[table], pairs.take(0))));
                }
                while i < entries.len()
                    invariant
                        0 <= i <= entries@.len(),
                        p == position(table),
                        p < 8,
                        pairs == pair_views(entries@),
                        self.valid(),
                        complete(before),
                        self.db() == before.insert(
                            table,
                            put_all(before[table], pairs.take(i as int)),
                        ),
                    decreases entries@.len() - i,
                {
                    let key = slice_to_vec(entries[i].0.as_slice());
                    let value = slice_to_vec(entries[i].1.as_slice());
                    let ghost at = *self;
                    self.tables[p].insert(key, value);
                    proof {
                        assert(pairs.take(i + 1).drop_last() =~= pairs.take(i as int));
                        assert(pairs.take(i + 1).last() == (key@, value@));
                        lemma_one_table(at, *self, table);
                        assert(at.db()[table] == at.tables@[p as int]@);
                        assert(self.db() =~= before.insert(
                            table,
                            put_all(before[table], pairs.take(i + 1)),
                        ));
                    }
                    i = i + 1;
                }
                proof {
                    assert(pairs.take(i as int) =~= pairs);
                }
            },
            WriteOp::Delete { table, keys } => {
                let p: usize = table_position(table);
                let ghost ks = key_views(keys@);
                let mut i: usize = 0;
                proof {
                    assert(before[table].remove_keys(ks.take(0).to_set()) =~= before[table]);
                    assert(self.db() =~= before.insert(
                        table,
                        before[table].remove_keys(ks.take(0).to_set()),
                    ));
                }
                while i < keys.len()
                    invariant
                        0 <= i <= keys@.len(),
                        p == position(table),
                        p < 8,
                        ks == key_views(keys@),
                        self.valid(),
                        complete(before),
                        self.db() == before.insert(
                            table,
                            before[table].remove_keys(ks.take(i as int).to_set()),
                        ),
                    decreases keys@.len() - i,
                {
                    let ghost at = *self;
                    let _ = self.tables[p].remove(keys[i].as_slice());
                    proof {
                        lemma_one_table(at, *self, table);
                        assert(at.db()[table] == at.tables@[p as int]@);
                        let k = ks[i as int];
                        assert forall|x: Seq<u8>| #[trigger]
                            ks.take(i + 1).to_set().contains(x) <==> ks.take(
                                i as int,
                            ).to_set().contains(x) || x == k by {
                            if ks.take(i + 1).contains(x) {
                                let j = choose|j: int|
                                    0 <= j < i + 1 && #[trigger] ks.take(i + 1)[j] == x;
                                if j < i {
                                    assert(ks.take(i as int)[j] == x);
                                }
                            }
                            if ks.take(i as int).contains(x) {
                                let j = choose|j: int|
                                    0 <= j < i && #[trigger] ks.take(i as int)[j] == x;
                                assert(ks.take(i + 1)[j] == x);
                            }
                            assert(ks.take(i + 1)[i as int] == k);
                        }
                        assert(before[table].remove_keys(ks.take(i as int).to_set()).remove(k)
                            =~= before[table].remove_keys(ks.take(i + 1).to_set()));
                        assert(self.db() =~= before.insert(
                            table,
                            before[table].remove_keys(ks.take(i + 1).to_set()),
                        ));
                    }
                    i = i + 1;
                }
                proof {
                    assert(ks.take(i as int) =~= ks);
                }
            },
        }
    }
}

/// Changing one table changes the database in that table.
proof fn lemma_one_table(a: InMemoryBackend, b: InMemoryBackend, table: Table)
    requires
        a.valid(),
        b.tables@.len() == 8,
        forall|k: int| 0 <= k < 8 && k != position(table) ==> b.tables@[k] == a.tables@[k],
    ensures
        b.db() == a.db().insert(table, b.tables@[position(table)]@),
{
    assert(b.db() =~= a.db().insert(table, b.tables@[position(table)]@));
}

impl StorageBackend for InMemoryBackend {
    closed spec fn valid(&self) -> bool {
        self.tables@.len() == 8 && forall|k: int| 0 <= k < 8 ==> (#[trigger] self.tables@[k]).wf()
    }

    closed spec fn db(&self) -> Db {
        Map::new(|t: Table| true, |t: Table| self.tables@[position(t)]@)
    }

    fn get(&self, table: Table, key: &[u8]) -> (r: Option<Vec<u8>>) {
        match self.tables[table_position(table)].get(key) {
            Some(v) => Some(slice_to_vec(v.as_slice())),
            None => None,
        }
    }

    fn entries(&self, table: Table) -> (r: Vec<(Vec<u8>, Vec<u8>)>) {
        let t = &self.tables[table_position(table)];
        let n: usize = t.len();
        let mut out: Vec<(Vec<u8>, Vec<u8>)> = Vec::new();
        let mut i: usize = 0;
        while i < n
            invariant
                0 <= i <= n,
                t.wf(),
                n == t.keys().len(),
                out@.len() == i,
                forall|k: int|
                    0 <= k < i ==> (#[trigger] out@[k]).0@ == t.keys()[k] && out@[k].1@
                        == t.values()[k],
            decreases n - i,
        {
            let key = slice_to_vec(t.key_at(i).as_slice());
            let value = slice_to_vec(t.value_at(i).as_slice());
            out.push((key, value));
            i = i + 1;
        }
        proof {
            t.lemma_lists();
            assert(out@.map_values(|e: (Vec<u8>, Vec<u8>)| e.0@) =~= t.keys());
            assert(out@.map_values(|e: (Vec<u8>, Vec<u8>)| e.1@) =~= t.values());
        }
        out
    }

    fn count(&self, table: Table) -> (r: usize) {
        self.tables[table_position(table)].len()
    }

    fn commit(&mut self, batch: WriteBatch) {
        let ghost before = self.db();
        let ghost ops = batch@;
        let mut rest: Vec<WriteOp> = batch.ops;
        let mut queue: Vec<WriteOp> = Vec::new();
        let ghost all = rest@;
        let n: usize = rest.len();
        while rest.len() > 0
            invariant
                rest@.len() + queue@.len() == n,
                n == all.len(),
                rest@ == all.take(rest@.len() as int),
                forall|k: int| 0 <= k < queue@.len() ==> #[trigger] queue@[k] == all[n - 1 - k],
            decreases rest@.len(),
        {
            match rest.pop() {
                Some(op) => {
                    queue.push(op);
                    proof {
                        assert(rest@ =~= all.take(rest@.len() as int));
                    }
                },
                None => {},
            }
        }
        let mut i: usize = 0;
        proof {
            assert(ops.take(0) =~= Seq::<WriteOpView>::empty());
        }
        while i < n
            invariant
                0 <= i <= n,
                n == all.len(),
                queue@.len() == n - i,
                ops == all.map_values(|op: WriteOp| op@),
                forall|k: int| 0 <= k < queue@.len() ==> #[trigger] queue@[k] == all[n - 1 - k],
                self.valid(),
                self.db() == apply_ops(before, ops.take(i as int)),
            decreases n - i,
        {
            match queue.pop() {
                Some(op) => {
                    proof {
                        assert(ops.take(i + 1).drop_last() =~= ops.take(i as int));
                        assert(ops.take(i + 1).last() == op@);
                    }
                    self.write(op);
                },
                None => {},
            }
            i = i + 1;
        }
        proof {
            assert(ops.take(i as int) =~= ops);
        }
    }
}

} // verus!
