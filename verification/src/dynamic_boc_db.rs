//! The dynamic bag-of-cells store: saves cell DAGs into the cell store with
//! duplicate suppression against the persistent store, loads cells back with
//! lazily materialized references, and keeps the process-wide cache that maps
//! each hash to its one in-memory cell.

use vstd::prelude::*;
use crate::assoc::AssocStore;
use crate::cell::Cell;
use crate::cell::CellModel;
use crate::cell::model_record;
use crate::cell::model_wf;
use crate::cell_db::CellDb;
use crate::cell_db::CellDbTransaction;
use crate::cell_id::CellId;
use crate::dynamic_boc_diff_writer::DynamicBocDiffWriter;
use crate::error::StorageError;
use crate::storage_cell::record_children;
use crate::storage_cell::storage_record;
use crate::storage_cell::StorageCell;
use crate::storage_cell::StorageCellModel;

verus! {

/// Whether `c` is a cell of the tree rooted at `m`.
pub open spec fn tree_contains(m: CellModel, c: CellModel) -> bool
    decreases m,
{
    ||| c == m
    ||| exists|i: int|
        0 <= i < m.references.len() && tree_contains(#[trigger] m.references[i], c)
}

/// Cells of the tree that share a hash share their record.
pub open spec fn tree_consistent(m: CellModel) -> bool {
    forall|c1: CellModel, c2: CellModel|
        tree_contains(m, c1) && tree_contains(m, c2) && c1.repr_hash == c2.repr_hash
            ==> model_record(c1) == model_record(c2)
}

/// No hash of the tree is among `stored`.
pub open spec fn tree_fresh(m: CellModel, stored: Set<Seq<u8>>) -> bool {
    forall|c: CellModel| tree_contains(m, c) ==> !stored.contains(c.repr_hash)
}

/// The batch that one traversal step leaves behind: nothing under a stored
/// root; otherwise the cell's own record joined with its children's batches,
/// first cell wins.
pub open spec fn save_rec_spec(
    m: CellModel,
    stored: Set<Seq<u8>>,
    w: Map<Seq<u8>, Seq<u8>>,
) -> Map<Seq<u8>, Seq<u8>>
    decreases m,
{
    if stored.contains(m.repr_hash) {
        w
    } else {
        save_children_spec(
            m.references,
            stored,
            if w.contains_key(m.repr_hash) {
                w
            } else {
                w.insert(m.repr_hash, model_record(m))
            },
        )
    }
}

/// The batch after the children are traversed left to right.
pub open spec fn save_children_spec(
    s: Seq<CellModel>,
    stored: Set<Seq<u8>>,
    w: Map<Seq<u8>, Seq<u8>>,
) -> Map<Seq<u8>, Seq<u8>>
    decreases s,
{
    if s.len() == 0 {
        w
    } else {
        save_rec_spec(s.last(), stored, save_children_spec(s.drop_last(), stored, w))
    }
}

/// The traversal only adds entries, and what it adds are records of tree
/// cells; under tree consistency every tree cell not in `stored` ends up in
/// the batch under its own record.
pub proof fn lemma_save_rec_covers(m: CellModel, stored: Set<Seq<u8>>, w: Map<Seq<u8>, Seq<u8>>)
    requires
        model_wf(m),
        tree_consistent(m),
        tree_fresh(m, stored),
        forall|c: CellModel|
            tree_contains(m, c) && #[trigger] w.contains_key(c.repr_hash) ==> w[c.repr_hash]
                == model_record(c),
    ensures
        ({
            let w2 = save_rec_spec(m, stored, w);
            &&& forall|k: Seq<u8>| #[trigger]
                w.contains_key(k) ==> w2.contains_key(k) && w2[k] == w[k]
            &&& forall|c: CellModel| #[trigger]
                tree_contains(m, c) ==> w2.contains_key(c.repr_hash) && w2[c.repr_hash]
                    == model_record(c)
            &&& forall|k: Seq<u8>| #[trigger]
                w2.contains_key(k) ==> w.contains_key(k) || (exists|c: CellModel|
                    tree_contains(m, c) && c.repr_hash == k && w2[k] == model_record(c))
        }),
    decreases m, m.references.len() + 1,
{
    assert(tree_contains(m, m));
    assert(!stored.contains(m.repr_hash));
    let w1 = if w.contains_key(m.repr_hash) {
        w
    } else {
        w.insert(m.repr_hash, model_record(m))
    };
    let w2 = save_rec_spec(m, stored, w);
    assert(w2 == save_children_spec(m.references, stored, w1));
    assert forall|c: CellModel|
        tree_contains(m, c) && #[trigger] w1.contains_key(c.repr_hash) implies w1[c.repr_hash]
        == model_record(c) by {
        if c.repr_hash == m.repr_hash {
            assert(model_record(c) == model_record(m));
        }
    }
    lemma_save_children_covers(m, m.references.len() as int, stored, w1);
    assert(m.references.take(m.references.len() as int) =~= m.references);
    assert forall|k: Seq<u8>| #[trigger] w.contains_key(k) implies w2.contains_key(k) && w2[k]
        == w[k] by {
        assert(w1.contains_key(k) && w1[k] == w[k]);
    }
    assert forall|k: Seq<u8>| #[trigger] w2.contains_key(k) implies w.contains_key(k) || (
    exists|c: CellModel| tree_contains(m, c) && c.repr_hash == k && w2[k] == model_record(c)) by {
        if !w.contains_key(k) && w1.contains_key(k) {
            assert(k == m.repr_hash && w1[k] == model_record(m));
            assert(w2[k] == w1[k]);
            assert(tree_contains(m, m) && m.repr_hash == k && w2[k] == model_record(m));
        }
    }
    assert forall|c: CellModel| #[trigger]
        tree_contains(m, c) implies w2.contains_key(c.repr_hash) && w2[c.repr_hash]
        == model_record(c) by {
        if c == m {
            assert(w1.contains_key(m.repr_hash));
        } else {
            let i = choose|i: int|
                0 <= i < m.references.len() && tree_contains(#[trigger] m.references[i], c);
            assert(tree_contains(m.references[i], c));
        }
    }
}

/// As `lemma_save_rec_covers`, for the first `upto` children in turn.
pub proof fn lemma_save_children_covers(
    m: CellModel,
    upto: int,
    stored: Set<Seq<u8>>,
    w: Map<Seq<u8>, Seq<u8>>,
)
    requires
        model_wf(m),
        tree_consistent(m),
        tree_fresh(m, stored),
        0 <= upto <= m.references.len(),
        forall|c: CellModel|
            tree_contains(m, c) && #[trigger] w.contains_key(c.repr_hash) ==> w[c.repr_hash]
                == model_record(c),
    ensures
        ({
            let w2 = save_children_spec(m.references.take(upto), stored, w);
            &&& forall|k: Seq<u8>| #[trigger]
                w.contains_key(k) ==> w2.contains_key(k) && w2[k] == w[k]
            &&& forall|i: int, c: CellModel|
                0 <= i < upto && #[trigger] tree_contains(m.references[i], c)
                    ==> w2.contains_key(c.repr_hash) && w2[c.repr_hash] == model_record(c)
            &&& forall|c: CellModel|
                tree_contains(m, c) && #[trigger] w2.contains_key(c.repr_hash)
                    ==> w2[c.repr_hash] == model_record(c)
            &&& forall|k: Seq<u8>| #[trigger]
                w2.contains_key(k) ==> w.contains_key(k) || (exists|c: CellModel|
                    tree_contains(m, c) && c.repr_hash == k && w2[k] == model_record(c))
        }),
    decreases m, upto,
{
    if upto == 0 {
        assert(m.references.take(0) =~= Seq::<CellModel>::empty());
    } else {
        lemma_save_children_covers(m, upto - 1, stored, w);
        let prefix = m.references.take(upto - 1);
        let w1 = save_children_spec(prefix, stored, w);
        let child = m.references[upto - 1];
        assert(m.references.take(upto).drop_last() =~= prefix);
        assert(m.references.take(upto).last() == child);
        let w2 = save_children_spec(m.references.take(upto), stored, w);
        assert(w2 == save_rec_spec(child, stored, w1));
        assert(tree_contains(m, child)) by {
            assert(tree_contains(child, child));
        }
        crate::cell::lemma_wf_child(m, upto - 1);
        assert(tree_consistent(child)) by {
            assert forall|c1: CellModel, c2: CellModel|
                tree_contains(child, c1) && tree_contains(child, c2) && c1.repr_hash
                    == c2.repr_hash implies model_record(c1) == model_record(c2) by {
                lemma_tree_contains_trans(m, child, c1, upto - 1);
                lemma_tree_contains_trans(m, child, c2, upto - 1);
            }
        }
        assert(tree_fresh(child, stored)) by {
            assert forall|c: CellModel| #[trigger]
                tree_contains(child, c) implies !stored.contains(c.repr_hash) by {
                lemma_tree_contains_trans(m, child, c, upto - 1);
            }
        }
        assert forall|c: CellModel|
            tree_contains(child, c) && #[trigger] w1.contains_key(c.repr_hash) implies w1[c.repr_hash]
            == model_record(c) by {
            lemma_tree_contains_trans(m, child, c, upto - 1);
        }
        lemma_save_rec_covers(child, stored, w1);
        assert forall|c: CellModel|
            tree_contains(m, c) && #[trigger] w2.contains_key(c.repr_hash) implies w2[c.repr_hash]
            == model_record(c) by {
            if w1.contains_key(c.repr_hash) {
            } else {
                let d = choose|d: CellModel|
                    tree_contains(child, d) && d.repr_hash == c.repr_hash && w2[c.repr_hash]
                        == model_record(d);
                lemma_tree_contains_trans(m, child, d, upto - 1);
                assert(model_record(d) == model_record(c));
            }
        }
        assert forall|k: Seq<u8>| #[trigger]
            w2.contains_key(k) implies w.contains_key(k) || (exists|c: CellModel|
            tree_contains(m, c) && c.repr_hash == k && w2[k] == model_record(c)) by {
            if !w.contains_key(k) {
                if w1.contains_key(k) {
                    let c = choose|c: CellModel|
                        tree_contains(m, c) && c.repr_hash == k && w1[k] == model_record(c);
                    assert(tree_contains(m, c) && c.repr_hash == k && w2[k] == model_record(c));
                } else {
                    let d = choose|d: CellModel|
                        tree_contains(child, d) && d.repr_hash == k && w2[k] == model_record(d);
                    lemma_tree_contains_trans(m, child, d, upto - 1);
                }
            }
        }
    }
}

/// Tree membership is transitive through a child.
pub proof fn lemma_tree_contains_trans(m: CellModel, child: CellModel, c: CellModel, i: int)
    requires
        0 <= i < m.references.len(),
        m.references[i] == child,
        tree_contains(child, c),
    ensures
        tree_contains(m, c),
{
}

/// Every cell of a well-formed tree is well formed.
pub proof fn lemma_tree_wf(m: CellModel, c: CellModel)
    requires
        model_wf(m),
        tree_contains(m, c),
    ensures
        model_wf(c),
    decreases m,
{
    if c != m {
        let i = choose|i: int|
            0 <= i < m.references.len() && tree_contains(#[trigger] m.references[i], c);
        crate::cell::lemma_wf_child(m, i);
        lemma_tree_wf(m.references[i], c);
    }
}

/// Each reference of a tree cell is itself a tree cell.
pub proof fn lemma_tree_contains_child(m: CellModel, c: CellModel, i: int)
    requires
        tree_contains(m, c),
        0 <= i < c.references.len(),
    ensures
        tree_contains(m, c.references[i]),
    decreases m,
{
    if c == m {
        assert(tree_contains(m.references[i], m.references[i]));
    } else {
        let j = choose|j: int|
            0 <= j < m.references.len() && tree_contains(#[trigger] m.references[j], c);
        lemma_tree_contains_child(m.references[j], c, i);
        lemma_tree_contains_trans(m, m.references[j], c.references[i], j);
    }
}

/// Law: one save of a consistent tree whose hashes are all new leaves the
/// store holding the whole DAG. Every cell of the tree sits under its own
/// hash with its own record; that record names exactly the hashes of the
/// cell's children, each of them again a cell of the tree; and every record
/// stored before is untouched. A reader that starts at the root hash and
/// follows the stored records therefore rebuilds the saved tree.
pub proof fn lemma_save_rebuilds_tree(m: CellModel, stored0: Map<Seq<u8>, Seq<u8>>)
    requires
        model_wf(m),
        tree_consistent(m),
        tree_fresh(m, stored0.dom()),
    ensures
        ({
            let s = stored0.union_prefer_right(
                save_rec_spec(m, stored0.dom(), Map::<Seq<u8>, Seq<u8>>::empty()),
            );
            &&& forall|c: CellModel| #[trigger]
                tree_contains(m, c) ==> s.contains_key(c.repr_hash) && s[c.repr_hash]
                    == model_record(c)
            &&& forall|c: CellModel| #[trigger]
                tree_contains(m, c) ==> record_children(s[c.repr_hash])
                    == crate::cell::child_hashes(c.references)
            &&& forall|c: CellModel, i: int|
                #![trigger tree_contains(m, c), c.references[i]]
                tree_contains(m, c) && 0 <= i < c.references.len() ==> tree_contains(
                    m,
                    c.references[i],
                ) && record_children(s[c.repr_hash])[i] == c.references[i].repr_hash
            &&& forall|k: Seq<u8>| #[trigger]
                stored0.contains_key(k) ==> s.contains_key(k) && s[k] == stored0[k]
        }),
{
    let w = save_rec_spec(m, stored0.dom(), Map::<Seq<u8>, Seq<u8>>::empty());
    let s = stored0.union_prefer_right(w);
    lemma_save_rec_covers(m, stored0.dom(), Map::<Seq<u8>, Seq<u8>>::empty());
    assert forall|c: CellModel| #[trigger] tree_contains(m, c) implies s.contains_key(c.repr_hash)
        && s[c.repr_hash] == model_record(c) by {
        assert(w.contains_key(c.repr_hash) && w[c.repr_hash] == model_record(c));
    }
    assert forall|c: CellModel| #[trigger] tree_contains(m, c) implies record_children(
        s[c.repr_hash],
    ) == crate::cell::child_hashes(c.references) by {
        lemma_tree_wf(m, c);
        assert forall|i: int| 0 <= i < c.references.len() implies (
        #[trigger] c.references[i]).repr_hash.len() == crate::cell_id::CELL_ID_LEN by {
            crate::cell::lemma_wf_child(c, i);
        }
        crate::storage_cell::lemma_model_record_children(c);
    }
    assert forall|c: CellModel, i: int|
        #![trigger tree_contains(m, c), c.references[i]]
        tree_contains(m, c) && 0 <= i < c.references.len() implies tree_contains(
        m,
        c.references[i],
    ) && record_children(s[c.repr_hash])[i] == c.references[i].repr_hash by {
        lemma_tree_contains_child(m, c, i);
        assert(crate::cell::child_hashes(c.references)[i] == c.references[i].repr_hash);
    }
    assert forall|k: Seq<u8>| #[trigger] stored0.contains_key(k) implies s.contains_key(k) && s[k]
        == stored0[k] by {
        if w.contains_key(k) {
            let c = choose|c: CellModel|
                tree_contains(m, c) && c.repr_hash == k && w[k] == model_record(c);
            assert(!stored0.dom().contains(k));
        }
    }
}

/// The dynamic bag-of-cells store: the persistent cell store, the in-memory
/// cell cache, and the garbage-collection generation counter.
#[derive(Debug)]
pub struct DynamicBocDb {
    db: CellDb,
    cells: AssocStore<StorageCell>,
    gc_generation: u32,
}

impl DynamicBocDb {
    /// The persistent records, by hash.
    pub closed spec fn stored(self) -> Map<Seq<u8>, Seq<u8>> {
        self.db@
    }

    /// The in-memory cells, by hash. An entry stands for a live cell some
    /// reader still holds; a cell with no holder left is evicted.
    pub closed spec fn cache(self) -> Map<Seq<u8>, StorageCell> {
        self.cells@
    }

    /// The current garbage-collection generation.
    pub closed spec fn generation(self) -> u32 {
        self.gc_generation
    }

    /// The store is well formed: the cell store is content addressed, the
    /// cache maps each hash to a well-formed cell with that very hash whose
    /// record is stored, and no cached cell is stamped past the current
    /// generation.
    pub closed spec fn wf(self) -> bool {
        &&& self.db.wf()
        &&& self.cells.wf()
        &&& forall|k: Seq<u8>| #[trigger]
            self.cells@.contains_key(k) ==> self.cells@[k].wf() && self.cells@[k]@.repr_hash == k
                && self.db@.contains_key(k) && self.db@[k] == storage_record(self.cells@[k]@)
                && self.cells@[k]@.gc_gen <= self.gc_generation
    }

    /// Every cached cell's record is still stored.
    pub proof fn lemma_cache_backed(self, k: Seq<u8>)
        requires
            self.wf(),
            self.cache().contains_key(k),
        ensures
            self.stored().contains_key(k),
            self.stored()[k] == storage_record(self.cache()[k]@),
            self.cache()[k]@.repr_hash == k,
            self.cache()[k].wf(),
    {
    }

    /// No cached cell is stamped past the current generation.
    pub proof fn lemma_cache_gen_bound(self, k: Seq<u8>)
        requires
            self.wf(),
            self.cache().contains_key(k),
        ensures
            self.cache()[k]@.gc_gen <= self.generation(),
    {
    }

    /// Constructs an empty store with an empty cache.
    pub fn in_memory() -> (r: Self)
        ensures
            r.wf(),
            r.stored() == Map::<Seq<u8>, Seq<u8>>::empty(),
            r.cache() == Map::<Seq<u8>, StorageCell>::empty(),
            r.generation() == 0,
    {
        Self::with_db(CellDb::in_memory())
    }

    /// Constructs a store over an existing cell store.
    pub fn with_db(db: CellDb) -> (r: Self)
        requires
            db.wf(),
        ensures
            r.wf(),
            r.stored() == db@,
            r.cache() == Map::<Seq<u8>, StorageCell>::empty(),
            r.generation() == 0,
    {
        DynamicBocDb { db, cells: AssocStore::new(), gc_generation: 0 }
    }

    /// Whether a record for this hash is stored.
    pub fn contains(&self, cell_id: &CellId) -> (r: bool)
        ensures
            r <==> self.stored().contains_key(cell_id@),
    {
        self.db.contains(cell_id)
    }

    /// Number of stored records.
    pub closed spec fn stored_len(self) -> nat {
        self.db.spec_len()
    }

    /// Number of stored records.
    pub fn stored_count(&self) -> (n: usize)
        ensures
            n == self.stored_len(),
    {
        self.db.len()
    }

    /// The record count equals the number of stored keys.
    pub proof fn lemma_stored_len_is_dom(self)
        requires
            self.wf(),
        ensures
            self.stored().dom().finite(),
            self.stored_len() == self.stored().dom().len(),
    {
        self.db.lemma_len_is_dom_len();
    }

    /// Whether the cache holds a live cell for this hash.
    pub fn cache_contains(&self, cell_id: &CellId) -> (r: bool)
        ensures
            r <==> self.cache().contains_key(cell_id@),
    {
        self.cells.contains(cell_id.as_slice())
    }

    /// Allocates the next garbage-collection generation.
    pub fn new_gc_generation(&mut self) -> (g: u32)
        requires
            old(self).wf(),
            old(self).generation() < u32::MAX,
        ensures
            final(self).wf(),
            g == old(self).generation() + 1,
            final(self).generation() == g,
            final(self).stored() == old(self).stored(),
            final(self).cache() == old(self).cache(),
    {
        self.gc_generation = self.gc_generation + 1;
        self.gc_generation
    }

    /// Drops the cache entry for a cell whose last in-memory holder is gone.
    pub fn evict(&mut self, cell_id: &CellId)
        requires
            old(self).wf(),
        ensures
            final(self).wf(),
            final(self).cache() == old(self).cache().remove(cell_id@),
            final(self).stored() == old(self).stored(),
            final(self).generation() == old(self).generation(),
    {
        self.cells.remove(cell_id.as_slice());
    }

    /// Saves the tree rooted at `root_cell` as a dynamic bag of cells:
    /// traverses the tree, batches every cell whose hash the store does not
    /// yet hold, applies the batch in one step, and returns the number of
    /// cells actually written — exactly the number of keys the save adds to
    /// the store. Saving a tree whose root is already stored writes
    /// nothing; saving a consistent tree none of whose hashes are stored
    /// leaves every cell of the tree stored under its own record.
    pub fn save_as_dynamic_boc(&mut self, root_cell: &Cell) -> (written_count: usize)
        requires
            old(self).wf(),
            root_cell.wf(),
        ensures
            final(self).wf(),
            final(self).cache() == old(self).cache(),
            final(self).generation() == old(self).generation(),
            written_count == final(self).stored().dom().len() - old(self).stored().dom().len(),
            final(self).stored() == old(self).stored().union_prefer_right(
                save_rec_spec(
                    root_cell.model(),
                    old(self).stored().dom(),
                    Map::<Seq<u8>, Seq<u8>>::empty(),
                ),
            ),
            forall|k: Seq<u8>| #[trigger]
                old(self).stored().contains_key(k) ==> final(self).stored().contains_key(k)
                    && final(self).stored()[k] == old(self).stored()[k],
            old(self).stored().contains_key(root_cell.model().repr_hash) ==> final(self).stored()
                == old(self).stored() && written_count == 0,
            (tree_consistent(root_cell.model()) && tree_fresh(
                root_cell.model(),
                old(self).stored().dom(),
            )) ==> forall|c: CellModel| #[trigger]
                tree_contains(root_cell.model(), c) ==> final(self).stored().contains_key(
                    c.repr_hash,
                ) && final(self).stored()[c.repr_hash] == model_record(c),
    {
        let before = self.db.len();
        let mut diff_writer = DynamicBocDiffWriter::new();
        Self::save_tree_of_cells_recursive(root_cell, &self.db, &mut diff_writer);
        diff_writer.apply(&mut self.db);
        proof {
            old(self).db.lemma_len_is_dom_len();
            self.db.lemma_len_is_dom_len();
            assert(old(self).db@.dom().subset_of(self.db@.dom())) by {
                assert forall|k: Seq<u8>| #[trigger] old(self).db@.dom().contains(
                    k,
                ) implies self.db@.dom().contains(k) by {
                    assert(!diff_writer@.contains_key(k));
                }
            }
            vstd::set_lib::lemma_len_subset(old(self).db@.dom(), self.db@.dom());
        }
        proof {
            assert forall|k: Seq<u8>| #[trigger] old(self).stored().contains_key(
                k,
            ) implies self.db@.contains_key(k) && self.db@[k] == old(self).stored()[k] by {
                assert(!diff_writer@.contains_key(k));
            }
            assert forall|k: Seq<u8>| #[trigger] self.cells@.contains_key(k) implies self.cells@[k].wf()
                && self.cells@[k]@.repr_hash == k && self.db@.contains_key(k) && self.db@[k]
                == storage_record(self.cells@[k]@) && self.cells@[k]@.gc_gen
                <= self.gc_generation by {
                assert(old(self).stored().contains_key(k));
                assert(!diff_writer@.contains_key(k));
            }
            if old(self).stored().contains_key(root_cell.model().repr_hash) {
                assert(self.db@ =~= old(self).stored());
            }
            if tree_consistent(root_cell.model()) && tree_fresh(
                root_cell.model(),
                old(self).stored().dom(),
            ) {
                lemma_save_rec_covers(
                    root_cell.model(),
                    old(self).stored().dom(),
                    Map::<Seq<u8>, Seq<u8>>::empty(),
                );
            }
        }
        let after = self.db.len();
        after - before
    }

    /// One traversal step: batch this cell unless its record is stored or
    /// already pending, then walk the children.
    fn save_tree_of_cells_recursive(
        cell: &Cell,
        cell_db: &CellDb,
        diff_writer: &mut DynamicBocDiffWriter,
    )
        requires
            cell.wf(),
            old(diff_writer).wf(),
            forall|k: Seq<u8>| #[trigger]
                old(diff_writer)@.contains_key(k) ==> !cell_db@.contains_key(k),
        ensures
            final(diff_writer).wf(),
            final(diff_writer)@ == save_rec_spec(cell.model(), cell_db@.dom(), old(diff_writer)@),
            forall|k: Seq<u8>| #[trigger]
                final(diff_writer)@.contains_key(k) ==> !cell_db@.contains_key(k),
        decreases cell.model(),
    {
        let cell_id = cell.repr_hash().clone();
        if cell_db.contains(&cell_id) {
            return;
        }
        if !diff_writer.contains(&cell_id) {
            diff_writer.add_cell(cell);
        }
        let n = cell.references_count();
        let ghost w1 = diff_writer@;
        let mut i: usize = 0;
        while i < n
            invariant
                i <= n,
                cell.wf(),
                n == cell.model().references.len(),
                diff_writer.wf(),
                forall|k: Seq<u8>| #[trigger]
                    diff_writer@.contains_key(k) ==> !cell_db@.contains_key(k),
                diff_writer@ == save_children_spec(
                    cell.model().references.take(i as int),
                    cell_db@.dom(),
                    w1,
                ),
            decreases n - i,
        {
            proof {
                assert(decreases_to!(cell.model() => cell.model().references));
                assert(decreases_to!(
                    cell.model().references => cell.model().references[i as int]));
            }
            Self::save_tree_of_cells_recursive(cell.reference(i), cell_db, diff_writer);
            proof {
                let taken = cell.model().references.take(i + 1);
                assert(taken.drop_last() =~= cell.model().references.take(i as int));
                assert(taken.last() == cell.model().references[i as int]);
            }
            i = i + 1;
        }
        proof {
            assert(cell.model().references.take(n as int) =~= cell.model().references);
        }
    }

    /// Loads a cell: a cache hit returns the one in-memory cell without
    /// touching the store; a miss reads and parses the record, installs the
    /// cell in the cache, and returns it. Fails with `KeyNotFound` exactly
    /// when the hash is neither cached nor stored.
    pub fn load_cell(&mut self, cell_id: &CellId) -> (r: Result<StorageCell, StorageError>)
        requires
            old(self).wf(),
        ensures
            final(self).wf(),
            final(self).stored() == old(self).stored(),
            final(self).generation() == old(self).generation(),
            match r {
                Ok(c) => {
                    &&& old(self).cache().contains_key(cell_id@) || old(
                        self,
                    ).stored().contains_key(cell_id@)
                    &&& c.wf()
                    &&& c@.repr_hash == cell_id@
                    &&& final(self).cache().contains_key(cell_id@)
                    &&& c@ == final(self).cache()[cell_id@]@
                    &&& if old(self).cache().contains_key(cell_id@) {
                        final(self).cache() == old(self).cache() && c@ == old(
                            self,
                        ).cache()[cell_id@]@
                    } else {
                        &&& final(self).cache().remove(cell_id@) == old(self).cache().remove(
                            cell_id@,
                        )
                        &&& c@.gc_gen == 0
                        &&& storage_record(c@) == old(self).stored()[cell_id@]
                        &&& forall|i: int|
                            0 <= i < c@.references.len() ==> !(#[trigger] c@.references[i]).loaded
                    }
                },
                Err(e) => {
                    &&& !old(self).cache().contains_key(cell_id@)
                    &&& !old(self).stored().contains_key(cell_id@)
                    &&& e == StorageError::KeyNotFound
                    &&& final(self).cache() == old(self).cache()
                },
            },
    {
        match self.cells.get(cell_id.as_slice()) {
            Some(cell) => {
                let c = cell.clone();
                Ok(c)
            },
            None => {
                match self.db.get_cell(cell_id) {
                    Ok(c) => {
                        let cached = c.clone();
                        let mut key: Vec<u8> = Vec::new();
                        crate::codec::put_bytes(&mut key, cell_id.as_slice());
                        proof {
                            assert(key@ =~= cell_id@);
                        }
                        self.cells.put(key, cached);
                        proof {
                            assert(self.cells@.remove(cell_id@) =~= old(self).cache().remove(
                                cell_id@,
                            ));
                            assert forall|k: Seq<u8>| #[trigger]
                                self.cells@.contains_key(k) implies self.cells@[k].wf()
                                && self.cells@[k]@.repr_hash == k && self.db@.contains_key(k)
                                && self.db@[k] == storage_record(self.cells@[k]@)
                                && self.cells@[k]@.gc_gen <= self.gc_generation by {
                                if k != cell_id@ {
                                    assert(old(self).cache().contains_key(k));
                                }
                            }
                        }
                        Ok(c)
                    },
                    Err(e) => Err(e),
                }
            },
        }
    }

    /// Loads the root cell of a previously stored bag of cells, with the
    /// full cache semantics of `load_cell`: a cache hit returns the one
    /// in-memory cell, a miss parses the stored record and installs it.
    pub fn load_dynamic_boc(&mut self, root_cell_id: &CellId) -> (r: Result<
        StorageCell,
        StorageError,
    >)
        requires
            old(self).wf(),
        ensures
            final(self).wf(),
            final(self).stored() == old(self).stored(),
            final(self).generation() == old(self).generation(),
            match r {
                Ok(c) => {
                    &&& old(self).cache().contains_key(root_cell_id@) || old(
                        self,
                    ).stored().contains_key(root_cell_id@)
                    &&& c.wf()
                    &&& c@.repr_hash == root_cell_id@
                    &&& final(self).cache().contains_key(root_cell_id@)
                    &&& c@ == final(self).cache()[root_cell_id@]@
                    &&& if old(self).cache().contains_key(root_cell_id@) {
                        final(self).cache() == old(self).cache() && c@ == old(
                            self,
                        ).cache()[root_cell_id@]@
                    } else {
                        &&& final(self).cache().remove(root_cell_id@) == old(
                            self,
                        ).cache().remove(root_cell_id@)
                        &&& c@.gc_gen == 0
                        &&& storage_record(c@) == old(self).stored()[root_cell_id@]
                        &&& forall|i: int|
                            0 <= i < c@.references.len() ==> !(#[trigger] c@.references[i]).loaded
                    }
                },
                Err(e) => {
                    &&& !old(self).cache().contains_key(root_cell_id@)
                    &&& !old(self).stored().contains_key(root_cell_id@)
                    &&& e == StorageError::KeyNotFound
                    &&& final(self).cache() == old(self).cache()
                },
            },
    {
        self.load_cell(root_cell_id)
    }
}


/// The hashes whose cached cell is stamped at or past generation `g`.
pub open spec fn stamped(cache: Map<Seq<u8>, StorageCell>, g: u32) -> Set<Seq<u8>> {
    Set::new(|k: Seq<u8>| cache.contains_key(k) && cache[k]@.gc_gen >= g)
}

/// Whether some id in the list holds the hash `c`.
pub open spec fn in_id_list(w: Seq<CellId>, c: Seq<u8>) -> bool {
    exists|j: int| 0 <= j < w.len() && w[j]@ == c
}

/// The hashes reachable from `roots` in at most `n` steps through stored
/// records.
pub open spec fn reachable_n(
    stored: Map<Seq<u8>, Seq<u8>>,
    roots: Set<Seq<u8>>,
    n: nat,
) -> Set<Seq<u8>>
    decreases n,
{
    if n == 0 {
        roots
    } else {
        let prev = reachable_n(stored, roots, (n - 1) as nat);
        prev.union(
            Set::new(
                |c: Seq<u8>|
                    exists|k: Seq<u8>| #[trigger]
                        prev.contains(k) && stored.contains_key(k) && record_children(
                            stored[k],
                        ).contains(c),
            ),
        )
    }
}

/// All hashes reachable from `roots` through stored records.
pub open spec fn reachable(stored: Map<Seq<u8>, Seq<u8>>, roots: Set<Seq<u8>>) -> Set<Seq<u8>> {
    Set::new(|c: Seq<u8>| exists|n: nat| reachable_n(stored, roots, n).contains(c))
}

/// The roots are reachable.
pub proof fn lemma_reachable_roots(stored: Map<Seq<u8>, Seq<u8>>, roots: Set<Seq<u8>>, r: Seq<u8>)
    requires
        roots.contains(r),
    ensures
        reachable(stored, roots).contains(r),
{
    assert(reachable_n(stored, roots, 0).contains(r));
}

/// Reachability is closed under the children of stored records.
pub proof fn lemma_reachable_step(
    stored: Map<Seq<u8>, Seq<u8>>,
    roots: Set<Seq<u8>>,
    k: Seq<u8>,
    c: Seq<u8>,
)
    requires
        reachable(stored, roots).contains(k),
        stored.contains_key(k),
        record_children(stored[k]).contains(c),
    ensures
        reachable(stored, roots).contains(c),
{
    let n = choose|n: nat| reachable_n(stored, roots, n).contains(k);
    assert(reachable_n(stored, roots, n + 1).contains(c));
}

/// The hashes reachable from `roots` in at most `n` steps through stored
/// records, never descending below a hash in `blocked`.
pub open spec fn blocked_n(
    stored: Map<Seq<u8>, Seq<u8>>,
    blocked: Set<Seq<u8>>,
    roots: Set<Seq<u8>>,
    n: nat,
) -> Set<Seq<u8>>
    decreases n,
{
    if n == 0 {
        roots
    } else {
        let prev = blocked_n(stored, blocked, roots, (n - 1) as nat);
        prev.union(
            Set::new(
                |c: Seq<u8>|
                    exists|k: Seq<u8>| #[trigger]
                        prev.contains(k) && !blocked.contains(k) && stored.contains_key(k)
                            && record_children(stored[k]).contains(c),
            ),
        )
    }
}

/// All hashes reachable from `roots` through stored records without
/// descending below a hash in `blocked`.
pub open spec fn blocked_reach(
    stored: Map<Seq<u8>, Seq<u8>>,
    blocked: Set<Seq<u8>>,
    roots: Set<Seq<u8>>,
) -> Set<Seq<u8>> {
    Set::new(|c: Seq<u8>| exists|n: nat| blocked_n(stored, blocked, roots, n).contains(c))
}

/// The roots are blocked-reachable.
pub proof fn lemma_blocked_roots(
    stored: Map<Seq<u8>, Seq<u8>>,
    blocked: Set<Seq<u8>>,
    roots: Set<Seq<u8>>,
    r: Seq<u8>,
)
    requires
        roots.contains(r),
    ensures
        blocked_reach(stored, blocked, roots).contains(r),
{
    assert(blocked_n(stored, blocked, roots, 0).contains(r));
}

/// Blocked reachability is closed under the children of stored records that
/// are not blocked.
pub proof fn lemma_blocked_step(
    stored: Map<Seq<u8>, Seq<u8>>,
    blocked: Set<Seq<u8>>,
    roots: Set<Seq<u8>>,
    k: Seq<u8>,
    c: Seq<u8>,
)
    requires
        blocked_reach(stored, blocked, roots).contains(k),
        !blocked.contains(k),
        stored.contains_key(k),
        record_children(stored[k]).contains(c),
    ensures
        blocked_reach(stored, blocked, roots).contains(c),
{
    let n = choose|n: nat| blocked_n(stored, blocked, roots, n).contains(k);
    assert(blocked_n(stored, blocked, roots, n + 1).contains(c));
}

/// Everything blocked-reachable lies in any superset of the roots that is
/// closed under the children of its unblocked stored members.
pub proof fn lemma_blocked_in_closed(
    stored: Map<Seq<u8>, Seq<u8>>,
    blocked: Set<Seq<u8>>,
    roots: Set<Seq<u8>>,
    s: Set<Seq<u8>>,
)
    requires
        roots.subset_of(s),
        forall|k: Seq<u8>, c: Seq<u8>|
            s.contains(k) && !blocked.contains(k) && stored.contains_key(k)
                && #[trigger] record_children(stored[k]).contains(c) && #[trigger] s.contains(k)
                ==> s.contains(c),
    ensures
        blocked_reach(stored, blocked, roots).subset_of(s),
{
    assert forall|c: Seq<u8>| #[trigger] blocked_reach(stored, blocked, roots).contains(
        c,
    ) implies s.contains(c) by {
        let n = choose|n: nat| blocked_n(stored, blocked, roots, n).contains(c);
        lemma_blocked_n_in_closed(stored, blocked, roots, s, n);
    }
}

/// As `lemma_blocked_in_closed`, for the n-step closure.
pub proof fn lemma_blocked_n_in_closed(
    stored: Map<Seq<u8>, Seq<u8>>,
    blocked: Set<Seq<u8>>,
    roots: Set<Seq<u8>>,
    s: Set<Seq<u8>>,
    n: nat,
)
    requires
        roots.subset_of(s),
        forall|k: Seq<u8>, c: Seq<u8>|
            s.contains(k) && !blocked.contains(k) && stored.contains_key(k)
                && #[trigger] record_children(stored[k]).contains(c) && #[trigger] s.contains(k)
                ==> s.contains(c),
    ensures
        blocked_n(stored, blocked, roots, n).subset_of(s),
    decreases n,
{
    if n > 0 {
        lemma_blocked_n_in_closed(stored, blocked, roots, s, (n - 1) as nat);
        let prev = blocked_n(stored, blocked, roots, (n - 1) as nat);
        assert forall|c: Seq<u8>| #[trigger] blocked_n(stored, blocked, roots, n).contains(
            c,
        ) implies s.contains(c) by {
            if !prev.contains(c) {
                let k = choose|k: Seq<u8>| #[trigger]
                    prev.contains(k) && !blocked.contains(k) && stored.contains_key(k)
                        && record_children(stored[k]).contains(c);
                assert(s.contains(k));
            }
        }
    }
}

/// Everything reachable lies in any children-closed superset of the roots.
pub proof fn lemma_reachable_in_closed(
    stored: Map<Seq<u8>, Seq<u8>>,
    roots: Set<Seq<u8>>,
    s: Set<Seq<u8>>,
)
    requires
        roots.subset_of(s),
        forall|k: Seq<u8>, c: Seq<u8>|
            s.contains(k) && stored.contains_key(k) && #[trigger] record_children(
                stored[k],
            ).contains(c) && #[trigger] s.contains(k) ==> s.contains(c),
    ensures
        reachable(stored, roots).subset_of(s),
{
    assert forall|c: Seq<u8>| #[trigger] reachable(stored, roots).contains(c) implies s.contains(
        c,
    ) by {
        let n = choose|n: nat| reachable_n(stored, roots, n).contains(c);
        lemma_reachable_n_in_closed(stored, roots, s, n);
    }
}

/// As `lemma_reachable_in_closed`, for the n-step closure.
pub proof fn lemma_reachable_n_in_closed(
    stored: Map<Seq<u8>, Seq<u8>>,
    roots: Set<Seq<u8>>,
    s: Set<Seq<u8>>,
    n: nat,
)
    requires
        roots.subset_of(s),
        forall|k: Seq<u8>, c: Seq<u8>|
            s.contains(k) && stored.contains_key(k) && #[trigger] record_children(
                stored[k],
            ).contains(c) && #[trigger] s.contains(k) ==> s.contains(c),
    ensures
        reachable_n(stored, roots, n).subset_of(s),
    decreases n,
{
    if n > 0 {
        lemma_reachable_n_in_closed(stored, roots, s, (n - 1) as nat);
        let prev = reachable_n(stored, roots, (n - 1) as nat);
        assert forall|c: Seq<u8>| #[trigger] reachable_n(stored, roots, n).contains(c) implies
            s.contains(c) by {
            if !prev.contains(c) {
                let k = choose|k: Seq<u8>| #[trigger]
                    prev.contains(k) && stored.contains_key(k) && record_children(
                        stored[k],
                    ).contains(c);
                assert(s.contains(k));
            }
        }
    }
}

impl DynamicBocDb {
    /// The stored key set is finite.
    pub proof fn lemma_stored_dom_finite(self)
        ensures
            self.stored().dom().finite(),
    {
        self.db.lemma_dom_finite();
    }

    /// Stamps a cached cell with a garbage-collection generation; nothing
    /// else about it changes.
    pub fn stamp_gc_gen(&mut self, cell_id: &CellId, gc_gen: u32)
        requires
            old(self).wf(),
            old(self).cache().contains_key(cell_id@),
            gc_gen <= old(self).generation(),
        ensures
            final(self).wf(),
            final(self).stored() == old(self).stored(),
            final(self).generation() == old(self).generation(),
            final(self).cache().dom() == old(self).cache().dom(),
            final(self).cache().contains_key(cell_id@),
            final(self).cache()[cell_id@]@ == (StorageCellModel {
                gc_gen,
                ..old(self).cache()[cell_id@]@
            }),
            final(self).cache().remove(cell_id@) == old(self).cache().remove(cell_id@),
    {
        let mut cell = match self.cells.get(cell_id.as_slice()) {
            Some(c) => c.clone(),
            None => {
                proof {
                    assert(false);
                }
                vstd::pervasive::unreached()
            },
        };
        cell.set_gc_gen(gc_gen);
        let mut key: Vec<u8> = Vec::new();
        crate::codec::put_bytes(&mut key, cell_id.as_slice());
        proof {
            assert(key@ =~= cell_id@);
        }
        let ghost old_cells = self.cells@;
        self.cells.put(key, cell);
        proof {
            assert(storage_record(self.cells@[cell_id@]@) == storage_record(
                old_cells[cell_id@]@,
            ));
            assert forall|k: Seq<u8>| #[trigger] self.cells@.contains_key(k) implies
                self.cells@[k].wf() && self.cells@[k]@.repr_hash == k && self.db@.contains_key(k)
                && self.db@[k] == storage_record(self.cells@[k]@) && self.cells@[k]@.gc_gen
                <= self.gc_generation by {
                if k != cell_id@ {
                    assert(old_cells.contains_key(k));
                }
            }
            assert(final(self).cache().dom() =~= old(self).cache().dom());
            assert(final(self).cache().remove(cell_id@) =~= old(self).cache().remove(cell_id@));
        }
    }

    /// Materializes child `index` of a cached cell: resolves the child's
    /// hash through the cache or the store and marks the slot loaded. A
    /// child that is already cached is returned as that very in-memory cell,
    /// without touching the store.
    pub fn load_reference(&mut self, cell_id: &CellId, index: usize) -> (r: Result<
        StorageCell,
        StorageError,
    >)
        requires
            old(self).wf(),
            old(self).cache().contains_key(cell_id@),
            index < old(self).cache()[cell_id@]@.references.len(),
        ensures
            final(self).wf(),
            final(self).stored() == old(self).stored(),
            final(self).generation() == old(self).generation(),
            ({
                let child = old(self).cache()[cell_id@]@.references[index as int].hash;
                match r {
                    Ok(c) => {
                        &&& old(self).cache().contains_key(child) || old(
                            self,
                        ).stored().contains_key(child)
                        &&& c.wf()
                        &&& c@.repr_hash == child
                        &&& final(self).cache().contains_key(child)
                        &&& old(self).cache().contains_key(child) ==> c@ == old(
                            self,
                        ).cache()[child]@
                        &&& final(self).cache().contains_key(cell_id@)
                        &&& final(self).cache()[cell_id@]@.references[index as int].loaded
                        &&& final(self).cache()[cell_id@]@.references[index as int].hash == child
                    },
                    Err(e) => {
                        &&& !old(self).cache().contains_key(child)
                        &&& !old(self).stored().contains_key(child)
                        &&& e == StorageError::KeyNotFound
                    },
                }
            }),
    {
        let child_id = match self.cells.get(cell_id.as_slice()) {
            Some(c) => c.reference_hash(index).clone(),
            None => {
                proof {
                    assert(false);
                }
                vstd::pervasive::unreached()
            },
        };
        let child = match self.load_cell(&child_id) {
            Ok(c) => c,
            Err(e) => {
                return Err(e);
            },
        };
        proof {
            let ch = old(self).cache()[cell_id@]@.references[index as int].hash;
            if !old(self).cache().contains_key(ch) {
                assert(cell_id@ != ch);
                assert(self.cells@.remove(ch) == old(self).cache().remove(ch));
                assert(self.cells@.remove(ch).contains_key(cell_id@));
                assert(self.cells@.remove(ch)[cell_id@] == old(self).cache().remove(
                    ch,
                )[cell_id@]);
            }
            assert(self.cells@.contains_key(cell_id@));
            assert(self.cells@[cell_id@] == old(self).cache()[cell_id@]);
        }
        let mut parent = match self.cells.get(cell_id.as_slice()) {
            Some(c) => c.clone(),
            None => {
                proof {
                    assert(false);
                }
                vstd::pervasive::unreached()
            },
        };
        parent.set_reference_loaded(index);
        let mut key: Vec<u8> = Vec::new();
        crate::codec::put_bytes(&mut key, cell_id.as_slice());
        proof {
            assert(key@ =~= cell_id@);
        }
        let ghost old_cells = self.cells@;
        self.cells.put(key, parent);
        proof {
            assert(crate::storage_cell::ref_hashes(self.cells@[cell_id@]@.references)
                =~= crate::storage_cell::ref_hashes(old_cells[cell_id@]@.references));
            assert(storage_record(self.cells@[cell_id@]@) == storage_record(
                old_cells[cell_id@]@,
            ));
            assert forall|k: Seq<u8>| #[trigger] self.cells@.contains_key(k) implies
                self.cells@[k].wf() && self.cells@[k]@.repr_hash == k && self.db@.contains_key(k)
                && self.db@[k] == storage_record(self.cells@[k]@) && self.cells@[k]@.gc_gen
                <= self.gc_generation by {
                if k != cell_id@ {
                    assert(old_cells.contains_key(k));
                }
            }
        }
        Ok(child)
    }

    /// Applies a batch of deletions to the cell store in one step. The
    /// batch must not name any cached cell, so live in-memory cells keep
    /// their records.
    pub fn commit_transaction(&mut self, transaction: CellDbTransaction)
        requires
            old(self).wf(),
            forall|k: Seq<u8>| #[trigger]
                transaction.delete_seq().contains(k) ==> !old(self).cache().contains_key(k),
        ensures
            final(self).wf(),
            final(self).cache() == old(self).cache(),
            final(self).generation() == old(self).generation(),
            forall|k: Seq<u8>| #[trigger]
                final(self).stored().contains_key(k) <==> (old(self).stored().contains_key(k)
                    && !transaction.delete_seq().contains(k)),
            forall|k: Seq<u8>| #[trigger]
                final(self).stored().contains_key(k) ==> final(self).stored()[k] == old(
                    self,
                ).stored()[k],
    {
        let ghost ds = transaction.delete_seq();
        self.db.commit_transaction(transaction);
        proof {
            assert forall|k: Seq<u8>| #[trigger] self.cells@.contains_key(k) implies
                self.cells@[k].wf() && self.cells@[k]@.repr_hash == k && self.db@.contains_key(k)
                && self.db@[k] == storage_record(self.cells@[k]@) && self.cells@[k]@.gc_gen
                <= self.gc_generation by {
                assert(!ds.contains(k));
                assert(old(self).stored().contains_key(k));
            }
        }
    }

    /// Marks every cell reachable from the given roots: loads it into the
    /// cache and stamps it with `gc_gen`. On success the stamped set
    /// contains the roots, lies within the store, and is closed under stored
    /// children, so it covers everything reachable from the roots; the cache
    /// grows by reachable cells alone. Failure means some reachable hash was
    /// neither cached nor stored.
    #[verifier::loop_isolation(false)]
    pub fn mark_subtrees(&mut self, roots: &Vec<CellId>, gc_gen: u32) -> (r: Result<
        (),
        StorageError,
    >)
        requires
            old(self).wf(),
            gc_gen == old(self).generation(),
            gc_gen >= 1,
            forall|k: Seq<u8>| #[trigger]
                old(self).cache().contains_key(k) ==> old(self).cache()[k]@.gc_gen < gc_gen,
        ensures
            final(self).wf(),
            final(self).stored() == old(self).stored(),
            final(self).generation() == old(self).generation(),
            forall|k: Seq<u8>| #[trigger]
                old(self).cache().contains_key(k) ==> final(self).cache().contains_key(k),
            forall|k: Seq<u8>| #[trigger]
                final(self).cache().contains_key(k) ==> old(self).cache().contains_key(k)
                    || reachable(old(self).stored(), id_set(roots@)).contains(k),
            r.is_err() ==> exists|k: Seq<u8>|
                reachable(old(self).stored(), id_set(roots@)).contains(k) && !old(
                    self,
                ).cache().contains_key(k) && !old(self).stored().contains_key(k),
            r.is_ok() ==> {
                &&& forall|i: int|
                    0 <= i < roots@.len() ==> stamped(final(self).cache(), gc_gen).contains(
                        (#[trigger] roots@[i])@,
                    )
                &&& forall|k: Seq<u8>, c: Seq<u8>|
                    #![trigger stamped(final(self).cache(), gc_gen).contains(k), record_children(old(self).stored()[k]).contains(c)]
                    stamped(final(self).cache(), gc_gen).contains(k) && record_children(
                        old(self).stored()[k],
                    ).contains(c) ==> stamped(final(self).cache(), gc_gen).contains(c)
                &&& forall|k: Seq<u8>| #[trigger]
                    stamped(final(self).cache(), gc_gen).contains(k) ==> old(
                        self,
                    ).stored().contains_key(k)
            },
            r.is_err() ==> r == Result::<(), StorageError>::Err(StorageError::KeyNotFound),
    {
        let ghost stored0 = self.db@;
        proof {
            self.db.lemma_dom_finite();
        }
        let mut worklist: Vec<CellId> = Vec::new();
        let n = roots.len();
        let mut i: usize = 0;
        while i < n
            invariant
                i <= n,
                worklist@.len() == i,
                forall|j: int| 0 <= j < i ==> (#[trigger] worklist@[j])@ == roots@[j]@,
            decreases n - i,
        {
            worklist.push(roots[i].clone());
            i = i + 1;
        }
        proof {
            assert forall|i2: int| 0 <= i2 < roots@.len() implies in_id_list(
                worklist@,
                (#[trigger] roots@[i2])@,
            ) by {
                assert(worklist@[i2]@ == roots@[i2]@);
            }
            assert forall|j: int| 0 <= j < worklist@.len() implies reachable(
                stored0,
                id_set(roots@),
            ).contains((#[trigger] worklist@[j])@) by {
                assert(in_id_list(roots@, worklist@[j]@)) by {
                    assert(roots@[j]@ == worklist@[j]@);
                }
                lemma_reachable_roots(stored0, id_set(roots@), worklist@[j]@);
            }
        }
        proof {
            assert forall|k: Seq<u8>| !stamped(self.cells@, gc_gen).contains(k) by {
                if self.cells@.contains_key(k) {
                    assert(old(self).cache() == self.cells@);
                    assert(old(self).cache().contains_key(k));
                    assert(old(self).cache()[k]@.gc_gen < gc_gen);
                }
            }
        }
        while worklist.len() > 0
            invariant
                self.wf(),
                self.db@ == stored0,
                self.gc_generation == gc_gen,
                forall|k: Seq<u8>| #[trigger]
                    old(self).cache().contains_key(k) ==> self.cells@.contains_key(k),
                forall|j: int|
                    0 <= j < worklist@.len() ==> reachable(stored0, id_set(roots@)).contains(
                        (#[trigger] worklist@[j])@,
                    ),
                forall|k: Seq<u8>| #[trigger]
                    self.cells@.contains_key(k) ==> old(self).cache().contains_key(k) || reachable(
                        stored0,
                        id_set(roots@),
                    ).contains(k),
                forall|i2: int|
                    0 <= i2 < roots@.len() ==> stamped(self.cells@, gc_gen).contains(
                        (#[trigger] roots@[i2])@,
                    ) || in_id_list(worklist@, roots@[i2]@),
                forall|k: Seq<u8>, c: Seq<u8>|
                    #![trigger stamped(self.cells@, gc_gen).contains(k), record_children(stored0[k]).contains(c)]
                    stamped(self.cells@, gc_gen).contains(k) && record_children(
                        stored0[k],
                    ).contains(c) ==> stamped(self.cells@, gc_gen).contains(c) || in_id_list(
                        worklist@,
                        c,
                    ),
                forall|k: Seq<u8>| #[trigger]
                    stamped(self.cells@, gc_gen).contains(k) ==> stored0.contains_key(k),
            decreases stored0.dom().len() - stamped(self.cells@, gc_gen).len(), worklist@.len(),
        {
            proof {
                vstd::set_lib::lemma_len_subset(stamped(self.cells@, gc_gen), stored0.dom());
            }
            let ghost pre_work = worklist@;
            let id = match worklist.pop() {
                Some(id) => id,
                None => {
                    proof {
                        assert(false);
                    }
                    vstd::pervasive::unreached()
                },
            };
            proof {
                assert(id == pre_work.last());
                assert(worklist@ == pre_work.subrange(0, pre_work.len() - 1));
            }
            let already = match self.cells.get(id.as_slice()) {
                Some(c) => c.gc_gen() >= gc_gen,
                None => false,
            };
            if already {
                proof {
                    let st = stamped(self.cells@, gc_gen);
                    assert(st.contains(id@));
                    assert forall|i2: int| 0 <= i2 < roots@.len() implies st.contains(
                        (#[trigger] roots@[i2])@,
                    ) || in_id_list(worklist@, roots@[i2]@) by {
                        if !st.contains(roots@[i2]@) && in_id_list(pre_work, roots@[i2]@) {
                            lemma_in_id_list_pop(pre_work, roots@[i2]@);
                        }
                    }
                    assert forall|k: Seq<u8>, c: Seq<u8>|
                        #![trigger st.contains(k), record_children(stored0[k]).contains(c)]
                        st.contains(k) && record_children(stored0[k]).contains(c) implies
                        st.contains(c) || in_id_list(worklist@, c) by {
                        if !st.contains(c) && in_id_list(pre_work, c) {
                            lemma_in_id_list_pop(pre_work, c);
                        }
                    }
                }
                continue;
            }
            let ghost cache_before = self.cells@;
            let cell = match self.load_cell(&id) {
                Ok(c) => c,
                Err(e) => {
                    proof {
                        assert(pre_work[pre_work.len() - 1]@ == id@);
                        assert(reachable(stored0, id_set(roots@)).contains(id@));
                        assert(!old(self).cache().contains_key(id@));
                    }
                    return Err(e);
                },
            };
            proof {
                assert(stamped(self.cells@, gc_gen) =~= stamped(cache_before, gc_gen)) by {
                    assert forall|k: Seq<u8>|
                        stamped(self.cells@, gc_gen).contains(k) == stamped(
                            cache_before,
                            gc_gen,
                        ).contains(k) by {
                        if !cache_before.contains_key(id@) {
                            if k == id@ {
                                assert(self.cells@[id@]@.gc_gen == 0);
                            } else {
                                assert(self.cells@.remove(id@) == cache_before.remove(id@));
                                assert(self.cells@.remove(id@).contains_key(k)
                                    == self.cells@.contains_key(k));
                                assert(cache_before.remove(id@).contains_key(k)
                                    == cache_before.contains_key(k));
                                if self.cells@.contains_key(k) {
                                    assert(self.cells@[k] == self.cells@.remove(id@)[k]);
                                    assert(cache_before[k] == cache_before.remove(id@)[k]);
                                }
                            }
                        }
                    }
                }
                assert(self.cells@[id@]@.gc_gen < gc_gen);
            }
            let ghost stamped_before = stamped(self.cells@, gc_gen);
            let ghost cache_mid = self.cells@;
            self.stamp_gc_gen(&id, gc_gen);
            proof {
                assert(stamped(self.cells@, gc_gen) =~= stamped_before.insert(id@)) by {
                    assert forall|k: Seq<u8>|
                        stamped(self.cells@, gc_gen).contains(k) == stamped_before.insert(
                            id@,
                        ).contains(k) by {
                        if k == id@ {
                            assert(self.cells@[id@]@.gc_gen == gc_gen);
                        } else {
                            assert(self.cells@.remove(id@) == cache_mid.remove(id@));
                            assert(self.cells@.remove(id@).contains_key(k) == self.cells@.contains_key(
                                k,
                            ));
                            assert(cache_mid.remove(id@).contains_key(k) == cache_mid.contains_key(
                                k,
                            ));
                            if self.cells@.contains_key(k) {
                                assert(self.cells@[k] == self.cells@.remove(id@)[k]);
                                assert(cache_mid[k] == cache_mid.remove(id@)[k]);
                            }
                        }
                    }
                }
                assert(!stamped_before.contains(id@));
                vstd::set_lib::lemma_len_subset(stamped_before, stored0.dom());
                assert(stamped(self.cells@, gc_gen).len() == stamped_before.len() + 1);
            }
            let refs = cell.references_count();
            let ghost base = worklist@;
            let mut j: usize = 0;
            while j < refs
                invariant
                    j <= refs,
                    worklist@.len() == base.len() + j,
                    forall|jj: int| 0 <= jj < base.len() ==> (#[trigger] worklist@[jj]) == base[jj],
                    forall|jj: int|
                        0 <= jj < j ==> (#[trigger] worklist@[base.len() + jj])@
                            == cell@.references[jj].hash,
                decreases refs - j,
            {
                worklist.push(cell.reference_hash(j).clone());
                j = j + 1;
            }
            proof {
                let st = stamped(self.cells@, gc_gen);
                assert forall|k: Seq<u8>, c: Seq<u8>|
                    #![trigger st.contains(k), record_children(stored0[k]).contains(c)]
                    st.contains(k) && record_children(stored0[k]).contains(c) implies st.contains(
                    c,
                ) || in_id_list(worklist@, c) by {
                    if k == id@ {
                        assert(stored0[id@] == storage_record(cell@));
                        crate::storage_cell::lemma_record_children(cell@);
                        let jj = choose|jj: int|
                            0 <= jj < record_children(stored0[k]).len() && record_children(
                                stored0[k],
                            )[jj] == c;
                        assert(crate::storage_cell::ref_hashes(cell@.references)[jj] == c);
                        assert(cell@.references[jj].hash == c);
                        assert(worklist@[base.len() + jj]@ == c);
                    } else {
                        assert(stamped_before.contains(k));
                        if !stamped_before.contains(c) && in_id_list(pre_work, c) && c != id@ {
                            lemma_in_id_list_pop(pre_work, c);
                            lemma_in_id_list_prefix(
                                pre_work.subrange(0, pre_work.len() - 1),
                                worklist@,
                                c,
                            );
                        }
                    }
                }
                assert forall|i2: int| 0 <= i2 < roots@.len() implies st.contains(
                    (#[trigger] roots@[i2])@,
                ) || in_id_list(worklist@, roots@[i2]@) by {
                    if !stamped_before.contains(roots@[i2]@) && in_id_list(pre_work, roots@[i2]@)
                        && roots@[i2]@ != id@ {
                        lemma_in_id_list_pop(pre_work, roots@[i2]@);
                        lemma_in_id_list_prefix(
                            pre_work.subrange(0, pre_work.len() - 1),
                            worklist@,
                            roots@[i2]@,
                        );
                    }
                }
                assert forall|k: Seq<u8>| #[trigger] old(self).cache().contains_key(
                    k,
                ) implies self.cells@.contains_key(k) by {
                    assert(cache_before.contains_key(k));
                    assert(cache_mid.contains_key(k)) by {
                        if !cache_before.contains_key(id@) && k != id@ {
                            assert(cache_mid.remove(id@) == cache_before.remove(id@));
                            assert(cache_mid.remove(id@).contains_key(k) == cache_mid.contains_key(
                                k,
                            ));
                            assert(cache_before.remove(id@).contains_key(k)
                                == cache_before.contains_key(k));
                        }
                    }
                    assert(self.cells@.dom() == cache_mid.dom());
                }
                vstd::set_lib::lemma_len_subset(stamped(self.cells@, gc_gen), stored0.dom());
                assert(pre_work[pre_work.len() - 1]@ == id@);
                assert(reachable(stored0, id_set(roots@)).contains(id@));
                assert(self.cells@.contains_key(id@));
                assert(stored0.contains_key(id@));
                crate::storage_cell::lemma_record_children(cell@);
                assert forall|j2: int| 0 <= j2 < worklist@.len() implies reachable(
                    stored0,
                    id_set(roots@),
                ).contains((#[trigger] worklist@[j2])@) by {
                    if j2 < base.len() {
                        assert(worklist@[j2] == base[j2]);
                        assert(base[j2] == pre_work[j2]);
                    } else {
                        let jj = j2 - base.len();
                        assert((worklist@[base.len() + jj])@ == cell@.references[jj].hash);
                        assert(worklist@[j2]@ == cell@.references[jj].hash);
                        assert(stored0[id@] == storage_record(cell@));
                        assert(record_children(stored0[id@]).contains(
                            cell@.references[jj].hash,
                        )) by {
                            assert(record_children(stored0[id@])[jj] == crate::storage_cell::ref_hashes(
                                cell@.references,
                            )[jj]);
                            assert(crate::storage_cell::ref_hashes(cell@.references)[jj]
                                == cell@.references[jj].hash);
                        }
                        lemma_reachable_step(
                            stored0,
                            id_set(roots@),
                            id@,
                            cell@.references[jj].hash,
                        );
                    }
                }
                assert forall|k: Seq<u8>| #[trigger] self.cells@.contains_key(k) implies old(
                    self,
                ).cache().contains_key(k) || reachable(stored0, id_set(roots@)).contains(k) by {
                    assert(cache_mid.contains_key(k));
                    if k != id@ {
                        assert(cache_before.contains_key(k)) by {
                            if !cache_before.contains_key(id@) {
                                assert(cache_mid.remove(id@) == cache_before.remove(id@));
                                assert(cache_mid.remove(id@).contains_key(k) == cache_mid.contains_key(
                                    k,
                                ));
                                assert(cache_before.remove(id@).contains_key(k)
                                    == cache_before.contains_key(k));
                            }
                        }
                    }
                }
            }
        }
        Ok(())
    }

    /// Walks the subtrees under the given dead roots and batches for
    /// deletion every visited record that no live in-memory cell pins: a
    /// cached cell — whether marked or merely still held by a reader — is
    /// spared together with what sits below it. On success the batch gains
    /// exactly the uncached keys reachable from the roots through stored,
    /// uncached records, all of them stored; failure means such a key is
    /// neither cached nor stored.
    #[verifier::loop_isolation(false)]
    pub fn sweep_subtrees(&self, roots: &Vec<CellId>, transaction: &mut CellDbTransaction) -> (r:
        Result<(), StorageError>)
        requires
            self.wf(),
        ensures
            forall|k: Seq<u8>|
                final(transaction).delete_seq().contains(k) ==> old(
                    transaction,
                ).delete_seq().contains(k) || (self.stored().contains_key(k)
                    && !self.cache().contains_key(k)),
            r.is_ok() ==> forall|k: Seq<u8>|
                #![trigger final(transaction).delete_seq().contains(k)]
                final(transaction).delete_seq().contains(k) <==> (old(
                    transaction,
                ).delete_seq().contains(k) || (blocked_reach(
                    self.stored(),
                    self.cache().dom(),
                    id_set(roots@),
                ).contains(k) && !self.cache().contains_key(k))),
            r.is_err() ==> r == Result::<(), StorageError>::Err(StorageError::KeyNotFound)
                && exists|k: Seq<u8>|
                blocked_reach(self.stored(), self.cache().dom(), id_set(roots@)).contains(k)
                    && !self.cache().contains_key(k) && !self.stored().contains_key(k),
    {
        let ghost stored0 = self.db@;
        let ghost cache = self.cells@;
        let ghost rootset = id_set(roots@);
        let ghost breach = blocked_reach(stored0, cache.dom(), rootset);
        proof {
            self.db.lemma_dom_finite();
        }
        let mut worklist: Vec<CellId> = Vec::new();
        let n = roots.len();
        let mut i: usize = 0;
        while i < n
            invariant
                i <= n,
                worklist@.len() == i,
                forall|j: int| 0 <= j < i ==> (#[trigger] worklist@[j])@ == roots@[j]@,
            decreases n - i,
        {
            worklist.push(roots[i].clone());
            i = i + 1;
        }
        proof {
            assert forall|j: int| 0 <= j < worklist@.len() implies breach.contains(
                (#[trigger] worklist@[j])@,
            ) by {
                assert(in_id_list(roots@, worklist@[j]@)) by {
                    assert(roots@[j]@ == worklist@[j]@);
                }
                lemma_blocked_roots(stored0, cache.dom(), rootset, worklist@[j]@);
            }
            assert forall|i2: int| 0 <= i2 < roots@.len() implies in_id_list(
                worklist@,
                (#[trigger] roots@[i2])@,
            ) by {
                assert(worklist@[i2]@ == roots@[i2]@);
            }
        }
        let mut visited: Vec<CellId> = Vec::new();
        while worklist.len() > 0
            invariant
                forall|j: int|
                    0 <= j < worklist@.len() ==> breach.contains((#[trigger] worklist@[j])@),
                forall|j: int|
                    0 <= j < visited@.len() ==> breach.contains((#[trigger] visited@[j])@),
                forall|i2: int|
                    0 <= i2 < roots@.len() ==> in_id_list(visited@, (#[trigger] roots@[i2])@)
                        || in_id_list(worklist@, roots@[i2]@),
                forall|k: Seq<u8>| #[trigger]
                    id_set(visited@).contains(k) && !cache.contains_key(k)
                        ==> stored0.contains_key(k),
                forall|k: Seq<u8>, c: Seq<u8>|
                    #![trigger id_set(visited@).contains(k), record_children(stored0[k]).contains(c)]
                    id_set(visited@).contains(k) && !cache.contains_key(k)
                        && stored0.contains_key(k) && record_children(stored0[k]).contains(c)
                        ==> id_set(visited@).contains(c) || in_id_list(worklist@, c),
                forall|k: Seq<u8>|
                    #![trigger transaction.delete_seq().contains(k)]
                    transaction.delete_seq().contains(k) <==> (old(
                        transaction,
                    ).delete_seq().contains(k) || (id_set(visited@).contains(k)
                        && !cache.contains_key(k))),
            decreases stored0.dom().len() - id_set(visited@).intersect(stored0.dom()).len(),
                worklist@.len(),
        {
            proof {
                vstd::set_lib::lemma_len_subset(
                    id_set(visited@).intersect(stored0.dom()),
                    stored0.dom(),
                );
            }
            let ghost pre_work = worklist@;
            let id = match worklist.pop() {
                Some(id) => id,
                None => {
                    proof {
                        assert(false);
                    }
                    vstd::pervasive::unreached()
                },
            };
            proof {
                assert(id == pre_work.last());
                assert(worklist@ == pre_work.subrange(0, pre_work.len() - 1));
                assert(breach.contains(id@)) by {
                    assert(pre_work[pre_work.len() - 1]@ == id@);
                }
            }
            if id_list_contains(&visited, &id) {
                proof {
                    assert forall|i2: int| 0 <= i2 < roots@.len() implies in_id_list(
                        visited@,
                        (#[trigger] roots@[i2])@,
                    ) || in_id_list(worklist@, roots@[i2]@) by {
                        if !in_id_list(visited@, roots@[i2]@) && in_id_list(
                            pre_work,
                            roots@[i2]@,
                        ) {
                            lemma_in_id_list_pop(pre_work, roots@[i2]@);
                        }
                    }
                    assert forall|k: Seq<u8>, c: Seq<u8>|
                        #![trigger id_set(visited@).contains(k), record_children(stored0[k]).contains(c)]
                        id_set(visited@).contains(k) && !cache.contains_key(k)
                            && stored0.contains_key(k) && record_children(stored0[k]).contains(
                            c,
                        ) implies id_set(visited@).contains(c) || in_id_list(worklist@, c) by {
                        if !id_set(visited@).contains(c) && in_id_list(pre_work, c) {
                            lemma_in_id_list_pop(pre_work, c);
                            if pre_work.last()@ == c {
                                assert(id_set(visited@).contains(c)) by {
                                    assert(in_id_list(visited@, id@));
                                }
                            }
                        }
                    }
                }
                continue;
            }
            let ghost visited_before = visited@;
            let id_copy = id.clone();
            let ghost pushed = id_copy;
            visited.push(id_copy);
            proof {
                lemma_id_set_push(visited_before, pushed, id@);
                assert(id_set(visited@) =~= id_set(visited_before).insert(id@));
                assert forall|j: int| 0 <= j < visited@.len() implies breach.contains(
                    (#[trigger] visited@[j])@,
                ) by {
                    if j < visited_before.len() {
                        assert(visited@[j] == visited_before[j]);
                    } else {
                        assert(visited@[j]@ == id@);
                    }
                }
                assert forall|i2: int| 0 <= i2 < roots@.len() implies in_id_list(
                    visited@,
                    (#[trigger] roots@[i2])@,
                ) || in_id_list(worklist@, roots@[i2]@) by {
                    if !in_id_list(visited_before, roots@[i2]@) && in_id_list(
                        pre_work,
                        roots@[i2]@,
                    ) {
                        lemma_in_id_list_pop(pre_work, roots@[i2]@);
                        if pre_work.last()@ == roots@[i2]@ {
                            assert(id_set(visited@).contains(roots@[i2]@));
                        }
                    } else if in_id_list(visited_before, roots@[i2]@) {
                        lemma_in_id_list_prefix(visited_before, visited@, roots@[i2]@);
                    }
                }
            }
            if self.cells.contains(id.as_slice()) {
                proof {
                    assert(stored0.contains_key(id@));
                    assert(id_set(visited@).intersect(stored0.dom()) =~= id_set(
                        visited_before,
                    ).intersect(stored0.dom()).insert(id@));
                    vstd::set_lib::lemma_len_subset(
                        id_set(visited_before).intersect(stored0.dom()),
                        stored0.dom(),
                    );
                    assert(!id_set(visited_before).intersect(stored0.dom()).contains(id@));
                    assert(id_set(visited@).intersect(stored0.dom()).len() == id_set(
                        visited_before,
                    ).intersect(stored0.dom()).len() + 1);
                    vstd::set_lib::lemma_len_subset(
                        id_set(visited@).intersect(stored0.dom()),
                        stored0.dom(),
                    );
                    assert forall|k: Seq<u8>, c: Seq<u8>|
                        #![trigger id_set(visited@).contains(k), record_children(stored0[k]).contains(c)]
                        id_set(visited@).contains(k) && !cache.contains_key(k)
                            && stored0.contains_key(k) && record_children(stored0[k]).contains(
                            c,
                        ) implies id_set(visited@).contains(c) || in_id_list(worklist@, c) by {
                        assert(k != id@);
                        assert(id_set(visited_before).contains(k));
                        if !id_set(visited_before).contains(c) && in_id_list(pre_work, c) {
                            lemma_in_id_list_pop(pre_work, c);
                        }
                    }
                }
                continue;
            }
            let cell = match self.db.get_cell(&id) {
                Ok(c) => c,
                Err(_) => {
                    proof {
                        assert(breach.contains(id@) && !cache.contains_key(id@)
                            && !stored0.contains_key(id@));
                        assert(exists|k: Seq<u8>|
                            blocked_reach(
                                self.stored(),
                                self.cache().dom(),
                                id_set(roots@),
                            ).contains(k) && !self.cache().contains_key(k)
                                && !self.stored().contains_key(k)) by {
                            assert(blocked_reach(
                                self.stored(),
                                self.cache().dom(),
                                id_set(roots@),
                            ).contains(id@) && !self.cache().contains_key(id@)
                                && !self.stored().contains_key(id@));
                        }
                    }
                    return Err(StorageError::KeyNotFound);
                },
            };
            let ghost deletes_before = transaction.delete_seq();
            transaction.delete(&id);
            proof {
                assert forall|k: Seq<u8>|
                    #![trigger transaction.delete_seq().contains(k)]
                    transaction.delete_seq().contains(k) <==> (old(
                        transaction,
                    ).delete_seq().contains(k) || (id_set(visited@).contains(k)
                        && !cache.contains_key(k))) by {
                    if transaction.delete_seq().contains(k) && k != id@ {
                        let jx = choose|jx: int|
                            0 <= jx < transaction.delete_seq().len()
                                && transaction.delete_seq()[jx] == k;
                        assert(deletes_before[jx] == k);
                        assert(deletes_before.contains(k));
                    }
                    if deletes_before.contains(k) {
                        let jx = choose|jx: int|
                            0 <= jx < deletes_before.len() && deletes_before[jx] == k;
                        assert(transaction.delete_seq()[jx] == k);
                    }
                    if k == id@ {
                        assert(transaction.delete_seq().last() == id@);
                    }
                }
            }
            let refs = cell.references_count();
            let ghost base = worklist@;
            let mut j: usize = 0;
            while j < refs
                invariant
                    j <= refs,
                    refs == cell@.references.len(),
                    worklist@.len() == base.len() + j,
                    forall|jj: int| 0 <= jj < base.len() ==> (#[trigger] worklist@[jj]) == base[jj],
                    forall|jj: int|
                        0 <= jj < j ==> (#[trigger] worklist@[base.len() + jj])@
                            == cell@.references[jj].hash,
                decreases refs - j,
            {
                worklist.push(cell.reference_hash(j).clone());
                j = j + 1;
            }
            proof {
                assert(stored0.contains_key(id@));
                assert(stored0[id@] == storage_record(cell@));
                crate::storage_cell::lemma_record_children(cell@);
                assert forall|j2: int| 0 <= j2 < worklist@.len() implies breach.contains(
                    (#[trigger] worklist@[j2])@,
                ) by {
                    if j2 < base.len() {
                        assert(worklist@[j2] == base[j2]);
                        assert(base[j2] == pre_work[j2]);
                    } else {
                        let jj = j2 - base.len();
                        assert((worklist@[base.len() + jj])@ == cell@.references[jj].hash);
                        assert(record_children(stored0[id@]).contains(
                            cell@.references[jj].hash,
                        )) by {
                            assert(record_children(stored0[id@])[jj] == crate::storage_cell::ref_hashes(
                                cell@.references,
                            )[jj]);
                            assert(crate::storage_cell::ref_hashes(cell@.references)[jj]
                                == cell@.references[jj].hash);
                        }
                        lemma_blocked_step(
                            stored0,
                            cache.dom(),
                            rootset,
                            id@,
                            cell@.references[jj].hash,
                        );
                    }
                }
                assert forall|k: Seq<u8>, c: Seq<u8>|
                    #![trigger id_set(visited@).contains(k), record_children(stored0[k]).contains(c)]
                    id_set(visited@).contains(k) && !cache.contains_key(k)
                        && stored0.contains_key(k) && record_children(stored0[k]).contains(
                        c,
                    ) implies id_set(visited@).contains(c) || in_id_list(worklist@, c) by {
                    if k == id@ {
                        let jj = choose|jj: int|
                            0 <= jj < record_children(stored0[id@]).len() && record_children(
                                stored0[id@],
                            )[jj] == c;
                        assert(crate::storage_cell::ref_hashes(cell@.references)[jj] == c);
                        assert(cell@.references[jj].hash == c);
                        assert(worklist@[base.len() + jj]@ == c);
                    } else {
                        assert(id_set(visited_before).contains(k));
                        if !id_set(visited_before).contains(c) && in_id_list(pre_work, c) && c
                            != id@ {
                            lemma_in_id_list_pop(pre_work, c);
                            lemma_in_id_list_prefix(
                                pre_work.subrange(0, pre_work.len() - 1),
                                worklist@,
                                c,
                            );
                        }
                    }
                }
                assert forall|i2: int| 0 <= i2 < roots@.len() implies in_id_list(
                    visited@,
                    (#[trigger] roots@[i2])@,
                ) || in_id_list(worklist@, roots@[i2]@) by {
                    if !in_id_list(visited@, roots@[i2]@) {
                        assert(in_id_list(base, roots@[i2]@));
                        lemma_in_id_list_prefix(base, worklist@, roots@[i2]@);
                    }
                }
                assert(id_set(visited@).intersect(stored0.dom()) =~= id_set(
                    visited_before,
                ).intersect(stored0.dom()).insert(id@));
                vstd::set_lib::lemma_len_subset(
                    id_set(visited_before).intersect(stored0.dom()),
                    stored0.dom(),
                );
                assert(!id_set(visited_before).intersect(stored0.dom()).contains(id@));
                assert(id_set(visited@).intersect(stored0.dom()).len() == id_set(
                    visited_before,
                ).intersect(stored0.dom()).len() + 1);
                vstd::set_lib::lemma_len_subset(
                    id_set(visited@).intersect(stored0.dom()),
                    stored0.dom(),
                );
            }
        }
        proof {
            assert(rootset.subset_of(id_set(visited@))) by {
                assert forall|c: Seq<u8>| #[trigger] rootset.contains(c) implies id_set(
                    visited@,
                ).contains(c) by {
                    let i2 = choose|i2: int| 0 <= i2 < roots@.len() && roots@[i2]@ == c;
                    assert(in_id_list(visited@, roots@[i2]@) || in_id_list(worklist@, c));
                }
            }
            assert forall|k: Seq<u8>, c: Seq<u8>|
                id_set(visited@).contains(k) && !cache.dom().contains(k) && stored0.contains_key(
                    k,
                ) && #[trigger] record_children(stored0[k]).contains(c) && #[trigger] id_set(
                visited@,
            ).contains(k) implies id_set(visited@).contains(c) by {
                assert(!in_id_list(worklist@, c));
            }
            lemma_blocked_in_closed(stored0, cache.dom(), rootset, id_set(visited@));
        }
        Ok(())
    }
}

/// The set of hashes held by a list of ids.
pub open spec fn id_set(w: Seq<CellId>) -> Set<Seq<u8>> {
    Set::new(|c: Seq<u8>| in_id_list(w, c))
}

/// Pushing an id adds exactly its hash to the set.
pub proof fn lemma_id_set_push(w: Seq<CellId>, x: CellId, h: Seq<u8>)
    requires
        x@ == h,
    ensures
        id_set(w.push(x)) == id_set(w).insert(h),
{
    assert forall|c: Seq<u8>|
        id_set(w.push(x)).contains(c) == id_set(w).insert(h).contains(c) by {
        if in_id_list(w.push(x), c) {
            let j = choose|j: int| 0 <= j < w.push(x).len() && w.push(x)[j]@ == c;
            if j < w.len() {
                assert(w[j]@ == c);
            }
        }
        if in_id_list(w, c) {
            let j = choose|j: int| 0 <= j < w.len() && w[j]@ == c;
            assert(w.push(x)[j]@ == c);
        }
        if c == h {
            assert(w.push(x)[w.len() as int]@ == c);
        }
    }
    assert(id_set(w.push(x)) =~= id_set(w).insert(h));
}

/// A hash in a list is still in the list without its last element, unless it
/// was the last element's hash.
pub proof fn lemma_in_id_list_pop(w: Seq<CellId>, c: Seq<u8>)
    requires
        in_id_list(w, c),
        w.len() > 0,
    ensures
        in_id_list(w.subrange(0, w.len() - 1), c) || w.last()@ == c,
{
    let j = choose|j: int| 0 <= j < w.len() && w[j]@ == c;
    if j < w.len() - 1 {
        assert(w.subrange(0, w.len() - 1)[j]@ == c);
    }
}

/// A hash in a prefix is in the longer list.
pub proof fn lemma_in_id_list_prefix(w1: Seq<CellId>, w2: Seq<CellId>, c: Seq<u8>)
    requires
        in_id_list(w1, c),
        w1.len() <= w2.len(),
        forall|j: int| 0 <= j < w1.len() ==> w2[j] == w1[j],
    ensures
        in_id_list(w2, c),
{
    let j = choose|j: int| 0 <= j < w1.len() && w1[j]@ == c;
    assert(w2[j]@ == c);
}

/// Whether the list holds an id with the same hash.
fn id_list_contains(list: &Vec<CellId>, id: &CellId) -> (r: bool)
    ensures
        r <==> in_id_list(list@, id@),
{
    let mut i: usize = 0;
    let n = list.len();
    while i < n
        invariant
            i <= n,
            n == list@.len(),
            forall|j: int| 0 <= j < i ==> (#[trigger] list@[j])@ != id@,
        decreases n - i,
    {
        if crate::codec::bytes_eq(list[i].as_slice(), id.as_slice()) {
            return true;
        }
        i = i + 1;
    }
    false
}

} // verus!
