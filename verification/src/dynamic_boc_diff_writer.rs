//! The diff writer: the pending batch of cell records that one DAG save
//! accumulates and then applies to the cell store in a single step, so that a
//! partial save never leaves dangling references on disk.

use vstd::prelude::*;
use crate::cell::Cell;
use crate::cell::model_record;
use crate::cell_db::CellDb;
use crate::cell_db::content_addressed;
use crate::db::MemoryDb;
use crate::storage_cell::lemma_record_ok;
use crate::storage_cell::StorageCell;

verus! {

/// A pending batch of cell puts, keyed by content hash.
#[derive(Debug)]
pub struct DynamicBocDiffWriter {
    cells: MemoryDb,
}

impl View for DynamicBocDiffWriter {
    type V = Map<Seq<u8>, Seq<u8>>;

    closed spec fn view(&self) -> Map<Seq<u8>, Seq<u8>> {
        self.cells@
    }
}

impl DynamicBocDiffWriter {
    /// Unique keys and content addressing, as in the store itself.
    pub closed spec fn wf(self) -> bool {
        &&& self.cells.wf()
        &&& content_addressed(self@)
    }

    /// Begins an empty batch.
    pub fn new() -> (r: Self)
        ensures
            r.wf(),
            r@ == Map::<Seq<u8>, Seq<u8>>::empty(),
    {
        DynamicBocDiffWriter { cells: MemoryDb::new() }
    }

    /// Number of pending cells.
    pub fn len(&self) -> (n: usize)
        ensures
            n == self.spec_len(),
    {
        self.cells.len()
    }

    /// Number of pending cells.
    pub closed spec fn spec_len(self) -> nat {
        self.cells.entry_seq().len()
    }

    /// Whether a cell with this hash is already pending.
    pub fn contains(&self, cell_id: &crate::cell_id::CellId) -> (r: bool)
        ensures
            r <==> self@.contains_key(cell_id@),
    {
        self.cells.contains(cell_id.as_slice())
    }

    /// Adds one in-memory cell's record to the batch under its hash.
    pub fn add_cell(&mut self, cell: &Cell)
        requires
            old(self).wf(),
            cell.wf(),
        ensures
            final(self).wf(),
            final(self)@ == old(self)@.insert(
                cell.model().repr_hash,
                model_record(cell.model()),
            ),
            final(self).spec_len() == old(self).spec_len() + if old(self)@.contains_key(
                cell.model().repr_hash,
            ) {
                0int
            } else {
                1int
            },
    {
        let staged = StorageCell::from_single_cell(cell, 0);
        let record = staged.serialize();
        let key = staged.id();
        let mut key_bytes: Vec<u8> = Vec::new();
        crate::codec::put_bytes(&mut key_bytes, key.as_slice());
        proof {
            assert(key_bytes@ =~= cell.model().repr_hash);
            lemma_record_ok(staged@);
        }
        self.cells.put(key_bytes, record);
    }

    /// Applies the batch to the cell store: afterwards the store maps every
    /// pending key to its pending record and every other key to what it held
    /// before.
    pub fn apply(&self, db: &mut CellDb)
        requires
            self.wf(),
            old(db).wf(),
        ensures
            final(db).wf(),
            final(db)@ == old(db)@.union_prefer_right(self@),
    {
        let n = self.cells.len();
        let ghost es = self.cells.entry_seq();
        proof {
            self.cells.lemma_keys_unique();
        }
        let mut i: usize = 0;
        while i < n
            invariant
                i <= n,
                n == es.len(),
                es == self.cells.entry_seq(),
                self.wf(),
                db.wf(),
                forall|j1: int, j2: int|
                    0 <= j1 < j2 < es.len() ==> (#[trigger] es[j1]).0 != (#[trigger] es[j2]).0,
                forall|j: int|
                    0 <= j < i ==> db@.contains_key(#[trigger] es[j].0) && db@[es[j].0] == es[j].1,
                forall|k: Seq<u8>|
                    (forall|j: int| 0 <= j < i ==> (#[trigger] es[j]).0 != k) ==> ((
                    #[trigger] db@.contains_key(k)) <==> old(db)@.contains_key(k)),
                forall|k: Seq<u8>|
                    ((forall|j: int| 0 <= j < i ==> (#[trigger] es[j]).0 != k)
                        && db@.contains_key(k)) ==> #[trigger] db@[k] == old(db)@[k],
            decreases n - i,
        {
            let key = self.cells.key_at(i);
            let value = self.cells.value_at(i);
            proof {
                self.cells.lemma_entry_in_view(i as int);
            }
            db.put_record(key.clone(), value.clone());
            i = i + 1;
        }
        proof {
            let u = old(db)@.union_prefer_right(self@);
            assert forall|k: Seq<u8>|
                (#[trigger] db@.contains_key(k) <==> u.contains_key(k)) && (db@.contains_key(k)
                    ==> db@[k] == u[k]) by {
                if self@.contains_key(k) {
                    self.cells.lemma_view_in_entries(k);
                    let j = choose|j: int| 0 <= j < es.len() && es[j].0 == k;
                    self.cells.lemma_entry_in_view(j);
                } else {
                    assert forall|j: int| 0 <= j < es.len() implies (#[trigger] es[j]).0 != k by {
                        self.cells.lemma_entry_in_view(j);
                    }
                }
            }
            assert(db@ =~= old(db)@.union_prefer_right(self@));
        }
    }
}

} // verus!
