//! The cell store: one record per content hash. The store is content
//! addressed — the key under which a record sits is the SHA-256 digest of the
//! record, which is the cell's representation hash.

use vstd::prelude::*;
use crate::cell_id::CellId;
use crate::db::MemoryDb;
use crate::error::StorageError;
use crate::hashing::sha256_of;
use crate::storage_cell::storage_record;
use crate::storage_cell::storage_record_ok;
use crate::storage_cell::StorageCell;

verus! {

/// Every record of `m` parses as a cell and sits under its own digest.
pub open spec fn content_addressed(m: Map<Seq<u8>, Seq<u8>>) -> bool {
    forall|k: Seq<u8>| #[trigger]
        m.contains_key(k) ==> storage_record_ok(m[k]) && sha256_of(m[k]) == k
}

/// Persists one cell record per content hash.
#[derive(Debug)]
pub struct CellDb {
    db: MemoryDb,
}

impl View for CellDb {
    type V = Map<Seq<u8>, Seq<u8>>;

    closed spec fn view(&self) -> Map<Seq<u8>, Seq<u8>> {
        self.db@
    }
}

impl CellDb {
    /// Unique keys, and content addressing throughout.
    pub closed spec fn wf(self) -> bool {
        &&& self.db.wf()
        &&& content_addressed(self@)
    }

    /// The key set is finite.
    pub proof fn lemma_dom_finite(self)
        ensures
            self@.dom().finite(),
    {
        self.db.lemma_dom_finite();
    }

    /// The record count equals the number of stored keys.
    pub proof fn lemma_len_is_dom_len(self)
        requires
            self.wf(),
        ensures
            self@.dom().finite(),
            self.spec_len() == self@.dom().len(),
    {
        self.db.lemma_dom_len();
    }

    /// Constructs an empty in-memory cell store.
    pub fn in_memory() -> (r: Self)
        ensures
            r.wf(),
            r@ == Map::<Seq<u8>, Seq<u8>>::empty(),
    {
        CellDb { db: MemoryDb::new() }
    }

    /// Number of stored records.
    pub closed spec fn spec_len(self) -> nat {
        self.db.entry_seq().len()
    }

    /// Number of stored records.
    pub fn len(&self) -> (n: usize)
        ensures
            n == self.spec_len(),
    {
        self.db.len()
    }

    /// Whether a record for this hash is stored.
    pub fn contains(&self, cell_id: &CellId) -> (r: bool)
        ensures
            r <==> self@.contains_key(cell_id@),
    {
        self.db.contains(cell_id.as_slice())
    }

    /// Reads and parses the cell stored under `cell_id`; fails with
    /// `KeyNotFound` exactly when no record is stored.
    pub fn get_cell(&self, cell_id: &CellId) -> (r: Result<StorageCell, StorageError>)
        requires
            self.wf(),
        ensures
            match r {
                Ok(c) => {
                    &&& self@.contains_key(cell_id@)
                    &&& c.wf()
                    &&& storage_record(c@) == self@[cell_id@]
                    &&& c@.repr_hash == cell_id@
                    &&& c@.gc_gen == 0
                    &&& forall|i: int|
                        0 <= i < c@.references.len() ==> !(#[trigger] c@.references[i]).loaded
                },
                Err(e) => {
                    &&& !self@.contains_key(cell_id@)
                    &&& e == StorageError::KeyNotFound
                },
            },
    {
        match self.db.get(cell_id.as_slice()) {
            Some(record) => {
                match StorageCell::deserialize(record.as_slice()) {
                    Ok(c) => Ok(c),
                    Err(_) => Err(StorageError::SerializationError),
                }
            },
            None => Err(StorageError::KeyNotFound),
        }
    }

    /// Stores one well-formed cell under its representation hash.
    pub fn put_cell(&mut self, cell: &StorageCell)
        requires
            old(self).wf(),
            cell.wf(),
            storage_record_ok(storage_record(cell@)),
        ensures
            final(self).wf(),
            final(self)@ == old(self)@.insert(cell@.repr_hash, storage_record(cell@)),
    {
        let record = cell.serialize();
        let key = cell.id();
        let mut key_bytes: Vec<u8> = Vec::new();
        crate::codec::put_bytes(&mut key_bytes, key.as_slice());
        proof {
            assert(key_bytes@ =~= cell@.repr_hash);
        }
        self.db.put(key_bytes, record);
    }

    /// Stores one raw record under its digest key.
    pub fn put_record(&mut self, key: Vec<u8>, record: Vec<u8>)
        requires
            old(self).wf(),
            storage_record_ok(record@),
            sha256_of(record@) == key@,
        ensures
            final(self).wf(),
            final(self)@ == old(self)@.insert(key@, record@),
            final(self).spec_len() == old(self).spec_len() + if old(self)@.contains_key(key@) {
                0int
            } else {
                1int
            },
    {
        self.db.put(key, record);
    }

    /// Deletes the record stored under `key`, if any.
    pub fn delete(&mut self, cell_id: &CellId)
        requires
            old(self).wf(),
        ensures
            final(self).wf(),
            final(self)@ == old(self)@.remove(cell_id@),
    {
        self.db.delete(cell_id.as_slice());
    }

    /// Applies a batch of deletions: afterwards the store holds exactly the
    /// records whose keys the batch does not name, unchanged.
    pub fn commit_transaction(&mut self, transaction: CellDbTransaction)
        requires
            old(self).wf(),
        ensures
            final(self).wf(),
            forall|k: Seq<u8>| #[trigger]
                final(self)@.contains_key(k) <==> old(self)@.contains_key(k)
                    && !transaction.delete_seq().contains(k),
            forall|k: Seq<u8>| #[trigger]
                final(self)@.contains_key(k) ==> final(self)@[k] == old(self)@[k],
    {
        let n = transaction.deletes.len();
        let mut i: usize = 0;
        while i < n
            invariant
                i <= n,
                n == transaction.deletes@.len(),
                self.wf(),
                forall|k: Seq<u8>| #[trigger]
                    self@.contains_key(k) <==> old(self)@.contains_key(k)
                        && !transaction.delete_seq().take(i as int).contains(k),
                forall|k: Seq<u8>| #[trigger]
                    self@.contains_key(k) ==> self@[k] == old(self)@[k],
            decreases n - i,
        {
            let ghost prefix = transaction.delete_seq().take(i as int);
            self.db.delete(transaction.deletes[i].as_slice());
            proof {
                let longer = transaction.delete_seq().take(i + 1);
                assert forall|k: Seq<u8>| longer.contains(k) implies prefix.contains(k) || k
                    == transaction.delete_seq()[i as int] by {
                    let j = choose|j: int| 0 <= j < longer.len() && longer[j] == k;
                    if j < i {
                        assert(prefix[j] == k);
                    }
                }
                assert forall|k: Seq<u8>| prefix.contains(k) implies longer.contains(k) by {
                    let j = choose|j: int| 0 <= j < prefix.len() && prefix[j] == k;
                    assert(longer[j] == k);
                }
                assert(longer[i as int] == transaction.delete_seq()[i as int]);
            }
            i = i + 1;
        }
        proof {
            assert(transaction.delete_seq().take(n as int) =~= transaction.delete_seq());
        }
    }
}

/// A pending batch of record deletions, committed atomically.
#[derive(Debug)]
pub struct CellDbTransaction {
    deletes: Vec<Vec<u8>>,
}

impl CellDbTransaction {
    /// The keys this batch will delete, in order.
    pub closed spec fn delete_seq(self) -> Seq<Seq<u8>> {
        self.deletes@.map_values(|k: Vec<u8>| k@)
    }

    /// Begins an empty batch.
    pub fn new() -> (r: Self)
        ensures
            r.delete_seq().len() == 0,
    {
        CellDbTransaction { deletes: Vec::new() }
    }

    /// Adds one deletion to the batch.
    pub fn delete(&mut self, cell_id: &CellId)
        ensures
            final(self).delete_seq() == old(self).delete_seq().push(cell_id@),
    {
        let mut key: Vec<u8> = Vec::new();
        crate::codec::put_bytes(&mut key, cell_id.as_slice());
        proof {
            assert(key@ =~= cell_id@);
        }
        self.deletes.push(key);
        proof {
            assert(final(self).delete_seq() =~= old(self).delete_seq().push(cell_id@));
        }
    }

    /// Number of pending deletions.
    pub fn len(&self) -> (n: usize)
        ensures
            n == self.delete_seq().len(),
    {
        self.deletes.len()
    }

    /// Whether the batch is empty.
    pub fn is_empty(&self) -> (r: bool)
        ensures
            r <==> self.delete_seq().len() == 0,
    {
        self.deletes.len() == 0
    }
}

} // verus!
