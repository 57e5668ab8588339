//! The persisted form of a cell: header and data plus child references held
//! as hashes, each either still unloaded or already materialized in the
//! cache. The record layout is the cell's self-delimiting header followed by
//! a child-count byte and the 32-byte child hashes.

use vstd::prelude::*;
use vstd::bytes::spec_u16_from_le_bytes;
use vstd::bytes::spec_u16_to_le_bytes;
use crate::cell::Cell;
use crate::cell::cell_record_encoding;
use crate::cell::concat_hashes;
use crate::cell::model_record;
use crate::cell::MAX_CELL_DATA;
use crate::cell::MAX_REFERENCES_COUNT;
use crate::cell_id::CellId;
use crate::cell_id::CELL_ID_LEN;
use crate::codec::put_bytes;
use crate::codec::put_u16_le;
use crate::codec::read_bytes;
use crate::codec::read_u16_le;
use crate::error::StorageError;
use crate::hashing::sha256;
use crate::hashing::sha256_of;

verus! {

/// The state of one child slot.
pub struct ReferenceModel {
    pub loaded: bool,
    pub hash: Seq<u8>,
}

/// A reference to a child cell: the hash alone, or the hash of a child that
/// is already materialized in the in-memory cache.
#[derive(Debug)]
pub enum Reference {
    /// The child is materialized in the cache.
    Loaded(CellId),
    /// Only the hash is known; the child is read on first access.
    NeedToLoad(CellId),
}

impl View for Reference {
    type V = ReferenceModel;

    open spec fn view(&self) -> ReferenceModel {
        match self {
            Reference::Loaded(id) => ReferenceModel { loaded: true, hash: id@ },
            Reference::NeedToLoad(id) => ReferenceModel { loaded: false, hash: id@ },
        }
    }
}

impl Reference {
    /// The referenced cell's hash.
    pub fn hash(&self) -> (r: &CellId)
        ensures
            r@ == self@.hash,
    {
        match self {
            Reference::Loaded(id) => id,
            Reference::NeedToLoad(id) => id,
        }
    }
}

impl Clone for Reference {
    /// Clones the reference, keeping its state and hash.
    fn clone(&self) -> (r: Self)
        ensures
            r@ == self@,
    {
        match self {
            Reference::Loaded(id) => Reference::Loaded(id.clone()),
            Reference::NeedToLoad(id) => Reference::NeedToLoad(id.clone()),
        }
    }
}

/// Whether two reference lists name the same cells, position by position,
/// over the length of the left list.
pub fn references_hashes_equal(left: &Vec<Reference>, right: &Vec<Reference>) -> (r: bool)
    requires
        left@.len() <= right@.len(),
    ensures
        r <==> forall|i: int| 0 <= i < left@.len() ==> left@[i]@.hash == right@[i]@.hash,
{
    let mut i: usize = 0;
    while i < left.len()
        invariant
            i <= left@.len(),
            left@.len() <= right@.len(),
            forall|j: int| 0 <= j < i ==> left@[j]@.hash == right@[j]@.hash,
        decreases left@.len() - i,
    {
        if !crate::codec::bytes_eq(left[i].hash().as_slice(), right[i].hash().as_slice()) {
            return false;
        }
        i = i + 1;
    }
    true
}

/// The mathematical content of a persisted cell.
pub struct StorageCellModel {
    pub cell_type: u8,
    pub level_mask: u8,
    pub data: Seq<u8>,
    pub references: Seq<ReferenceModel>,
    pub gc_gen: u32,
    pub repr_hash: Seq<u8>,
}

/// The hashes named by a reference list.
pub open spec fn ref_hashes(refs: Seq<ReferenceModel>) -> Seq<Seq<u8>> {
    refs.map_values(|r: ReferenceModel| r.hash)
}

/// The record of a persisted cell.
pub open spec fn storage_record(m: StorageCellModel) -> Seq<u8> {
    cell_record_encoding(m.cell_type, m.level_mask, m.data, ref_hashes(m.references))
}

/// Whether `s` is exactly one well-formed cell record.
pub open spec fn storage_record_ok(s: Seq<u8>) -> bool {
    let dl = spec_u16_from_le_bytes(s.subrange(2, 4)) as int;
    &&& s.len() >= 5
    &&& dl <= MAX_CELL_DATA as int
    &&& s.len() >= 5 + dl
    &&& (s[4 + dl] as int) <= MAX_REFERENCES_COUNT as int
    &&& s.len() == 5 + dl + (CELL_ID_LEN as int) * (s[4 + dl] as int)
}

/// A cell as held by the store and the cache.
#[derive(Debug)]
pub struct StorageCell {
    cell_type: u8,
    level_mask: u8,
    data: Vec<u8>,
    references: Vec<Reference>,
    gc_gen: u32,
    repr_hash: CellId,
}

impl View for StorageCell {
    type V = StorageCellModel;

    closed spec fn view(&self) -> StorageCellModel {
        StorageCellModel {
            cell_type: self.cell_type,
            level_mask: self.level_mask,
            data: self.data@,
            references: self.references@.map_values(|r: Reference| r@),
            gc_gen: self.gc_gen,
            repr_hash: self.repr_hash@,
        }
    }
}

/// Well-formedness of a persisted cell: bounded fan-out and data, 32-byte
/// child hashes, and an identity that is the digest of the record.
pub open spec fn storage_wf(m: StorageCellModel) -> bool {
    &&& m.references.len() <= MAX_REFERENCES_COUNT
    &&& m.data.len() <= MAX_CELL_DATA
    &&& forall|i: int| 0 <= i < m.references.len() ==> (#[trigger] m.references[i]).hash.len()
        == CELL_ID_LEN
    &&& m.repr_hash == sha256_of(storage_record(m))
}

impl StorageCell {
    /// The cell is well formed.
    pub open spec fn wf(self) -> bool {
        storage_wf(self@)
    }

    /// Constructs a persisted cell from its parts; the given hash must be
    /// the digest of the record the parts encode to.
    pub fn with_params(
        repr_hash: CellId,
        cell_type: u8,
        level_mask: u8,
        data: Vec<u8>,
        references: Vec<Reference>,
        gc_gen: u32,
    ) -> (r: Self)
        requires
            references@.len() <= MAX_REFERENCES_COUNT,
            data@.len() <= MAX_CELL_DATA,
            forall|i: int| 0 <= i < references@.len() ==> (#[trigger] references@[i])@.hash.len()
                == CELL_ID_LEN,
            repr_hash@ == sha256_of(
                cell_record_encoding(
                    cell_type,
                    level_mask,
                    data@,
                    ref_hashes(references@.map_values(|r: Reference| r@)),
                ),
            ),
        ensures
            r.wf(),
            r@.cell_type == cell_type,
            r@.level_mask == level_mask,
            r@.data == data@,
            r@.references == references@.map_values(|r2: Reference| r2@),
            r@.gc_gen == gc_gen,
            r@.repr_hash == repr_hash@,
    {
        StorageCell { cell_type, level_mask, data, references, gc_gen, repr_hash }
    }

    /// Builds the persisted form of one in-memory cell: the same header and
    /// data, each child reference unloaded.
    pub fn from_single_cell(cell: &Cell, gc_gen: u32) -> (r: Self)
        requires
            cell.wf(),
        ensures
            r.wf(),
            r@.cell_type == cell.model().cell_type,
            r@.level_mask == cell.model().level_mask,
            r@.data == cell.model().data,
            r@.references.len() == cell.model().references.len(),
            forall|i: int|
                0 <= i < r@.references.len() ==> !(#[trigger] r@.references[i]).loaded
                    && r@.references[i].hash == cell.model().references[i].repr_hash,
            r@.gc_gen == gc_gen,
            r@.repr_hash == cell.model().repr_hash,
            storage_record(r@) == model_record(cell.model()),
    {
        let n = cell.references_count();
        let mut references: Vec<Reference> = Vec::new();
        let mut i: usize = 0;
        while i < n
            invariant
                i <= n,
                cell.wf(),
                n == cell.model().references.len(),
                references@.len() == i,
                forall|j: int|
                    0 <= j < i ==> !(#[trigger] references@[j]@).loaded && references@[j]@.hash
                        == cell.model().references[j].repr_hash,
            decreases n - i,
        {
            let child_hash = cell.reference(i).repr_hash().clone();
            proof {
                crate::cell::lemma_wf_child(cell.model(), i as int);
            }
            references.push(Reference::NeedToLoad(child_hash));
            i = i + 1;
        }
        let repr_hash = cell.repr_hash().clone();
        let r = StorageCell {
            cell_type: cell.cell_type(),
            level_mask: cell.level_mask(),
            data: cell.data().clone(),
            references,
            gc_gen,
            repr_hash,
        };
        proof {
            assert(ref_hashes(r@.references) =~= crate::cell::child_hashes(
                cell.model().references,
            ));
            assert(storage_record(r@) == model_record(cell.model()));
            assert forall|i2: int| 0 <= i2 < cell.model().references.len() implies (
            #[trigger] cell.model().references[i2]).repr_hash.len() == CELL_ID_LEN by {
                crate::cell::lemma_wf_child(cell.model(), i2);
            }
        }
        r
    }

    /// The cell's id.
    pub fn id(&self) -> (r: CellId)
        ensures
            r@ == self@.repr_hash,
    {
        self.repr_hash.clone()
    }

    /// The representation hash.
    pub fn repr_hash(&self) -> (r: &CellId)
        ensures
            r@ == self@.repr_hash,
    {
        &self.repr_hash
    }

    /// The garbage-collection generation last stamped on this cell.
    pub fn gc_gen(&self) -> (r: u32)
        ensures
            r == self@.gc_gen,
    {
        self.gc_gen
    }

    /// Stamps a garbage-collection generation.
    pub fn set_gc_gen(&mut self, gc_gen: u32)
        ensures
            final(self)@ == (StorageCellModel { gc_gen, ..old(self)@ }),
    {
        self.gc_gen = gc_gen;
    }

    /// The data bytes.
    pub fn data(&self) -> (r: &Vec<u8>)
        ensures
            r@ == self@.data,
    {
        &self.data
    }

    /// Number of child references.
    pub fn references_count(&self) -> (n: usize)
        ensures
            n == self@.references.len(),
    {
        self.references.len()
    }

    /// The hash held by child slot `i`.
    pub fn reference_hash(&self, i: usize) -> (r: &CellId)
        requires
            i < self@.references.len(),
        ensures
            r@ == self@.references[i as int].hash,
    {
        self.references[i].hash()
    }

    /// Whether child slot `i` is already materialized.
    pub fn reference_loaded(&self, i: usize) -> (r: bool)
        requires
            i < self@.references.len(),
        ensures
            r == self@.references[i as int].loaded,
    {
        match &self.references[i] {
            Reference::Loaded(_) => true,
            Reference::NeedToLoad(_) => false,
        }
    }

    /// Marks child slot `i` as materialized; the hash is unchanged.
    pub fn set_reference_loaded(&mut self, i: usize)
        requires
            i < old(self)@.references.len(),
        ensures
            final(self)@.references == old(self)@.references.update(
                i as int,
                ReferenceModel { loaded: true, hash: old(self)@.references[i as int].hash },
            ),
            final(self)@ == (StorageCellModel {
                references: final(self)@.references,
                ..old(self)@
            }),
            old(self).wf() ==> final(self).wf(),
    {
        let hash = self.references[i].hash().clone();
        self.references.set(i, Reference::Loaded(hash));
        proof {
            assert(final(self)@.references =~= old(self)@.references.update(
                i as int,
                ReferenceModel { loaded: true, hash: old(self)@.references[i as int].hash },
            ));
            assert(ref_hashes(final(self)@.references) =~= ref_hashes(old(self)@.references));
        }
    }

    /// Writes the cell record.
    pub fn serialize(&self) -> (r: Vec<u8>)
        requires
            self.wf(),
        ensures
            r@ == storage_record(self@),
    {
        let mut record: Vec<u8> = Vec::new();
        record.push(self.cell_type);
        record.push(self.level_mask);
        put_u16_le(&mut record, self.data.len() as u16);
        put_bytes(&mut record, self.data.as_slice());
        record.push(self.references.len() as u8);
        let n = self.references.len();
        let mut i: usize = 0;
        while i < n
            invariant
                i <= n,
                n == self@.references.len(),
                self.wf(),
                record@ == seq![self@.cell_type, self@.level_mask] + spec_u16_to_le_bytes(
                    self@.data.len() as u16,
                ) + self@.data + seq![self@.references.len() as u8] + concat_hashes(
                    ref_hashes(self@.references).take(i as int),
                ),
            decreases n - i,
        {
            put_bytes(&mut record, self.references[i].hash().as_slice());
            proof {
                let taken = ref_hashes(self@.references).take(i + 1);
                assert(taken.drop_last() =~= ref_hashes(self@.references).take(i as int));
                assert(taken.last() == self@.references[i as int].hash);
            }
            i = i + 1;
        }
        proof {
            assert(ref_hashes(self@.references).take(n as int) =~= ref_hashes(self@.references));
            assert(record@ =~= storage_record(self@));
        }
        record
    }

    /// Reads a cell record back; every child slot starts unloaded and the
    /// generation starts at zero. Fails with `SerializationError` exactly
    /// when the bytes are not one well-formed record.
    pub fn deserialize(data: &[u8]) -> (r: Result<Self, StorageError>)
        ensures
            match r {
                Ok(c) => {
                    &&& storage_record_ok(data@)
                    &&& c.wf()
                    &&& storage_record(c@) == data@
                    &&& c@.gc_gen == 0
                    &&& c@.repr_hash == sha256_of(data@)
                    &&& forall|i: int|
                        0 <= i < c@.references.len() ==> !(#[trigger] c@.references[i]).loaded
                },
                Err(e) => {
                    &&& !storage_record_ok(data@)
                    &&& e == StorageError::SerializationError
                },
            },
    {
        let n = data.len();
        if n < 5 {
            return Err(StorageError::SerializationError);
        }
        let cell_type = data[0];
        let level_mask = data[1];
        let data_len = read_u16_le(data, 2) as usize;
        if data_len > MAX_CELL_DATA || n < 5 + data_len {
            return Err(StorageError::SerializationError);
        }
        let ref_count = data[4 + data_len] as usize;
        if ref_count > MAX_REFERENCES_COUNT || n != 5 + data_len + CELL_ID_LEN * ref_count {
            return Err(StorageError::SerializationError);
        }
        let cell_data = read_bytes(data, 4, data_len);
        let mut references: Vec<Reference> = Vec::new();
        let mut i: usize = 0;
        while i < ref_count
            invariant
                i <= ref_count,
                n == data@.len(),
                n == 5 + data_len + CELL_ID_LEN * ref_count,
                ref_count <= MAX_REFERENCES_COUNT,
                data_len <= MAX_CELL_DATA,
                references@.len() == i,
                forall|j: int|
                    0 <= j < i ==> !(#[trigger] references@[j]@).loaded && references@[j]@.hash
                        == data@.subrange(
                        5 + data_len + CELL_ID_LEN * j,
                        5 + data_len + CELL_ID_LEN * (j + 1),
                    ),
            decreases ref_count - i,
        {
            let hash = read_bytes(data, 5 + data_len + CELL_ID_LEN * i, CELL_ID_LEN);
            references.push(Reference::NeedToLoad(CellId::new(hash)));
            i = i + 1;
        }
        let repr_hash = CellId::new(sha256(data));
        let c = StorageCell {
            cell_type,
            level_mask,
            data: cell_data,
            references,
            gc_gen: 0,
            repr_hash,
        };
        proof {
            vstd::bytes::lemma_auto_spec_u16_to_from_le_bytes();
            lemma_concat_of_chunks(data@, 5 + data_len, ref_count as int);
            assert(ref_hashes(c@.references) =~= Seq::new(
                ref_count as nat,
                |j: int|
                    data@.subrange(
                        5 + data_len + CELL_ID_LEN * j,
                        5 + data_len + CELL_ID_LEN * (j + 1),
                    ),
            ));
            assert(storage_record(c@) =~= data@);
        }
        Ok(c)
    }
}

impl Clone for StorageCell {
    /// Clones the cell, keeping its whole content.
    fn clone(&self) -> (r: Self)
        ensures
            r@ == self@,
    {
        let mut references: Vec<Reference> = Vec::new();
        let mut i: usize = 0;
        let n = self.references.len();
        while i < n
            invariant
                i <= n,
                n == self.references@.len(),
                references@.len() == i,
                forall|j: int| 0 <= j < i ==> (#[trigger] references@[j])@ == self.references@[j]@,
            decreases n - i,
        {
            references.push(self.references[i].clone());
            i = i + 1;
        }
        let r = StorageCell {
            cell_type: self.cell_type,
            level_mask: self.level_mask,
            data: self.data.clone(),
            references,
            gc_gen: self.gc_gen,
            repr_hash: self.repr_hash.clone(),
        };
        proof {
            assert(r@.references =~= self@.references);
        }
        r
    }
}

/// Concatenated hashes of 32 bytes each take 32 bytes per hash.
pub proof fn lemma_concat_hashes_len(hs: Seq<Seq<u8>>)
    requires
        forall|i: int| 0 <= i < hs.len() ==> (#[trigger] hs[i]).len() == CELL_ID_LEN,
    ensures
        concat_hashes(hs).len() == CELL_ID_LEN * hs.len(),
    decreases hs.len(),
{
    if hs.len() > 0 {
        lemma_concat_hashes_len(hs.drop_last());
    }
}

/// A well-formed cell's record is one well-formed record: the bounds in the
/// header match the content.
pub proof fn lemma_record_ok(m: StorageCellModel)
    requires
        m.references.len() <= MAX_REFERENCES_COUNT,
        m.data.len() <= MAX_CELL_DATA,
        forall|i: int| 0 <= i < m.references.len() ==> (#[trigger] m.references[i]).hash.len()
            == CELL_ID_LEN,
    ensures
        storage_record_ok(storage_record(m)),
{
    let s = storage_record(m);
    vstd::bytes::lemma_auto_spec_u16_to_from_le_bytes();
    assert(s.subrange(2, 4) =~= spec_u16_to_le_bytes(m.data.len() as u16));
    assert forall|i: int| 0 <= i < ref_hashes(m.references).len() implies (
    #[trigger] ref_hashes(m.references)[i]).len() == CELL_ID_LEN by {
        assert(ref_hashes(m.references)[i] == m.references[i].hash);
    }
    lemma_concat_hashes_len(ref_hashes(m.references));
    assert(s[4 + m.data.len() as int] == m.references.len() as u8);
    assert(s.len() == 5 + m.data.len() + CELL_ID_LEN * m.references.len());
}

/// The child hashes named by one raw record.
pub open spec fn record_children(rec: Seq<u8>) -> Seq<Seq<u8>> {
    let dl = spec_u16_from_le_bytes(rec.subrange(2, 4)) as int;
    Seq::new(
        rec[4 + dl] as nat,
        |i: int|
            rec.subrange(
                5 + dl + (CELL_ID_LEN as int) * i,
                5 + dl + (CELL_ID_LEN as int) * (i + 1),
            ),
    )
}

/// Within concatenated 32-byte hashes, the bytes of the hash at position `i`
/// sit at offset 32 times `i`.
pub proof fn lemma_concat_hashes_index(hs: Seq<Seq<u8>>, i: int)
    requires
        forall|j: int| 0 <= j < hs.len() ==> (#[trigger] hs[j]).len() == CELL_ID_LEN,
        0 <= i < hs.len(),
    ensures
        concat_hashes(hs).subrange(
            (CELL_ID_LEN as int) * i,
            (CELL_ID_LEN as int) * (i + 1),
        ) == hs[i],
    decreases hs.len(),
{
    lemma_concat_hashes_len(hs);
    if i == hs.len() - 1 {
        lemma_concat_hashes_len(hs.drop_last());
        assert(concat_hashes(hs).subrange(
            (CELL_ID_LEN as int) * i,
            (CELL_ID_LEN as int) * (i + 1),
        ) =~= hs[i]);
    } else {
        assert(hs.drop_last()[i] == hs[i]);
        lemma_concat_hashes_index(hs.drop_last(), i);
        lemma_concat_hashes_len(hs.drop_last());
        assert(concat_hashes(hs).subrange(
            (CELL_ID_LEN as int) * i,
            (CELL_ID_LEN as int) * (i + 1),
        ) =~= concat_hashes(hs.drop_last()).subrange(
            (CELL_ID_LEN as int) * i,
            (CELL_ID_LEN as int) * (i + 1),
        ));
    }
}

/// The children named by a well-formed cell's record are its references.
pub proof fn lemma_record_children(m: StorageCellModel)
    requires
        m.references.len() <= MAX_REFERENCES_COUNT,
        m.data.len() <= MAX_CELL_DATA,
        forall|i: int| 0 <= i < m.references.len() ==> (#[trigger] m.references[i]).hash.len()
            == CELL_ID_LEN,
    ensures
        record_children(storage_record(m)) == ref_hashes(m.references),
{
    let s = storage_record(m);
    vstd::bytes::lemma_auto_spec_u16_to_from_le_bytes();
    assert(s.subrange(2, 4) =~= spec_u16_to_le_bytes(m.data.len() as u16));
    assert forall|i: int| 0 <= i < ref_hashes(m.references).len() implies (
    #[trigger] ref_hashes(m.references)[i]).len() == CELL_ID_LEN by {
        assert(ref_hashes(m.references)[i] == m.references[i].hash);
    }
    lemma_concat_hashes_len(ref_hashes(m.references));
    assert(s[4 + m.data.len() as int] == m.references.len() as u8);
    assert forall|i: int| 0 <= i < m.references.len() implies record_children(s)[i] == ref_hashes(
        m.references,
    )[i] by {
        lemma_concat_hashes_index(ref_hashes(m.references), i);
        let dl = m.data.len() as int;
        assert(s.subrange(5 + dl + (CELL_ID_LEN as int) * i, 5 + dl + (CELL_ID_LEN as int) * (i
            + 1)) =~= concat_hashes(ref_hashes(m.references)).subrange(
            (CELL_ID_LEN as int) * i,
            (CELL_ID_LEN as int) * (i + 1),
        ));
    }
    assert(record_children(s) =~= ref_hashes(m.references));
}

/// The children named by a well-formed cell model's record are its
/// references' hashes.
pub proof fn lemma_model_record_children(m: crate::cell::CellModel)
    requires
        m.references.len() <= MAX_REFERENCES_COUNT,
        m.data.len() <= MAX_CELL_DATA,
        forall|i: int| 0 <= i < m.references.len() ==> (#[trigger] m.references[i]).repr_hash.len()
            == CELL_ID_LEN,
    ensures
        record_children(model_record(m)) == crate::cell::child_hashes(m.references),
{
    let hs = crate::cell::child_hashes(m.references);
    let s = model_record(m);
    vstd::bytes::lemma_auto_spec_u16_to_from_le_bytes();
    assert(s.subrange(2, 4) =~= spec_u16_to_le_bytes(m.data.len() as u16));
    assert forall|i: int| 0 <= i < hs.len() implies (#[trigger] hs[i]).len() == CELL_ID_LEN by {
        assert(hs[i] == m.references[i].repr_hash);
    }
    lemma_concat_hashes_len(hs);
    assert(s[4 + m.data.len() as int] == m.references.len() as u8);
    assert forall|i: int| 0 <= i < m.references.len() implies record_children(s)[i] == hs[i] by {
        lemma_concat_hashes_index(hs, i);
        let dl = m.data.len() as int;
        assert(s.subrange(5 + dl + (CELL_ID_LEN as int) * i, 5 + dl + (CELL_ID_LEN as int) * (i
            + 1)) =~= concat_hashes(hs).subrange(
            (CELL_ID_LEN as int) * i,
            (CELL_ID_LEN as int) * (i + 1),
        ));
    }
    assert(record_children(s) =~= hs);
}

/// Concatenating the 32-byte chunks of a byte range gives back that range.
pub proof fn lemma_concat_of_chunks(s: Seq<u8>, base: int, n: int)
    requires
        0 <= base,
        0 <= n,
        base + 32 * n <= s.len(),
    ensures
        concat_hashes(
            Seq::new(n as nat, |j: int| s.subrange(base + 32 * j, base + 32 * (j + 1))),
        ) == s.subrange(base, base + 32 * n),
    decreases n,
{
    let chunks = Seq::new(n as nat, |j: int| s.subrange(base + 32 * j, base + 32 * (j + 1)));
    if n == 0 {
        assert(concat_hashes(chunks) =~= s.subrange(base, base));
    } else {
        lemma_concat_of_chunks(s, base, n - 1);
        let prev = Seq::new((n - 1) as nat, |j: int| s.subrange(base + 32 * j, base + 32 * (j + 1)));
        assert(chunks.drop_last() =~= prev);
        assert(concat_hashes(chunks) == concat_hashes(prev) + chunks.last());
        assert(concat_hashes(chunks) =~= s.subrange(base, base + 32 * n));
    }
}

} // verus!
