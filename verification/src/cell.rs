//! The in-memory cell: the immutable, content-addressed node of the chain
//! state DAG. A cell owns its header and data and up to four child cells; its
//! representation hash is the digest of the header, the data and the child
//! hashes, so equal content means equal identity.
//!
//! The header is modelled as the cell type, the level mask and a 16-bit data
//! length; the per-level hashes, depths and the bit-granular data length
//! that richer cell implementations carry are left out, since nothing in
//! this store reads them — a cell is persisted and recovered whole through
//! its record.

use vstd::prelude::*;
use vstd::bytes::spec_u16_to_le_bytes;
use crate::cell_id::CellId;
use crate::cell_id::CELL_ID_LEN;
use crate::hashing::sha256;
use crate::hashing::sha256_of;
use crate::codec::put_bytes;
use crate::codec::put_u16_le;

verus! {

/// Most references a cell may hold.
pub const MAX_REFERENCES_COUNT: usize = 4;

/// Longest data a cell may hold, so that the length fits its header field.
pub const MAX_CELL_DATA: usize = 1024;

/// The mathematical content of a cell tree.
pub struct CellModel {
    pub cell_type: u8,
    pub level_mask: u8,
    pub data: Seq<u8>,
    pub references: Seq<CellModel>,
    pub repr_hash: Seq<u8>,
}

/// Concatenation of a list of hashes.
pub open spec fn concat_hashes(s: Seq<Seq<u8>>) -> Seq<u8>
    decreases s.len(),
{
    if s.len() == 0 {
        Seq::empty()
    } else {
        concat_hashes(s.drop_last()) + s.last()
    }
}

/// The self-delimiting record of a cell: type and level-mask bytes, the
/// 2-byte little-endian data length, the data, a child-count byte, then the
/// 32-byte child hashes.
pub open spec fn cell_record_encoding(
    cell_type: u8,
    level_mask: u8,
    data: Seq<u8>,
    refs: Seq<Seq<u8>>,
) -> Seq<u8> {
    seq![cell_type, level_mask] + spec_u16_to_le_bytes(data.len() as u16) + data + seq![
        refs.len() as u8,
    ] + concat_hashes(refs)
}

/// The hashes of a cell model's children.
pub open spec fn child_hashes(refs: Seq<CellModel>) -> Seq<Seq<u8>> {
    refs.map_values(|c: CellModel| c.repr_hash)
}

/// The record of a cell model.
pub open spec fn model_record(m: CellModel) -> Seq<u8> {
    cell_record_encoding(m.cell_type, m.level_mask, m.data, child_hashes(m.references))
}

/// Well-formedness of a cell model: bounded fan-out and data, a hash that is
/// the digest of the record, and well-formed children.
pub open spec fn model_wf(m: CellModel) -> bool
    decreases m,
{
    &&& m.references.len() <= MAX_REFERENCES_COUNT
    &&& m.data.len() <= MAX_CELL_DATA
    &&& m.repr_hash == sha256_of(model_record(m))
    &&& m.repr_hash.len() == CELL_ID_LEN
    &&& forall|i: int| 0 <= i < m.references.len() ==> model_wf(#[trigger] m.references[i])
}

/// An immutable in-memory cell.
#[derive(Debug)]
pub struct Cell {
    cell_type: u8,
    level_mask: u8,
    data: Vec<u8>,
    references: Vec<Cell>,
    repr_hash: CellId,
}

impl Cell {
    /// The content of the cell tree.
    pub closed spec fn model(self) -> CellModel
        decreases self,
    {
        CellModel {
            cell_type: self.cell_type,
            level_mask: self.level_mask,
            data: self.data@,
            references: Cell::models_of(self.references@),
            repr_hash: self.repr_hash@,
        }
    }

    /// The contents of a list of cells.
    pub closed spec fn models_of(s: Seq<Cell>) -> Seq<CellModel>
        decreases s,
    {
        if s.len() == 0 {
            Seq::empty()
        } else {
            Cell::models_of(s.drop_last()).push(s.last().model())
        }
    }

    /// `models_of` maps each cell to its content.
    pub proof fn lemma_models_of(s: Seq<Cell>)
        ensures
            Cell::models_of(s).len() == s.len(),
            forall|i: int| 0 <= i < s.len() ==> Cell::models_of(s)[i] == (#[trigger] s[i]).model(),
        decreases s,
    {
        if s.len() > 0 {
            Cell::lemma_models_of(s.drop_last());
            assert forall|i: int| 0 <= i < s.len() implies Cell::models_of(s)[i] == (
            #[trigger] s[i]).model() by {
                if i < s.len() - 1 {
                    assert(s.drop_last()[i] == s[i]);
                } else {
                    assert(s[i] == s.last());
                }
            }
        }
    }

    /// The whole tree is well formed.
    pub open spec fn wf(self) -> bool {
        model_wf(self.model())
    }

    /// Constructs a cell over its children; the representation hash is
    /// computed here, which makes the cell content-addressed by construction.
    pub fn with_params(cell_type: u8, level_mask: u8, data: Vec<u8>, references: Vec<Cell>) -> (r:
        Self)
        requires
            data@.len() <= MAX_CELL_DATA,
            references@.len() <= MAX_REFERENCES_COUNT,
            forall|i: int| 0 <= i < references@.len() ==> (#[trigger] references@[i]).wf(),
        ensures
            r.wf(),
            r.model().cell_type == cell_type,
            r.model().level_mask == level_mask,
            r.model().data == data@,
            r.model().references.len() == references@.len(),
            forall|i: int|
                0 <= i < references@.len() ==> r.model().references[i] == (
                #[trigger] references@[i]).model(),
    {
        let mut record: Vec<u8> = Vec::new();
        record.push(cell_type);
        record.push(level_mask);
        put_u16_le(&mut record, data.len() as u16);
        put_bytes(&mut record, data.as_slice());
        record.push(references.len() as u8);
        let ghost ref_models = Cell::models_of(references@);
        proof {
            Cell::lemma_models_of(references@);
        }
        let mut i: usize = 0;
        while i < references.len()
            invariant
                i <= references@.len(),
                data@.len() <= MAX_CELL_DATA,
                references@.len() <= MAX_REFERENCES_COUNT,
                ref_models == Cell::models_of(references@),
                ref_models.len() == references@.len(),
                forall|j: int|
                    0 <= j < references@.len() ==> ref_models[j] == (
                    #[trigger] references@[j]).model(),
                forall|j: int| 0 <= j < references@.len() ==> (#[trigger] references@[j]).wf(),
                record@ == seq![cell_type, level_mask] + spec_u16_to_le_bytes(
                    data@.len() as u16,
                ) + data@ + seq![references@.len() as u8] + concat_hashes(
                    child_hashes(ref_models).take(i as int),
                ),
            decreases references@.len() - i,
        {
            put_bytes(&mut record, references[i].repr_hash.as_slice());
            proof {
                let taken = child_hashes(ref_models).take(i + 1);
                assert(taken.drop_last() =~= child_hashes(ref_models).take(i as int));
                assert(taken.last() == ref_models[i as int].repr_hash);
            }
            i = i + 1;
        }
        proof {
            assert(child_hashes(ref_models).take(ref_models.len() as int) =~= child_hashes(
                ref_models,
            ));
        }
        let repr_hash = CellId::new(sha256(record.as_slice()));
        let r = Cell { cell_type, level_mask, data, references, repr_hash };
        proof {
            assert(record@ =~= model_record(r.model()));
            assert forall|i: int| 0 <= i < r.model().references.len() implies model_wf(
                #[trigger] r.model().references[i],
            ) by {
                assert(r.model().references == ref_models);
                assert(ref_models[i] == references@[i].model());
                assert(references@[i].wf());
                assert(model_wf(references@[i].model()));
            }
        }
        r
    }

    /// The representation hash.
    pub fn repr_hash(&self) -> (r: &CellId)
        ensures
            r@ == self.model().repr_hash,
    {
        &self.repr_hash
    }

    /// The cell type byte.
    pub fn cell_type(&self) -> (r: u8)
        ensures
            r == self.model().cell_type,
    {
        self.cell_type
    }

    /// The level mask byte.
    pub fn level_mask(&self) -> (r: u8)
        ensures
            r == self.model().level_mask,
    {
        self.level_mask
    }

    /// The data bytes.
    pub fn data(&self) -> (r: &Vec<u8>)
        ensures
            r@ == self.model().data,
    {
        &self.data
    }

    /// Number of child references.
    pub fn references_count(&self) -> (n: usize)
        ensures
            n == self.model().references.len(),
    {
        proof {
            Cell::lemma_models_of(self.references@);
        }
        self.references.len()
    }

    /// The child at position `i`.
    pub fn reference(&self, i: usize) -> (r: &Cell)
        requires
            i < self.model().references.len(),
        ensures
            r.model() == self.model().references[i as int],
    {
        proof {
            Cell::lemma_models_of(self.references@);
        }
        &self.references[i]
    }
}

/// A well-formed cell's children are well formed.
pub proof fn lemma_wf_child(m: CellModel, i: int)
    requires
        model_wf(m),
        0 <= i < m.references.len(),
    ensures
        model_wf(m.references[i]),
{
}

} // verus!
