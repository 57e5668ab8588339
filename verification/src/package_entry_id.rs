//! The logical identifier of one archived blob: which artifact of which
//! block. Its short file name is derived deterministically from the kind
//! and the block's root hash.

use vstd::prelude::*;
use crate::block_id::block_id_encoding;
use crate::block_id::BlockIdExt;
use crate::block_id::BlockIdExtModel;
use crate::hashing::hex_bytes_of;
use crate::hashing::hex_encode;

verus! {

/// The artifact of a block that an archive entry holds.
#[derive(Debug)]
pub enum PackageEntryId {
    /// The block data.
    Block(BlockIdExt),
    /// The block proof.
    Proof(BlockIdExt),
    /// The block proof link.
    ProofLink(BlockIdExt),
}

/// The mathematical content of an entry identifier.
pub struct PackageEntryIdModel {
    pub kind: u8,
    pub block_id_ext: BlockIdExtModel,
}

/// Kind byte of a block-data entry.
pub const ENTRY_KIND_BLOCK: u8 = 98;

/// Kind byte of a proof entry.
pub const ENTRY_KIND_PROOF: u8 = 112;

/// Kind byte of a proof-link entry.
pub const ENTRY_KIND_PROOF_LINK: u8 = 108;

impl View for PackageEntryId {
    type V = PackageEntryIdModel;

    open spec fn view(&self) -> PackageEntryIdModel {
        match self {
            PackageEntryId::Block(id) => PackageEntryIdModel {
                kind: ENTRY_KIND_BLOCK,
                block_id_ext: id@,
            },
            PackageEntryId::Proof(id) => PackageEntryIdModel {
                kind: ENTRY_KIND_PROOF,
                block_id_ext: id@,
            },
            PackageEntryId::ProofLink(id) => PackageEntryIdModel {
                kind: ENTRY_KIND_PROOF_LINK,
                block_id_ext: id@,
            },
        }
    }
}

/// The deterministic short file name of an entry: its kind byte, an
/// underscore, then the block root hash in hexadecimal.
pub open spec fn filename_short_of(m: PackageEntryIdModel) -> Seq<u8> {
    seq![m.kind, 95u8] + hex_bytes_of(m.block_id_ext.root_hash)
}

/// The serialized identifier: the kind byte then the serialized block
/// identifier.
pub open spec fn entry_id_encoding(m: PackageEntryIdModel) -> Seq<u8> {
    seq![m.kind] + block_id_encoding(m.block_id_ext)
}

impl PackageEntryId {
    /// The block this entry belongs to.
    pub fn block_id_ext(&self) -> (r: &BlockIdExt)
        ensures
            r@ == self@.block_id_ext,
    {
        match self {
            PackageEntryId::Block(id) => id,
            PackageEntryId::Proof(id) => id,
            PackageEntryId::ProofLink(id) => id,
        }
    }

    /// The kind byte.
    pub fn kind(&self) -> (r: u8)
        ensures
            r == self@.kind,
    {
        match self {
            PackageEntryId::Block(_) => ENTRY_KIND_BLOCK,
            PackageEntryId::Proof(_) => ENTRY_KIND_PROOF,
            PackageEntryId::ProofLink(_) => ENTRY_KIND_PROOF_LINK,
        }
    }

    /// The deterministic short file name.
    pub fn filename_short(&self) -> (r: Vec<u8>)
        ensures
            r@ == filename_short_of(self@),
    {
        let mut out: Vec<u8> = Vec::new();
        out.push(self.kind());
        out.push(95u8);
        let hex = hex_encode(self.block_id_ext().root_hash.as_slice());
        crate::codec::put_bytes(&mut out, hex.as_slice());
        proof {
            assert(out@ =~= filename_short_of(self@));
        }
        out
    }

    /// The serialized identifier.
    pub fn serialize(&self) -> (r: Vec<u8>)
        ensures
            r@ == entry_id_encoding(self@),
    {
        let mut out: Vec<u8> = Vec::new();
        out.push(self.kind());
        self.block_id_ext().write_encoding(&mut out);
        proof {
            assert(out@ =~= entry_id_encoding(self@));
        }
        out
    }
}

} // verus!
