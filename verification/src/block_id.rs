//! Block identifiers: the shard coordinate, the extended block id, and the
//! database key form, which is the SHA-256 digest of all five components.

use vstd::prelude::*;
use vstd::bytes::*;
use crate::cell_id::CellId;
use crate::codec::put_bytes;
use crate::codec::put_u32_le;
use crate::codec::put_u64_le;
use crate::db::DbKey;
use crate::hashing::sha256;
use crate::hashing::sha256_of;

verus! {

/// The distinguished top-level workchain.
pub const MASTERCHAIN_ID: i32 = -1;

/// Deepest allowed shard split.
pub const MAX_SPLIT_DEPTH: u8 = 60;

/// A shard coordinate: workchain and tagged shard prefix.
#[derive(Debug, Clone, Copy, PartialEq, Eq, Structural)]
pub struct ShardIdent {
    pub workchain_id: i32,
    pub shard_prefix_tagged: u64,
}

/// The tagged prefix that covers the first `len` bits of `prefix`: the
/// covered bits followed by a single tag bit.
pub open spec fn spec_tagged_prefix(len: u8, prefix: u64) -> u64 {
    if len == 0 {
        1u64 << 63
    } else {
        ((prefix >> (64 - len) as u64) << (64 - len) as u64) | (1u64 << (63 - len) as u64)
    }
}

impl ShardIdent {
    /// Constructs a shard from an already tagged prefix.
    pub fn with_tagged_prefix(workchain_id: i32, shard_prefix_tagged: u64) -> (r: Self)
        ensures
            r.workchain_id == workchain_id,
            r.shard_prefix_tagged == shard_prefix_tagged,
    {
        ShardIdent { workchain_id, shard_prefix_tagged }
    }

    /// The shard of depth `len` that contains accounts with the given
    /// address prefix.
    pub fn with_prefix_len(len: u8, workchain_id: i32, prefix: u64) -> (r: Self)
        requires
            len <= MAX_SPLIT_DEPTH,
        ensures
            r.workchain_id == workchain_id,
            r.shard_prefix_tagged == spec_tagged_prefix(len, prefix),
    {
        if len == 0 {
            ShardIdent { workchain_id, shard_prefix_tagged: 1u64 << 63 }
        } else {
            let covered = (prefix >> (64 - len) as u64) << (64 - len) as u64;
            let tag = 1u64 << (63 - len) as u64;
            ShardIdent { workchain_id, shard_prefix_tagged: covered | tag }
        }
    }

    /// Whether this is the masterchain shard.
    pub fn is_masterchain(&self) -> (r: bool)
        ensures
            r <==> self.workchain_id == MASTERCHAIN_ID,
    {
        self.workchain_id == MASTERCHAIN_ID
    }

    /// The serialized coordinate: workchain then tagged prefix, both
    /// little-endian.
    pub open spec fn encoding(self) -> Seq<u8> {
        spec_u32_to_le_bytes(self.workchain_id as u32) + spec_u64_to_le_bytes(
            self.shard_prefix_tagged,
        )
    }

    /// Writes the serialized coordinate.
    pub fn write_encoding(&self, out: &mut Vec<u8>)
        ensures
            final(out)@ == old(out)@ + self.encoding(),
    {
        put_u32_le(out, self.workchain_id as u32);
        put_u64_le(out, self.shard_prefix_tagged);
        proof {
            assert(out@ =~= old(out)@ + self.encoding());
        }
    }
}

/// The mathematical content of an extended block id.
pub struct BlockIdExtModel {
    pub shard_id: ShardIdent,
    pub seq_no: u32,
    pub root_hash: Seq<u8>,
    pub file_hash: Seq<u8>,
}

/// The full identifier of a block: shard, sequence number, root hash and
/// file hash.
#[derive(Debug)]
pub struct BlockIdExt {
    pub shard_id: ShardIdent,
    pub seq_no: u32,
    pub root_hash: CellId,
    pub file_hash: CellId,
}

impl View for BlockIdExt {
    type V = BlockIdExtModel;

    open spec fn view(&self) -> BlockIdExtModel {
        BlockIdExtModel {
            shard_id: self.shard_id,
            seq_no: self.seq_no,
            root_hash: self.root_hash@,
            file_hash: self.file_hash@,
        }
    }
}

/// The serialized identifier: shard, sequence number, then both hashes.
pub open spec fn block_id_encoding(m: BlockIdExtModel) -> Seq<u8> {
    m.shard_id.encoding() + spec_u32_to_le_bytes(m.seq_no) + m.root_hash + m.file_hash
}

impl BlockIdExt {
    /// Both hashes hold 32 bytes.
    pub open spec fn wf(self) -> bool {
        &&& self.root_hash.wf()
        &&& self.file_hash.wf()
    }

    /// Constructs an extended block id from its parts.
    pub fn with_params(shard_id: ShardIdent, seq_no: u32, root_hash: CellId, file_hash: CellId) -> (r: Self)
        ensures
            r@.shard_id == shard_id,
            r@.seq_no == seq_no,
            r@.root_hash == root_hash@,
            r@.file_hash == file_hash@,
    {
        BlockIdExt { shard_id, seq_no, root_hash, file_hash }
    }

    /// The shard coordinate.
    pub fn shard(&self) -> (r: &ShardIdent)
        ensures
            r == self.shard_id,
    {
        &self.shard_id
    }

    /// The sequence number.
    pub fn seq_no(&self) -> (r: u32)
        ensures
            r == self@.seq_no,
    {
        self.seq_no
    }

    /// Writes the serialized identifier.
    pub fn write_encoding(&self, out: &mut Vec<u8>)
        ensures
            final(out)@ == old(out)@ + block_id_encoding(self@),
    {
        self.shard_id.write_encoding(out);
        put_u32_le(out, self.seq_no);
        put_bytes(out, self.root_hash.as_slice());
        put_bytes(out, self.file_hash.as_slice());
        proof {
            assert(out@ =~= old(out)@ + block_id_encoding(self@));
        }
    }
}

impl Clone for BlockIdExt {
    /// Clones the identifier, keeping every component.
    fn clone(&self) -> (r: Self)
        ensures
            r@ == self@,
    {
        BlockIdExt {
            shard_id: self.shard_id,
            seq_no: self.seq_no,
            root_hash: self.root_hash.clone(),
            file_hash: self.file_hash.clone(),
        }
    }
}

/// The mathematical content of a block database key.
pub struct BlockIdModel {
    pub key: Seq<u8>,
    pub block_id_ext: BlockIdExtModel,
}

/// The database key form of a block id: the SHA-256 digest of the serialized
/// identifier, kept together with the identifier itself.
#[derive(Debug)]
pub struct BlockId {
    key: Vec<u8>,
    block_id_ext: BlockIdExt,
}

impl View for BlockId {
    type V = BlockIdModel;

    closed spec fn view(&self) -> BlockIdModel {
        BlockIdModel { key: self.key@, block_id_ext: self.block_id_ext@ }
    }
}

impl BlockId {
    /// The key is the digest of the identifier's encoding.
    pub open spec fn wf(self) -> bool {
        self@.key == sha256_of(block_id_encoding(self@.block_id_ext))
    }

    /// Builds the key form of an identifier.
    pub fn from_ext(block_id_ext: BlockIdExt) -> (r: Self)
        ensures
            r.wf(),
            r@.block_id_ext == block_id_ext@,
    {
        let mut enc: Vec<u8> = Vec::new();
        block_id_ext.write_encoding(&mut enc);
        proof {
            assert(enc@ =~= block_id_encoding(block_id_ext@));
        }
        let key = sha256(enc.as_slice());
        BlockId { key, block_id_ext }
    }

    /// The identifier this key stands for.
    pub fn block_id_ext(&self) -> (r: &BlockIdExt)
        ensures
            r@ == self@.block_id_ext,
    {
        &self.block_id_ext
    }

    /// The raw key bytes.
    pub fn key_bytes(&self) -> (r: &[u8])
        ensures
            r@ == self@.key,
    {
        self.key.as_slice()
    }
}

impl Clone for BlockId {
    /// Clones the key form, keeping the digest and the identifier.
    fn clone(&self) -> (r: Self)
        ensures
            r@ == self@,
    {
        BlockId { key: self.key.clone(), block_id_ext: self.block_id_ext.clone() }
    }
}

impl DbKey for BlockId {
    /// The database key of a block is the digest.
    fn key(&self) -> &[u8] {
        self.key.as_slice()
    }
}

} // verus!
