//! The compact mutable record of flags and timestamps kept for every block.
//! Flag bits are sticky: an operation may set bits but never clears one. The
//! record serializes as a fixed-layout little-endian blob; the transient
//! moving-started bit is never written out.

use vstd::prelude::*;
use vstd::bytes::*;
use crate::codec::put_u32_le;
use crate::codec::put_u64_le;
use crate::codec::read_u32_le;
use crate::codec::read_u64_le;
use crate::error::StorageError;

verus! {

/// Block data stored.
pub const FLAG_DATA: u32 = 1;

/// Block proof stored.
pub const FLAG_PROOF: u32 = 2;

/// Block proof link stored.
pub const FLAG_PROOF_LINK: u32 = 4;

/// Processed by the external database.
pub const FLAG_EXT_DB: u32 = 8;

/// Shard state stored.
pub const FLAG_STATE: u32 = 16;

/// Persistent shard state stored.
pub const FLAG_PERSISTENT_STATE: u32 = 32;

/// First next-block link stored.
pub const FLAG_NEXT_1: u32 = 64;

/// Second next-block link stored.
pub const FLAG_NEXT_2: u32 = 128;

/// First previous-block link stored.
pub const FLAG_PREV_1: u32 = 256;

/// Second previous-block link stored.
pub const FLAG_PREV_2: u32 = 512;

/// Block applied.
pub const FLAG_APPLIED: u32 = 1024;

/// Block is a key block.
pub const FLAG_KEY_BLOCK: u32 = 2048;

/// Move into the archive has begun.
pub const FLAG_MOVING_TO_ARCHIVE: u32 = 4096;

/// Move into the archive has completed.
pub const FLAG_MOVED_TO_ARCHIVE: u32 = 8192;

/// Block indexed.
pub const FLAG_INDEXED: u32 = 16384;

/// Serialized size of a block-meta record.
pub const BLOCK_META_SIZE: usize = 22;

/// The mathematical content of a block-meta record.
pub struct BlockMetaModel {
    pub flags: u32,
    pub gen_utime: u32,
    pub gen_lt: u64,
    pub masterchain_ref_seq_no: u32,
    pub fetched: bool,
    pub archived: bool,
    pub moving_to_archive_started: bool,
}

/// The fixed little-endian layout of a record.
pub open spec fn meta_encoding(m: BlockMetaModel) -> Seq<u8> {
    spec_u32_to_le_bytes(m.flags) + spec_u32_to_le_bytes(m.gen_utime) + spec_u64_to_le_bytes(
        m.gen_lt,
    ) + spec_u32_to_le_bytes(m.masterchain_ref_seq_no) + seq![
        if m.fetched {
            1u8
        } else {
            0u8
        },
        if m.archived {
            1u8
        } else {
            0u8
        },
    ]
}

/// The record denoted by the first bytes of `s`; meaningful when `s` holds
/// at least one full record.
pub open spec fn meta_decoding(s: Seq<u8>) -> BlockMetaModel {
    BlockMetaModel {
        flags: spec_u32_from_le_bytes(s.subrange(0, 4)),
        gen_utime: spec_u32_from_le_bytes(s.subrange(4, 8)),
        gen_lt: spec_u64_from_le_bytes(s.subrange(8, 16)),
        masterchain_ref_seq_no: spec_u32_from_le_bytes(s.subrange(16, 20)),
        fetched: s[20] != 0,
        archived: s[21] != 0,
        moving_to_archive_started: false,
    }
}

/// Meta information related to a block.
#[derive(Debug)]
pub struct BlockMeta {
    flags: u32,
    gen_utime: u32,
    gen_lt: u64,
    masterchain_ref_seq_no: u32,
    fetched: bool,
    archived: bool,
    moving_to_archive_started: bool,
}

impl View for BlockMeta {
    type V = BlockMetaModel;

    closed spec fn view(&self) -> BlockMetaModel {
        BlockMetaModel {
            flags: self.flags,
            gen_utime: self.gen_utime,
            gen_lt: self.gen_lt,
            masterchain_ref_seq_no: self.masterchain_ref_seq_no,
            fetched: self.fetched,
            archived: self.archived,
            moving_to_archive_started: self.moving_to_archive_started,
        }
    }
}

impl BlockMeta {
    /// Constructs a record from its persistent fields; the transient
    /// moving-started bit starts cleared.
    pub fn with_data(flags: u32, gen_utime: u32, gen_lt: u64, masterchain_ref_seq_no: u32, fetched: bool) -> (r: Self)
        ensures
            r@.flags == flags,
            r@.gen_utime == gen_utime,
            r@.gen_lt == gen_lt,
            r@.masterchain_ref_seq_no == masterchain_ref_seq_no,
            r@.fetched == fetched,
            !r@.archived,
            !r@.moving_to_archive_started,
    {
        BlockMeta {
            flags,
            gen_utime,
            gen_lt,
            masterchain_ref_seq_no,
            fetched,
            archived: false,
            moving_to_archive_started: false,
        }
    }

    /// The flag bits.
    pub fn flags(&self) -> (r: u32)
        ensures
            r == self@.flags,
    {
        self.flags
    }

    /// Generation unix time.
    pub fn gen_utime(&self) -> (r: u32)
        ensures
            r == self@.gen_utime,
    {
        self.gen_utime
    }

    /// Sets the generation unix time.
    pub fn set_gen_utime(&mut self, gen_utime: u32)
        ensures
            final(self)@ == (BlockMetaModel { gen_utime, ..old(self)@ }),
    {
        self.gen_utime = gen_utime;
    }

    /// Generation logical time.
    pub fn gen_lt(&self) -> (r: u64)
        ensures
            r == self@.gen_lt,
    {
        self.gen_lt
    }

    /// Sets the generation logical time.
    pub fn set_gen_lt(&mut self, gen_lt: u64)
        ensures
            final(self)@ == (BlockMetaModel { gen_lt, ..old(self)@ }),
    {
        self.gen_lt = gen_lt;
    }

    /// Masterchain reference sequence number.
    pub fn masterchain_ref_seq_no(&self) -> (r: u32)
        ensures
            r == self@.masterchain_ref_seq_no,
    {
        self.masterchain_ref_seq_no
    }

    /// Replaces the masterchain reference sequence number, returning the
    /// previous value.
    pub fn set_masterchain_ref_seq_no(&mut self, seq_no: u32) -> (prev: u32)
        ensures
            prev == old(self)@.masterchain_ref_seq_no,
            final(self)@ == (BlockMetaModel { masterchain_ref_seq_no: seq_no, ..old(self)@ }),
    {
        let prev = self.masterchain_ref_seq_no;
        self.masterchain_ref_seq_no = seq_no;
        prev
    }

    /// Whether the block info was fetched.
    pub fn fetched(&self) -> (r: bool)
        ensures
            r == self@.fetched,
    {
        self.fetched
    }

    /// Marks the block info as fetched, returning the previous value.
    pub fn set_fetched(&mut self) -> (prev: bool)
        ensures
            prev == old(self)@.fetched,
            final(self)@ == (BlockMetaModel { fetched: true, ..old(self)@ }),
    {
        let prev = self.fetched;
        self.fetched = true;
        prev
    }

    /// Whether the moving-started transient bit is set.
    pub fn moving_to_archive_started(&self) -> (r: bool)
        ensures
            r == self@.moving_to_archive_started,
    {
        self.moving_to_archive_started
    }

    /// Atomically begins a move into the archive: sets the transient bit and
    /// returns its previous value, so that at most one mover proceeds.
    pub fn start_moving_to_archive(&mut self) -> (prev: bool)
        ensures
            prev == old(self)@.moving_to_archive_started,
            final(self)@ == (BlockMetaModel { moving_to_archive_started: true, ..old(self)@ }),
    {
        let prev = self.moving_to_archive_started;
        self.moving_to_archive_started = true;
        prev
    }

    /// Clears the transient moving-started bit; only the owner dropping an
    /// unfinished move does this.
    pub fn reset_moving_to_archive(&mut self)
        ensures
            final(self)@ == (BlockMetaModel { moving_to_archive_started: false, ..old(self)@ }),
    {
        self.moving_to_archive_started = false;
    }

    /// Sets every bit of `mask`; returns true when all of them were already
    /// set. Set bits are never cleared.
    pub fn set_flags(&mut self, mask: u32) -> (already: bool)
        ensures
            final(self)@ == (BlockMetaModel { flags: old(self)@.flags | mask, ..old(self)@ }),
            already <==> old(self)@.flags & mask == mask,
            final(self)@.flags & old(self)@.flags == old(self)@.flags,
    {
        let prev = self.flags;
        self.flags = self.flags | mask;
        proof {
            assert((prev | mask) & prev == prev) by (bit_vector);
        }
        prev & mask == mask
    }

    /// Whether every bit of `mask` is set.
    pub fn flags_all(&self, mask: u32) -> (r: bool)
        ensures
            r <==> self@.flags & mask == mask,
    {
        self.flags & mask == mask
    }

    /// Writes the record in its fixed little-endian layout.
    pub fn serialize(&self) -> (r: Vec<u8>)
        ensures
            r@ == meta_encoding(self@),
            r@.len() == BLOCK_META_SIZE,
    {
        let mut out: Vec<u8> = Vec::new();
        put_u32_le(&mut out, self.flags);
        put_u32_le(&mut out, self.gen_utime);
        put_u64_le(&mut out, self.gen_lt);
        put_u32_le(&mut out, self.masterchain_ref_seq_no);
        out.push(if self.fetched { 1u8 } else { 0u8 });
        out.push(if self.archived { 1u8 } else { 0u8 });
        proof {
            vstd::bytes::lemma_auto_spec_u32_to_from_le_bytes();
            vstd::bytes::lemma_auto_spec_u64_to_from_le_bytes();
            assert(out@ =~= meta_encoding(self@));
        }
        out
    }

    /// Reads a record back from its little-endian layout; fails with
    /// `SerializationError` exactly when fewer than 22 bytes are given.
    pub fn deserialize(data: &[u8]) -> (r: Result<Self, StorageError>)
        ensures
            match r {
                Ok(m) => data@.len() >= BLOCK_META_SIZE && m@ == meta_decoding(data@),
                Err(e) => data@.len() < BLOCK_META_SIZE && e == StorageError::SerializationError,
            },
    {
        if data.len() < BLOCK_META_SIZE {
            return Err(StorageError::SerializationError);
        }
        let flags = read_u32_le(data, 0);
        let gen_utime = read_u32_le(data, 4);
        let gen_lt = read_u64_le(data, 8);
        let masterchain_ref_seq_no = read_u32_le(data, 16);
        let fetched = data[20] != 0;
        let archived = data[21] != 0;
        Ok(
            BlockMeta {
                flags,
                gen_utime,
                gen_lt,
                masterchain_ref_seq_no,
                fetched,
                archived,
                moving_to_archive_started: false,
            },
        )
    }
}

impl Default for BlockMeta {
    /// The all-clear record.
    fn default() -> (r: Self)
        ensures
            r@.flags == 0,
            r@.gen_utime == 0,
            r@.gen_lt == 0,
            r@.masterchain_ref_seq_no == 0,
            !r@.fetched,
            !r@.archived,
            !r@.moving_to_archive_started,
    {
        BlockMeta::with_data(0, 0, 0, 0, false)
    }
}

/// A flag word keeps itself under conjunction.
pub proof fn lemma_flags_and_self(x: u32)
    ensures
        x & x == x,
{
    assert(x & x == x) by (bit_vector);
}

/// Round trip: a record that is not mid-move reads back from its own
/// serialization unchanged.
pub proof fn lemma_meta_round_trip(m: BlockMetaModel)
    requires
        !m.moving_to_archive_started,
    ensures
        meta_decoding(meta_encoding(m)) == m,
{
    let s = meta_encoding(m);
    vstd::bytes::lemma_auto_spec_u32_to_from_le_bytes();
    vstd::bytes::lemma_auto_spec_u64_to_from_le_bytes();
    assert(s.subrange(0, 4) =~= spec_u32_to_le_bytes(m.flags));
    assert(s.subrange(4, 8) =~= spec_u32_to_le_bytes(m.gen_utime));
    assert(s.subrange(8, 16) =~= spec_u64_to_le_bytes(m.gen_lt));
    assert(s.subrange(16, 20) =~= spec_u32_to_le_bytes(m.masterchain_ref_seq_no));
    assert(s[20] == if m.fetched { 1u8 } else { 0u8 });
    assert(s[21] == if m.archived { 1u8 } else { 0u8 });
}

} // verus!
