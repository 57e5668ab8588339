//! The status record of the block index: how many shards it tracks.

use vstd::prelude::*;
use vstd::bytes::spec_u32_from_le_bytes;
use vstd::bytes::spec_u32_to_le_bytes;
use crate::codec::put_u32_le;
use crate::codec::read_u32_le;
use crate::error::StorageError;

verus! {

/// The block index status: the number of tracked shards.
#[derive(Debug, Clone, Copy, PartialEq, Eq, Structural)]
pub struct LtDbStatusEntry {
    pub total_shards: u32,
}

impl LtDbStatusEntry {
    /// Constructs a status record.
    pub fn new(total_shards: u32) -> (r: Self)
        ensures
            r.total_shards == total_shards,
    {
        LtDbStatusEntry { total_shards }
    }

    /// The number of tracked shards.
    pub fn total_shards(&self) -> (r: u32)
        ensures
            r == self.total_shards,
    {
        self.total_shards
    }

    /// Writes the record as a little-endian word.
    pub fn serialize(&self) -> (r: Vec<u8>)
        ensures
            r@ == spec_u32_to_le_bytes(self.total_shards),
    {
        let mut out: Vec<u8> = Vec::new();
        put_u32_le(&mut out, self.total_shards);
        proof {
            assert(out@ =~= spec_u32_to_le_bytes(self.total_shards));
        }
        out
    }

    /// Reads a record back; fails with `SerializationError` exactly when
    /// fewer than four bytes are given.
    pub fn deserialize(data: &[u8]) -> (r: Result<Self, StorageError>)
        ensures
            match r {
                Ok(s) => data@.len() >= 4 && s.total_shards == spec_u32_from_le_bytes(
                    data@.subrange(0, 4),
                ),
                Err(e) => data@.len() < 4 && e == StorageError::SerializationError,
            },
    {
        if data.len() < 4 {
            return Err(StorageError::SerializationError);
        }
        Ok(LtDbStatusEntry { total_shards: read_u32_le(data, 0) })
    }
}

/// Round trip: a status record reads back from its own serialization.
pub proof fn lemma_status_round_trip(total_shards: u32)
    ensures
        spec_u32_from_le_bytes(spec_u32_to_le_bytes(total_shards).subrange(0, 4)) == total_shards,
{
    vstd::bytes::lemma_auto_spec_u32_to_from_le_bytes();
    assert(spec_u32_to_le_bytes(total_shards).subrange(0, 4) =~= spec_u32_to_le_bytes(
        total_shards,
    ));
}

} // verus!
