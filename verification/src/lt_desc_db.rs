//! Per-shard descriptors of the block index: the contiguous index range and
//! the keys of the last appended block.

use vstd::prelude::*;
use crate::assoc::AssocStore;
use crate::block_id::ShardIdent;

verus! {

/// The per-shard descriptor: first and last index of the contiguous range,
/// and the last appended block's keys.
#[derive(Debug, Clone, Copy, PartialEq, Eq, Structural)]
pub struct LtDesc {
    pub first_index: u32,
    pub last_index: u32,
    pub last_seq_no: u32,
    pub last_lt: u64,
    pub last_unix_time: u32,
}

impl LtDesc {
    /// Constructs a descriptor from its parts.
    pub fn with_values(
        first_index: u32,
        last_index: u32,
        last_seq_no: u32,
        last_lt: u64,
        last_unix_time: u32,
    ) -> (r: Self)
        ensures
            r == (LtDesc { first_index, last_index, last_seq_no, last_lt, last_unix_time }),
    {
        LtDesc { first_index, last_index, last_seq_no, last_lt, last_unix_time }
    }

    /// First index of the range.
    pub fn first_index(&self) -> (r: u32)
        ensures
            r == self.first_index,
    {
        self.first_index
    }

    /// Last index of the range.
    pub fn last_index(&self) -> (r: u32)
        ensures
            r == self.last_index,
    {
        self.last_index
    }

    /// Sequence number of the last appended block.
    pub fn last_seq_no(&self) -> (r: u32)
        ensures
            r == self.last_seq_no,
    {
        self.last_seq_no
    }

    /// Logical time of the last appended block.
    pub fn last_lt(&self) -> (r: u64)
        ensures
            r == self.last_lt,
    {
        self.last_lt
    }

    /// Unix time of the last appended block.
    pub fn last_unix_time(&self) -> (r: u32)
        ensures
            r == self.last_unix_time,
    {
        self.last_unix_time
    }
}

/// Per-shard descriptors, keyed by the serialized shard coordinate.
#[derive(Debug)]
pub struct LtDescDb {
    db: AssocStore<LtDesc>,
}

impl LtDescDb {
    /// The descriptors, keyed by serialized shard coordinate.
    pub closed spec fn descs(self) -> Map<Seq<u8>, LtDesc> {
        self.db@
    }

    /// Unique shard keys.
    pub closed spec fn wf(self) -> bool {
        self.db.wf()
    }

    /// Constructs an empty collection.
    pub fn in_memory() -> (r: Self)
        ensures
            r.wf(),
            r.descs() == Map::<Seq<u8>, LtDesc>::empty(),
    {
        LtDescDb { db: AssocStore::new() }
    }

    /// The descriptor of one shard, if any.
    pub fn try_get_value(&self, shard: &ShardIdent) -> (r: Option<LtDesc>)
        requires
            self.wf(),
        ensures
            match r {
                Some(d) => self.descs().contains_key(shard.encoding()) && d == self.descs()[shard.encoding()],
                None => !self.descs().contains_key(shard.encoding()),
            },
    {
        let mut key: Vec<u8> = Vec::new();
        shard.write_encoding(&mut key);
        proof {
            assert(key@ =~= shard.encoding());
        }
        match self.db.get(key.as_slice()) {
            Some(d) => Some(*d),
            None => None,
        }
    }

    /// Stores the descriptor of one shard, replacing any previous one.
    pub fn put_value(&mut self, shard: &ShardIdent, desc: LtDesc)
        requires
            old(self).wf(),
        ensures
            final(self).wf(),
            final(self).descs() == old(self).descs().insert(shard.encoding(), desc),
    {
        let mut key: Vec<u8> = Vec::new();
        shard.write_encoding(&mut key);
        proof {
            assert(key@ =~= shard.encoding());
        }
        self.db.put(key, desc);
    }
}

} // verus!
