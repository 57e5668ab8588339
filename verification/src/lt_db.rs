//! The per-shard arrays of block index entries: position `i` of a shard's
//! array holds the entry with index `i + 1`.

use vstd::prelude::*;
use crate::assoc::AssocStore;
use crate::block_id::BlockIdExt;
use crate::block_id::BlockIdExtModel;
use crate::block_id::ShardIdent;

verus! {

/// The mathematical content of a block index entry.
pub struct LtDbEntryModel {
    pub block_id_ext: BlockIdExtModel,
    pub lt: u64,
    pub unix_time: u32,
}

/// One block index entry: the block's identifier with its logical time and
/// unix time.
#[derive(Debug)]
pub struct LtDbEntry {
    block_id_ext: BlockIdExt,
    lt: u64,
    unix_time: u32,
}

impl View for LtDbEntry {
    type V = LtDbEntryModel;

    closed spec fn view(&self) -> LtDbEntryModel {
        LtDbEntryModel { block_id_ext: self.block_id_ext@, lt: self.lt, unix_time: self.unix_time }
    }
}

impl LtDbEntry {
    /// Constructs an entry from its parts.
    pub fn with_values(block_id_ext: BlockIdExt, lt: u64, unix_time: u32) -> (r: Self)
        ensures
            r@.block_id_ext == block_id_ext@,
            r@.lt == lt,
            r@.unix_time == unix_time,
    {
        LtDbEntry { block_id_ext, lt, unix_time }
    }

    /// The block's identifier.
    pub fn block_id_ext(&self) -> (r: &BlockIdExt)
        ensures
            r@ == self@.block_id_ext,
    {
        &self.block_id_ext
    }

    /// The block's logical time.
    pub fn lt(&self) -> (r: u64)
        ensures
            r == self@.lt,
    {
        self.lt
    }

    /// The block's unix time.
    pub fn unix_time(&self) -> (r: u32)
        ensures
            r == self@.unix_time,
    {
        self.unix_time
    }
}

impl Clone for LtDbEntry {
    /// Clones the entry, keeping its content.
    fn clone(&self) -> (r: Self)
        ensures
            r@ == self@,
    {
        LtDbEntry {
            block_id_ext: self.block_id_ext.clone(),
            lt: self.lt,
            unix_time: self.unix_time,
        }
    }
}

/// Per-shard arrays of block index entries, keyed by the serialized shard
/// coordinate.
#[derive(Debug)]
pub struct LtDb {
    db: AssocStore<Vec<LtDbEntry>>,
}

impl LtDb {
    /// The arrays, keyed by serialized shard coordinate.
    pub closed spec fn shards(self) -> Map<Seq<u8>, Vec<LtDbEntry>> {
        self.db@
    }

    /// The entry models of one shard; empty when the shard is unknown.
    pub open spec fn entries_of(self, shard: ShardIdent) -> Seq<LtDbEntryModel> {
        if self.shards().contains_key(shard.encoding()) {
            self.shards()[shard.encoding()]@.map_values(|e: LtDbEntry| e@)
        } else {
            Seq::empty()
        }
    }

    /// Unique shard keys.
    pub closed spec fn wf(self) -> bool {
        self.db.wf()
    }

    /// Constructs an empty collection.
    pub fn in_memory() -> (r: Self)
        ensures
            r.wf(),
            r.shards() == Map::<Seq<u8>, Vec<LtDbEntry>>::empty(),
    {
        LtDb { db: AssocStore::new() }
    }

    /// The entry array of one shard, if any.
    pub fn entries(&self, shard: &ShardIdent) -> (r: Option<&Vec<LtDbEntry>>)
        requires
            self.wf(),
        ensures
            match r {
                Some(v) => self.shards().contains_key(shard.encoding()) && v@.map_values(
                    |e: LtDbEntry| e@,
                ) == self.entries_of(*shard),
                None => !self.shards().contains_key(shard.encoding()),
            },
    {
        let mut key: Vec<u8> = Vec::new();
        shard.write_encoding(&mut key);
        proof {
            assert(key@ =~= shard.encoding());
        }
        self.db.get(key.as_slice())
    }

    /// Appends one entry at the end of a shard's array, creating the array
    /// for a new shard.
    pub fn push_entry(&mut self, shard: &ShardIdent, entry: LtDbEntry)
        requires
            old(self).wf(),
        ensures
            final(self).wf(),
            final(self).entries_of(*shard) == old(self).entries_of(*shard).push(entry@),
            forall|k: Seq<u8>|
                k != shard.encoding() ==> ((#[trigger] final(self).shards().contains_key(k)
                    <==> old(self).shards().contains_key(k)) && (final(self).shards().contains_key(
                    k,
                ) ==> final(self).shards()[k] == old(self).shards()[k])),
    {
        let mut key: Vec<u8> = Vec::new();
        shard.write_encoding(&mut key);
        proof {
            assert(key@ =~= shard.encoding());
        }
        let mut array: Vec<LtDbEntry> = match self.db.get(key.as_slice()) {
            Some(v) => v.clone(),
            None => Vec::new(),
        };
        proof {
            assert(array@.map_values(|e: LtDbEntry| e@) =~= old(self).entries_of(*shard));
        }
        array.push(entry);
        proof {
            assert(array@.map_values(|e: LtDbEntry| e@) =~= old(self).entries_of(*shard).push(
                array@.last()@,
            ));
        }
        self.db.put(key, array);
    }
}

} // verus!
