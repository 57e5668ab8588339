//! Block-meta records by block key: the index the state-TTL resolver
//! consults when it decides whether a shard state may be collected.

use vstd::prelude::*;
use crate::block_id::BlockId;
use crate::block_meta::meta_decoding;
use crate::block_meta::meta_encoding;
use crate::block_meta::BlockMeta;
use crate::block_meta::BLOCK_META_SIZE;
use crate::db::MemoryDb;
use crate::error::StorageError;

verus! {

/// Block-meta records keyed by block key.
#[derive(Debug)]
pub struct BlockInfoDb {
    db: MemoryDb,
}

impl View for BlockInfoDb {
    type V = Map<Seq<u8>, Seq<u8>>;

    closed spec fn view(&self) -> Map<Seq<u8>, Seq<u8>> {
        self.db@
    }
}

impl BlockInfoDb {
    /// Unique keys, and every value holds one whole meta record.
    pub closed spec fn wf(self) -> bool {
        &&& self.db.wf()
        &&& forall|k: Seq<u8>| #[trigger]
            self.db@.contains_key(k) ==> self.db@[k].len() == BLOCK_META_SIZE
    }

    /// Constructs an empty collection.
    pub fn in_memory() -> (r: Self)
        ensures
            r.wf(),
            r@ == Map::<Seq<u8>, Seq<u8>>::empty(),
    {
        BlockInfoDb { db: MemoryDb::new() }
    }

    /// Whether a record is stored for this block.
    pub fn contains(&self, id: &BlockId) -> (r: bool)
        ensures
            r <==> self@.contains_key(id@.key),
    {
        self.db.contains(id.key_bytes())
    }

    /// Stores the meta record of one block.
    pub fn put_block_meta(&mut self, id: &BlockId, meta: &BlockMeta)
        requires
            old(self).wf(),
        ensures
            final(self).wf(),
            final(self)@ == old(self)@.insert(id@.key, meta_encoding(meta@)),
    {
        let mut key: Vec<u8> = Vec::new();
        crate::codec::put_bytes(&mut key, id.key_bytes());
        proof {
            assert(key@ =~= id@.key);
        }
        self.db.put(key, meta.serialize());
    }

    /// Reads the meta record of one block back; fails with `KeyNotFound`
    /// exactly when none is stored.
    pub fn get_block_meta(&self, id: &BlockId) -> (r: Result<BlockMeta, StorageError>)
        requires
            self.wf(),
        ensures
            match r {
                Ok(m) => self@.contains_key(id@.key) && m@ == meta_decoding(self@[id@.key]),
                Err(e) => !self@.contains_key(id@.key) && e == StorageError::KeyNotFound,
            },
    {
        match self.db.get(id.key_bytes()) {
            Some(value) => {
                match BlockMeta::deserialize(value.as_slice()) {
                    Ok(m) => Ok(m),
                    Err(_) => Err(StorageError::SerializationError),
                }
            },
            None => Err(StorageError::KeyNotFound),
        }
    }
}

} // verus!
