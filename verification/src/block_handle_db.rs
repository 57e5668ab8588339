//! Persistence of block handles: their meta records live in a block-info
//! collection, and a handle is rebuilt from its stored record, or all-clear
//! when none was stored yet.

use vstd::prelude::*;
use crate::block_handle::BlockHandle;
use crate::block_id::BlockId;
use crate::block_id::BlockIdExt;
use crate::block_info_db::BlockInfoDb;
use crate::block_meta::meta_decoding;
use crate::block_meta::meta_encoding;

verus! {

/// Loads and stores block handles through a block-info collection.
#[derive(Debug)]
pub struct BlockHandleStorage {
    block_handle_db: BlockInfoDb,
}

impl BlockHandleStorage {
    /// The stored meta records, by block key.
    pub closed spec fn records(self) -> Map<Seq<u8>, Seq<u8>> {
        self.block_handle_db@
    }

    /// The backing collection is well formed.
    pub closed spec fn wf(self) -> bool {
        self.block_handle_db.wf()
    }

    /// Constructs a storage over the given collection.
    pub fn new(block_handle_db: BlockInfoDb) -> (r: Self)
        requires
            block_handle_db.wf(),
        ensures
            r.wf(),
            r.records() == block_handle_db@,
    {
        BlockHandleStorage { block_handle_db }
    }

    /// The backing collection.
    pub fn block_handle_db(&self) -> (r: &BlockInfoDb)
        ensures
            r@ == self.records(),
            self.wf() ==> r.wf(),
    {
        &self.block_handle_db
    }

    /// Persists a handle's meta record under its block key.
    pub fn store_block_handle(&mut self, handle: &BlockHandle, id: &BlockId)
        requires
            old(self).wf(),
        ensures
            final(self).wf(),
            final(self).records() == old(self).records().insert(
                id@.key,
                meta_encoding(handle.spec_meta()),
            ),
    {
        self.block_handle_db.put_block_meta(id, handle.meta());
    }

    /// Loads the handle of a block: from its stored record, or all-clear
    /// when none is stored.
    pub fn load_block_handle(&self, id: &BlockId, block_id_ext: BlockIdExt) -> (r: BlockHandle)
        requires
            self.wf(),
        ensures
            r.spec_id() == block_id_ext@,
            if self.records().contains_key(id@.key) {
                r.spec_meta() == meta_decoding(self.records()[id@.key])
            } else {
                r.flags() == 0 && !r.spec_meta().fetched
            },
    {
        match self.block_handle_db.get_block_meta(id) {
            Ok(meta) => BlockHandle::with_values(block_id_ext, meta),
            Err(_) => BlockHandle::new(block_id_ext),
        }
    }
}

} // verus!
