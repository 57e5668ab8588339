//! Meta information related to one block, behind its identifier. All state
//! bits are sticky: the setters may set bits but never clear one.

use vstd::prelude::*;
use crate::block_id::BlockIdExt;
use crate::block_id::MASTERCHAIN_ID;
use crate::block_meta::BlockMeta;
use crate::block_meta::BlockMetaModel;
use crate::block_meta::meta_encoding;
use crate::block_meta::FLAG_DATA;
use crate::block_meta::FLAG_PROOF;
use crate::block_meta::FLAG_PROOF_LINK;
use crate::block_meta::FLAG_EXT_DB;
use crate::block_meta::FLAG_STATE;
use crate::block_meta::FLAG_PERSISTENT_STATE;
use crate::block_meta::FLAG_NEXT_1;
use crate::block_meta::FLAG_NEXT_2;
use crate::block_meta::FLAG_PREV_1;
use crate::block_meta::FLAG_PREV_2;
use crate::block_meta::FLAG_APPLIED;
use crate::block_meta::FLAG_KEY_BLOCK;
use crate::block_meta::FLAG_MOVED_TO_ARCHIVE;
use crate::block_meta::FLAG_INDEXED;
use crate::error::StorageError;

verus! {

/// Meta information related to a block.
#[derive(Debug)]
pub struct BlockHandle {
    id: BlockIdExt,
    meta: BlockMeta,
}

impl BlockHandle {
    /// The flag bits of the handle's record.
    pub open spec fn flags(self) -> u32 {
        self.spec_meta().flags
    }

    /// The handle's record.
    pub closed spec fn spec_meta(self) -> BlockMetaModel {
        self.meta@
    }

    /// The handle's identifier.
    pub closed spec fn spec_id(self) -> crate::block_id::BlockIdExtModel {
        self.id@
    }

    /// Constructs a handle with an all-clear record.
    pub fn new(id: BlockIdExt) -> (r: Self)
        ensures
            r.spec_id() == id@,
            r.flags() == 0,
            !r.spec_meta().fetched,
            !r.spec_meta().moving_to_archive_started,
    {
        Self::with_values(id, BlockMeta::with_data(0, 0, 0, 0, false))
    }

    /// Constructs a handle over an existing record.
    pub fn with_values(id: BlockIdExt, meta: BlockMeta) -> (r: Self)
        ensures
            r.spec_id() == id@,
            r.spec_meta() == meta@,
    {
        BlockHandle { id, meta }
    }

    /// The identifier.
    pub fn id(&self) -> (r: &BlockIdExt)
        ensures
            r@ == self.spec_id(),
    {
        &self.id
    }

    /// The record.
    pub fn meta(&self) -> (r: &BlockMeta)
        ensures
            r@ == self.spec_meta(),
    {
        &self.meta
    }

    /// Serializes the record.
    pub fn serialize(&self) -> (r: Vec<u8>)
        ensures
            r@ == meta_encoding(self.spec_meta()),
    {
        self.meta.serialize()
    }

    /// Sets the given flag bits, returning whether all were already set;
    /// set bits are never cleared.
    pub fn set_flags(&mut self, mask: u32) -> (already: bool)
        ensures
            final(self).spec_id() == old(self).spec_id(),
            final(self).spec_meta() == (BlockMetaModel {
                flags: old(self).flags() | mask,
                ..old(self).spec_meta()
            }),
            already <==> old(self).flags() & mask == mask,
            final(self).flags() & old(self).flags() == old(self).flags(),
    {
        self.meta.set_flags(mask)
    }

    /// Whether all given flag bits are set.
    pub fn flags_all(&self, mask: u32) -> (r: bool)
        ensures
            r <==> self.flags() & mask == mask,
    {
        self.meta.flags_all(mask)
    }

    /// Marks the block data stored.
    pub fn set_data_inited(&mut self) -> (already: bool)
        ensures
            final(self).spec_id() == old(self).spec_id(),
            final(self).spec_meta() == (BlockMetaModel {
                flags: old(self).flags() | FLAG_DATA,
                ..old(self).spec_meta()
            }),
            already <==> old(self).flags() & FLAG_DATA == FLAG_DATA,
            final(self).flags() & old(self).flags() == old(self).flags(),
    {
        self.set_flags(FLAG_DATA)
    }

    /// Marks the block proof stored.
    pub fn set_proof_inited(&mut self) -> (already: bool)
        ensures
            final(self).spec_id() == old(self).spec_id(),
            final(self).spec_meta() == (BlockMetaModel {
                flags: old(self).flags() | FLAG_PROOF,
                ..old(self).spec_meta()
            }),
            already <==> old(self).flags() & FLAG_PROOF == FLAG_PROOF,
            final(self).flags() & old(self).flags() == old(self).flags(),
    {
        self.set_flags(FLAG_PROOF)
    }

    /// Marks the block proof link stored.
    pub fn set_proof_link_inited(&mut self) -> (already: bool)
        ensures
            final(self).spec_id() == old(self).spec_id(),
            final(self).spec_meta() == (BlockMetaModel {
                flags: old(self).flags() | FLAG_PROOF_LINK,
                ..old(self).spec_meta()
            }),
            already <==> old(self).flags() & FLAG_PROOF_LINK == FLAG_PROOF_LINK,
            final(self).flags() & old(self).flags() == old(self).flags(),
    {
        self.set_flags(FLAG_PROOF_LINK)
    }

    /// Marks the block processed in the external database.
    pub fn set_processed_in_ext_db(&mut self) -> (already: bool)
        ensures
            final(self).spec_id() == old(self).spec_id(),
            final(self).spec_meta() == (BlockMetaModel {
                flags: old(self).flags() | FLAG_EXT_DB,
                ..old(self).spec_meta()
            }),
            already <==> old(self).flags() & FLAG_EXT_DB == FLAG_EXT_DB,
            final(self).flags() & old(self).flags() == old(self).flags(),
    {
        self.set_flags(FLAG_EXT_DB)
    }

    /// Marks the shard state stored.
    pub fn set_state_inited(&mut self) -> (already: bool)
        ensures
            final(self).spec_id() == old(self).spec_id(),
            final(self).spec_meta() == (BlockMetaModel {
                flags: old(self).flags() | FLAG_STATE,
                ..old(self).spec_meta()
            }),
            already <==> old(self).flags() & FLAG_STATE == FLAG_STATE,
            final(self).flags() & old(self).flags() == old(self).flags(),
    {
        self.set_flags(FLAG_STATE)
    }

    /// Marks the persistent shard state stored.
    pub fn set_persistent_state_inited(&mut self) -> (already: bool)
        ensures
            final(self).spec_id() == old(self).spec_id(),
            final(self).spec_meta() == (BlockMetaModel {
                flags: old(self).flags() | FLAG_PERSISTENT_STATE,
                ..old(self).spec_meta()
            }),
            already <==> old(self).flags() & FLAG_PERSISTENT_STATE == FLAG_PERSISTENT_STATE,
            final(self).flags() & old(self).flags() == old(self).flags(),
    {
        self.set_flags(FLAG_PERSISTENT_STATE)
    }

    /// Marks the first next-block link stored.
    pub fn set_next1_inited(&mut self) -> (already: bool)
        ensures
            final(self).spec_id() == old(self).spec_id(),
            final(self).spec_meta() == (BlockMetaModel {
                flags: old(self).flags() | FLAG_NEXT_1,
                ..old(self).spec_meta()
            }),
            already <==> old(self).flags() & FLAG_NEXT_1 == FLAG_NEXT_1,
            final(self).flags() & old(self).flags() == old(self).flags(),
    {
        self.set_flags(FLAG_NEXT_1)
    }

    /// Marks the second next-block link stored.
    pub fn set_next2_inited(&mut self) -> (already: bool)
        ensures
            final(self).spec_id() == old(self).spec_id(),
            final(self).spec_meta() == (BlockMetaModel {
                flags: old(self).flags() | FLAG_NEXT_2,
                ..old(self).spec_meta()
            }),
            already <==> old(self).flags() & FLAG_NEXT_2 == FLAG_NEXT_2,
            final(self).flags() & old(self).flags() == old(self).flags(),
    {
        self.set_flags(FLAG_NEXT_2)
    }

    /// Marks the first previous-block link stored.
    pub fn set_prev1_inited(&mut self) -> (already: bool)
        ensures
            final(self).spec_id() == old(self).spec_id(),
            final(self).spec_meta() == (BlockMetaModel {
                flags: old(self).flags() | FLAG_PREV_1,
                ..old(self).spec_meta()
            }),
            already <==> old(self).flags() & FLAG_PREV_1 == FLAG_PREV_1,
            final(self).flags() & old(self).flags() == old(self).flags(),
    {
        self.set_flags(FLAG_PREV_1)
    }

    /// Marks the second previous-block link stored.
    pub fn set_prev2_inited(&mut self) -> (already: bool)
        ensures
            final(self).spec_id() == old(self).spec_id(),
            final(self).spec_meta() == (BlockMetaModel {
                flags: old(self).flags() | FLAG_PREV_2,
                ..old(self).spec_meta()
            }),
            already <==> old(self).flags() & FLAG_PREV_2 == FLAG_PREV_2,
            final(self).flags() & old(self).flags() == old(self).flags(),
    {
        self.set_flags(FLAG_PREV_2)
    }

    /// Marks the block applied.
    pub fn set_applied(&mut self) -> (already: bool)
        ensures
            final(self).spec_id() == old(self).spec_id(),
            final(self).spec_meta() == (BlockMetaModel {
                flags: old(self).flags() | FLAG_APPLIED,
                ..old(self).spec_meta()
            }),
            already <==> old(self).flags() & FLAG_APPLIED == FLAG_APPLIED,
            final(self).flags() & old(self).flags() == old(self).flags(),
    {
        self.set_flags(FLAG_APPLIED)
    }

    /// Marks the block indexed.
    pub fn set_indexed(&mut self) -> (already: bool)
        ensures
            final(self).spec_id() == old(self).spec_id(),
            final(self).spec_meta() == (BlockMetaModel {
                flags: old(self).flags() | FLAG_INDEXED,
                ..old(self).spec_meta()
            }),
            already <==> old(self).flags() & FLAG_INDEXED == FLAG_INDEXED,
            final(self).flags() & old(self).flags() == old(self).flags(),
    {
        self.set_flags(FLAG_INDEXED)
    }

    /// Marks the block moved to the archive.
    pub fn set_moved_to_archive(&mut self) -> (already: bool)
        ensures
            final(self).spec_id() == old(self).spec_id(),
            final(self).spec_meta() == (BlockMetaModel {
                flags: old(self).flags() | FLAG_MOVED_TO_ARCHIVE,
                ..old(self).spec_meta()
            }),
            already <==> old(self).flags() & FLAG_MOVED_TO_ARCHIVE == FLAG_MOVED_TO_ARCHIVE,
            final(self).flags() & old(self).flags() == old(self).flags(),
    {
        self.set_flags(FLAG_MOVED_TO_ARCHIVE)
    }

    /// Whether the block data is stored.
    pub fn data_inited(&self) -> (r: bool)
        ensures
            r <==> self.flags() & FLAG_DATA == FLAG_DATA,
    {
        self.flags_all(FLAG_DATA)
    }

    /// Whether the block proof is stored.
    pub fn proof_inited(&self) -> (r: bool)
        ensures
            r <==> self.flags() & FLAG_PROOF == FLAG_PROOF,
    {
        self.flags_all(FLAG_PROOF)
    }

    /// Whether the block proof link is stored.
    pub fn proof_link_inited(&self) -> (r: bool)
        ensures
            r <==> self.flags() & FLAG_PROOF_LINK == FLAG_PROOF_LINK,
    {
        self.flags_all(FLAG_PROOF_LINK)
    }

    /// Whether the proof applicable to this block's chain is stored: the
    /// proof link for a masterchain block, the full proof otherwise. Sets
    /// `is_link` accordingly.
    pub fn proof_or_link_inited(&self, is_link: &mut bool) -> (r: bool)
        ensures
            *final(is_link) == (self.spec_id().shard_id.workchain_id == MASTERCHAIN_ID),
            r <==> if *final(is_link) {
                self.flags() & FLAG_PROOF_LINK == FLAG_PROOF_LINK
            } else {
                self.flags() & FLAG_PROOF == FLAG_PROOF
            },
    {
        *is_link = self.id.shard_id.workchain_id == MASTERCHAIN_ID;
        if *is_link {
            self.proof_link_inited()
        } else {
            self.proof_inited()
        }
    }

    /// Whether the block was processed in the external database.
    pub fn processed_in_ext_db(&self) -> (r: bool)
        ensures
            r <==> self.flags() & FLAG_EXT_DB == FLAG_EXT_DB,
    {
        self.flags_all(FLAG_EXT_DB)
    }

    /// Whether the shard state is stored.
    pub fn state_inited(&self) -> (r: bool)
        ensures
            r <==> self.flags() & FLAG_STATE == FLAG_STATE,
    {
        self.flags_all(FLAG_STATE)
    }

    /// Whether the persistent shard state is stored.
    pub fn persistent_state_inited(&self) -> (r: bool)
        ensures
            r <==> self.flags() & FLAG_PERSISTENT_STATE == FLAG_PERSISTENT_STATE,
    {
        self.flags_all(FLAG_PERSISTENT_STATE)
    }

    /// Whether the first next-block link is stored.
    pub fn next1_inited(&self) -> (r: bool)
        ensures
            r <==> self.flags() & FLAG_NEXT_1 == FLAG_NEXT_1,
    {
        self.flags_all(FLAG_NEXT_1)
    }

    /// Whether the second next-block link is stored.
    pub fn next2_inited(&self) -> (r: bool)
        ensures
            r <==> self.flags() & FLAG_NEXT_2 == FLAG_NEXT_2,
    {
        self.flags_all(FLAG_NEXT_2)
    }

    /// Whether the first previous-block link is stored.
    pub fn prev1_inited(&self) -> (r: bool)
        ensures
            r <==> self.flags() & FLAG_PREV_1 == FLAG_PREV_1,
    {
        self.flags_all(FLAG_PREV_1)
    }

    /// Whether the second previous-block link is stored.
    pub fn prev2_inited(&self) -> (r: bool)
        ensures
            r <==> self.flags() & FLAG_PREV_2 == FLAG_PREV_2,
    {
        self.flags_all(FLAG_PREV_2)
    }

    /// Whether the block is applied.
    pub fn applied(&self) -> (r: bool)
        ensures
            r <==> self.flags() & FLAG_APPLIED == FLAG_APPLIED,
    {
        self.flags_all(FLAG_APPLIED)
    }

    /// Whether the block is indexed.
    pub fn indexed(&self) -> (r: bool)
        ensures
            r <==> self.flags() & FLAG_INDEXED == FLAG_INDEXED,
    {
        self.flags_all(FLAG_INDEXED)
    }

    /// Whether the block was moved to the archive.
    pub fn moved_to_archive(&self) -> (r: bool)
        ensures
            r <==> self.flags() & FLAG_MOVED_TO_ARCHIVE == FLAG_MOVED_TO_ARCHIVE,
    {
        self.flags_all(FLAG_MOVED_TO_ARCHIVE)
    }

    /// Whether the block info was fetched.
    pub fn fetched(&self) -> (r: bool)
        ensures
            r <==> self.spec_meta().fetched,
    {
        self.meta.fetched()
    }

    /// Generation logical time.
    pub fn gen_lt(&self) -> (r: u64)
        ensures
            r == self.spec_meta().gen_lt,
    {
        self.meta.gen_lt()
    }

    /// Generation unix time; known only once the info was fetched or the
    /// state stored.
    pub fn gen_utime(&self) -> (r: Result<u32, StorageError>)
        ensures
            match r {
                Ok(t) => (self.spec_meta().fetched || self.flags() & FLAG_STATE == FLAG_STATE)
                    && t == self.spec_meta().gen_utime,
                Err(e) => !self.spec_meta().fetched && self.flags() & FLAG_STATE != FLAG_STATE
                    && e == StorageError::KeyNotFound,
            },
    {
        if self.fetched() || self.state_inited() {
            Ok(self.meta.gen_utime())
        } else {
            Err(StorageError::KeyNotFound)
        }
    }

    /// Sets the generation unix time; once the info was fetched or the
    /// state stored the time is frozen and a differing value is refused.
    pub fn set_gen_utime(&mut self, time: u32) -> (r: Result<(), StorageError>)
        ensures
            final(self).spec_id() == old(self).spec_id(),
            match r {
                Ok(_) => if old(self).spec_meta().fetched || old(self).flags() & FLAG_STATE
                    == FLAG_STATE {
                    final(self).spec_meta() == old(self).spec_meta() && time == old(
                        self,
                    ).spec_meta().gen_utime
                } else {
                    final(self).spec_meta() == (BlockMetaModel {
                        gen_utime: time,
                        ..old(self).spec_meta()
                    })
                },
                Err(e) => {
                    &&& (old(self).spec_meta().fetched || old(self).flags() & FLAG_STATE
                        == FLAG_STATE)
                    &&& time != old(self).spec_meta().gen_utime
                    &&& final(self).spec_meta() == old(self).spec_meta()
                    &&& e == StorageError::InvariantViolation
                },
            },
    {
        if self.fetched() || self.state_inited() {
            if time != self.meta.gen_utime() {
                Err(StorageError::InvariantViolation)
            } else {
                Ok(())
            }
        } else {
            self.meta.set_gen_utime(time);
            Ok(())
        }
    }

    /// The masterchain sequence number this block belongs under: its own
    /// for a masterchain block, the recorded reference otherwise.
    pub fn masterchain_ref_seq_no(&self) -> (r: u32)
        ensures
            r == if self.spec_id().shard_id.workchain_id == MASTERCHAIN_ID {
                self.spec_id().seq_no
            } else {
                self.spec_meta().masterchain_ref_seq_no
            },
    {
        if self.id.shard_id.workchain_id == MASTERCHAIN_ID {
            self.id.seq_no()
        } else {
            self.meta.masterchain_ref_seq_no()
        }
    }

    /// Records the masterchain reference sequence number, returning the
    /// previous value.
    pub fn set_masterchain_ref_seq_no(&mut self, masterchain_ref_seq_no: u32) -> (prev: u32)
        ensures
            final(self).spec_id() == old(self).spec_id(),
            prev == old(self).spec_meta().masterchain_ref_seq_no,
            final(self).spec_meta() == (BlockMetaModel {
                masterchain_ref_seq_no,
                ..old(self).spec_meta()
            }),
    {
        self.meta.set_masterchain_ref_seq_no(masterchain_ref_seq_no)
    }

    /// Whether this is a key block; known only once the info was fetched.
    pub fn is_key_block(&self) -> (r: Result<bool, StorageError>)
        ensures
            match r {
                Ok(b) => self.spec_meta().fetched && (b <==> self.flags() & FLAG_KEY_BLOCK
                    == FLAG_KEY_BLOCK),
                Err(e) => !self.spec_meta().fetched && e == StorageError::KeyNotFound,
            },
    {
        if self.fetched() {
            Ok(self.flags_all(FLAG_KEY_BLOCK))
        } else {
            Err(StorageError::KeyNotFound)
        }
    }

    /// Atomically begins a move into the archive, returning whether another
    /// mover had already begun.
    pub fn start_moving_to_archive(&mut self) -> (prev: bool)
        ensures
            final(self).spec_id() == old(self).spec_id(),
            prev == old(self).spec_meta().moving_to_archive_started,
            final(self).spec_meta() == (BlockMetaModel {
                moving_to_archive_started: true,
                ..old(self).spec_meta()
            }),
    {
        self.meta.start_moving_to_archive()
    }
}

} // verus!
