//! The shard-state store: maps each block key to the root cell of its state
//! DAG, and the mark-and-sweep garbage collector that removes the cell
//! subtrees of states old enough to go, without ever touching a cell that a
//! live root still reaches or that a reader still holds in memory.

use vstd::prelude::*;
use crate::block_id::block_id_encoding;
use crate::block_id::BlockId;
use crate::block_id::BlockIdExt;
use crate::block_info_db::BlockInfoDb;
use crate::block_meta::meta_decoding;
use crate::cell::Cell;
use crate::cell::CellModel;
use crate::cell::model_record;
use crate::cell_db::CellDb;
use crate::cell_db::CellDbTransaction;
use crate::cell_id::CellId;
use crate::cell_id::CELL_ID_LEN;
use crate::codec::put_bytes;
use crate::codec::read_bytes;
use crate::codec::read_u32_le;
use crate::codec::read_u64_le;
use crate::db::MemoryDb;
use crate::dynamic_boc_db::blocked_reach;
use crate::dynamic_boc_db::id_set;
use crate::dynamic_boc_db::in_id_list;
use crate::dynamic_boc_db::lemma_blocked_in_closed;
use crate::dynamic_boc_db::lemma_reachable_in_closed;
use crate::dynamic_boc_db::reachable;
use crate::dynamic_boc_db::save_rec_spec;
use crate::dynamic_boc_db::stamped;
use crate::dynamic_boc_db::tree_consistent;
use crate::dynamic_boc_db::tree_contains;
use crate::dynamic_boc_db::tree_fresh;
use crate::dynamic_boc_db::DynamicBocDb;
use crate::error::StorageError;
use crate::hashing::sha256_of;
use crate::storage_cell::StorageCell;

verus! {

/// Serialized size of a shard-state index entry.
pub const DB_ENTRY_SIZE: usize = 112;

/// One shard-state index entry: the state root's hash and the block that
/// produced the state.
#[derive(Debug)]
pub struct DbEntry {
    pub cell_id: CellId,
    pub block_id_ext: BlockIdExt,
}

/// The layout of an index entry: the root hash, then the serialized block
/// identifier.
pub open spec fn db_entry_encoding(root: Seq<u8>, ext: crate::block_id::BlockIdExtModel) -> Seq<
    u8,
> {
    root + block_id_encoding(ext)
}

/// The root hash named by an entry's bytes.
pub open spec fn entry_root(v: Seq<u8>) -> Seq<u8> {
    v.subrange(0, CELL_ID_LEN as int)
}

/// The serialized block identifier inside an entry's bytes.
pub open spec fn entry_ext_bytes(v: Seq<u8>) -> Seq<u8> {
    v.subrange(CELL_ID_LEN as int, DB_ENTRY_SIZE as int)
}

/// The block key that an entry's block identifier hashes to.
pub open spec fn entry_block_key(v: Seq<u8>) -> Seq<u8> {
    sha256_of(entry_ext_bytes(v))
}

impl DbEntry {
    /// Both parts carry 32-byte hashes.
    pub open spec fn wf(self) -> bool {
        &&& self.cell_id.wf()
        &&& self.block_id_ext.wf()
    }

    /// Constructs an entry from its parts.
    pub fn with_params(cell_id: CellId, block_id_ext: BlockIdExt) -> (r: Self)
        ensures
            r.cell_id@ == cell_id@,
            r.block_id_ext@ == block_id_ext@,
    {
        DbEntry { cell_id, block_id_ext }
    }

    /// Writes the entry in its fixed layout.
    pub fn serialize(&self) -> (r: Vec<u8>)
        requires
            self.wf(),
        ensures
            r@ == db_entry_encoding(self.cell_id@, self.block_id_ext@),
            r@.len() == DB_ENTRY_SIZE,
            entry_root(r@) == self.cell_id@,
            entry_ext_bytes(r@) == block_id_encoding(self.block_id_ext@),
    {
        let mut out: Vec<u8> = Vec::new();
        put_bytes(&mut out, self.cell_id.as_slice());
        self.block_id_ext.write_encoding(&mut out);
        proof {
            vstd::bytes::lemma_auto_spec_u32_to_from_le_bytes();
            vstd::bytes::lemma_auto_spec_u64_to_from_le_bytes();
            assert(out@ =~= db_entry_encoding(self.cell_id@, self.block_id_ext@));
            assert(entry_root(out@) =~= self.cell_id@);
            assert(entry_ext_bytes(out@) =~= block_id_encoding(self.block_id_ext@));
        }
        out
    }

    /// Reads an entry back from its fixed layout; fails with
    /// `SerializationError` exactly when fewer than 112 bytes are given.
    pub fn deserialize(data: &[u8]) -> (r: Result<Self, StorageError>)
        ensures
            match r {
                Ok(e) => {
                    &&& data@.len() >= DB_ENTRY_SIZE
                    &&& e.wf()
                    &&& e.cell_id@ == entry_root(data@)
                    &&& block_id_encoding(e.block_id_ext@) == entry_ext_bytes(data@)
                },
                Err(err) => data@.len() < DB_ENTRY_SIZE && err
                    == StorageError::SerializationError,
            },
    {
        if data.len() < DB_ENTRY_SIZE {
            return Err(StorageError::SerializationError);
        }
        let cell_id = CellId::new(read_bytes(data, 0, CELL_ID_LEN));
        let workchain_bits = read_u32_le(data, 32);
        let workchain_id = workchain_bits as i32;
        let shard_prefix_tagged = read_u64_le(data, 36);
        let seq_no = read_u32_le(data, 44);
        let root_hash = CellId::new(read_bytes(data, 48, CELL_ID_LEN));
        let file_hash = CellId::new(read_bytes(data, 80, CELL_ID_LEN));
        let shard_id = crate::block_id::ShardIdent::with_tagged_prefix(
            workchain_id,
            shard_prefix_tagged,
        );
        let block_id_ext = BlockIdExt::with_params(shard_id, seq_no, root_hash, file_hash);
        let e = DbEntry { cell_id, block_id_ext };
        proof {
            vstd::bytes::lemma_auto_spec_u32_to_from_le_bytes();
            vstd::bytes::lemma_auto_spec_u64_to_from_le_bytes();
            assert((workchain_bits as i32) as u32 == workchain_bits) by (bit_vector);
            assert(block_id_encoding(e.block_id_ext@) =~= entry_ext_bytes(data@));
        }
        Ok(e)
    }
}

/// The persistent shard-state store.
#[derive(Debug)]
pub struct ShardStateDb {
    shardstate_db: MemoryDb,
    dynamic_boc_db: DynamicBocDb,
}

impl ShardStateDb {
    /// The index: block key to entry bytes.
    pub closed spec fn index(self) -> Map<Seq<u8>, Seq<u8>> {
        self.shardstate_db@
    }

    /// The cell records of the backing store.
    pub closed spec fn stored(self) -> Map<Seq<u8>, Seq<u8>> {
        self.dynamic_boc_db.stored()
    }

    /// The in-memory cell cache of the backing store.
    pub closed spec fn cache(self) -> Map<Seq<u8>, StorageCell> {
        self.dynamic_boc_db.cache()
    }

    /// The current garbage-collection generation.
    pub closed spec fn generation(self) -> u32 {
        self.dynamic_boc_db.generation()
    }

    /// The index holds whole entries and the cell store is well formed.
    pub closed spec fn wf(self) -> bool {
        &&& self.shardstate_db.wf()
        &&& self.dynamic_boc_db.wf()
        &&& forall|k: Seq<u8>| #[trigger]
            self.shardstate_db@.contains_key(k) ==> self.shardstate_db@[k].len() == DB_ENTRY_SIZE
    }

    /// Constructs an empty in-memory store.
    pub fn in_memory() -> (r: Self)
        ensures
            r.wf(),
            r.index() == Map::<Seq<u8>, Seq<u8>>::empty(),
            r.stored() == Map::<Seq<u8>, Seq<u8>>::empty(),
            r.cache() == Map::<Seq<u8>, StorageCell>::empty(),
            r.generation() == 0,
    {
        Self::with_dbs(MemoryDb::new(), CellDb::in_memory())
    }

    /// Constructs a store over existing collections; the index must be
    /// empty or already hold whole entries.
    pub fn with_dbs(shardstate_db: MemoryDb, cell_db: CellDb) -> (r: Self)
        requires
            shardstate_db.wf(),
            cell_db.wf(),
            forall|k: Seq<u8>| #[trigger]
                shardstate_db@.contains_key(k) ==> shardstate_db@[k].len() == DB_ENTRY_SIZE,
        ensures
            r.wf(),
            r.index() == shardstate_db@,
            r.stored() == cell_db@,
            r.cache() == Map::<Seq<u8>, StorageCell>::empty(),
            r.generation() == 0,
    {
        ShardStateDb { shardstate_db, dynamic_boc_db: DynamicBocDb::with_db(cell_db) }
    }

    /// The backing dynamic bag-of-cells store.
    pub fn dynamic_boc_db(&self) -> (r: &DynamicBocDb)
        ensures
            r.stored() == self.stored(),
            r.cache() == self.cache(),
            r.generation() == self.generation(),
    {
        &self.dynamic_boc_db
    }

    /// Stores the state rooted at `state_root` for block `id`: saves the
    /// cell tree as a dynamic bag of cells and writes the index entry.
    /// Returns the number of cells actually written — exactly the number of
    /// keys the save adds to the cell store.
    pub fn put(&mut self, id: &BlockId, state_root: &Cell) -> (written_count: usize)
        requires
            old(self).wf(),
            id.wf(),
            id@.block_id_ext.root_hash.len() == CELL_ID_LEN,
            id@.block_id_ext.file_hash.len() == CELL_ID_LEN,
            state_root.wf(),
        ensures
            final(self).wf(),
            final(self).cache() == old(self).cache(),
            final(self).generation() == old(self).generation(),
            written_count == final(self).stored().dom().len() - old(self).stored().dom().len(),
            final(self).index() == old(self).index().insert(
                id@.key,
                db_entry_encoding(state_root.model().repr_hash, id@.block_id_ext),
            ),
            final(self).stored() == old(self).stored().union_prefer_right(
                save_rec_spec(
                    state_root.model(),
                    old(self).stored().dom(),
                    Map::<Seq<u8>, Seq<u8>>::empty(),
                ),
            ),
            old(self).stored().contains_key(state_root.model().repr_hash) ==> final(self).stored()
                == old(self).stored() && written_count == 0,
            (tree_consistent(state_root.model()) && tree_fresh(
                state_root.model(),
                old(self).stored().dom(),
            )) ==> forall|c: CellModel| #[trigger]
                tree_contains(state_root.model(), c) ==> final(self).stored().contains_key(
                    c.repr_hash,
                ) && final(self).stored()[c.repr_hash] == model_record(c),
    {
        let cell_id = state_root.repr_hash().clone();
        let written_count = self.dynamic_boc_db.save_as_dynamic_boc(state_root);
        let entry = DbEntry::with_params(cell_id, id.block_id_ext().clone());
        let buf = entry.serialize();
        let mut key: Vec<u8> = Vec::new();
        put_bytes(&mut key, id.key_bytes());
        proof {
            assert(key@ =~= id@.key);
        }
        self.shardstate_db.put(key, buf);
        written_count
    }

    /// Loads the state root stored for block `id`; fails with `KeyNotFound`
    /// exactly when the block has no entry or its root cell is gone.
    pub fn get(&mut self, id: &BlockId) -> (r: Result<StorageCell, StorageError>)
        requires
            old(self).wf(),
        ensures
            final(self).wf(),
            final(self).index() == old(self).index(),
            final(self).stored() == old(self).stored(),
            final(self).generation() == old(self).generation(),
            match r {
                Ok(c) => {
                    &&& old(self).index().contains_key(id@.key)
                    &&& c.wf()
                    &&& c@.repr_hash == entry_root(old(self).index()[id@.key])
                },
                Err(e) => {
                    &&& e == StorageError::KeyNotFound
                    &&& (!old(self).index().contains_key(id@.key) || {
                        let root = entry_root(old(self).index()[id@.key]);
                        !old(self).cache().contains_key(root) && !old(
                            self,
                        ).stored().contains_key(root)
                    })
                },
            },
    {
        let entry_bytes = match self.shardstate_db.get(id.key_bytes()) {
            Some(v) => v,
            None => {
                return Err(StorageError::KeyNotFound);
            },
        };
        let root_id = CellId::new(read_bytes(entry_bytes.as_slice(), 0, CELL_ID_LEN));
        proof {
            assert(root_id@ =~= entry_root(old(self).index()[id@.key]));
        }
        match self.dynamic_boc_db.load_cell(&root_id) {
            Ok(c) => Ok(c),
            Err(e) => Err(e),
        }
    }
}

/// Decides whether the state of a block is old enough to collect.
#[derive(Debug)]
pub struct AllowStateGcResolverImpl {
    block_handle_db: BlockInfoDb,
    shard_state_ttl: u32,
}

/// The default time a shard state is kept, in seconds.
pub const DEFAULT_SHARD_STATE_TTL: u32 = 86400;

/// Whether the block's state is expired: its meta record exists and its
/// generation time plus the time to live lies before `gc_utime`.
pub open spec fn state_expired(
    metadb: Map<Seq<u8>, Seq<u8>>,
    block_key: Seq<u8>,
    ttl: u32,
    gc_utime: u32,
) -> bool {
    &&& metadb.contains_key(block_key)
    &&& meta_decoding(metadb[block_key]).gen_utime + ttl < gc_utime
}

impl AllowStateGcResolverImpl {
    /// The meta records consulted.
    pub closed spec fn metadb(self) -> Map<Seq<u8>, Seq<u8>> {
        self.block_handle_db@
    }

    /// The configured time to live.
    pub closed spec fn ttl(self) -> u32 {
        self.shard_state_ttl
    }

    /// The meta store is well formed.
    pub closed spec fn wf(self) -> bool {
        self.block_handle_db.wf()
    }

    /// Constructs a resolver over a block-meta store, with the default time
    /// to live of one day.
    pub fn with_data(block_handle_db: BlockInfoDb) -> (r: Self)
        requires
            block_handle_db.wf(),
        ensures
            r.wf(),
            r.metadb() == block_handle_db@,
            r.ttl() == DEFAULT_SHARD_STATE_TTL,
    {
        AllowStateGcResolverImpl { block_handle_db, shard_state_ttl: DEFAULT_SHARD_STATE_TTL }
    }

    /// The current time to live.
    pub fn shard_state_ttl(&self) -> (r: u32)
        ensures
            r == self.ttl(),
    {
        self.shard_state_ttl
    }

    /// Reconfigures the time to live.
    pub fn set_shard_state_ttl(&mut self, value: u32)
        ensures
            final(self).ttl() == value,
            final(self).metadb() == old(self).metadb(),
            old(self).wf() ==> final(self).wf(),
    {
        self.shard_state_ttl = value;
    }

    /// Whether the block's state may be collected at `gc_utime`: true
    /// exactly when its generation time plus the time to live has passed.
    /// Fails with `KeyNotFound` when no meta record exists for the block.
    pub fn allow_state_gc(&self, block_id: &BlockId, gc_utime: u32) -> (r: Result<
        bool,
        StorageError,
    >)
        requires
            self.wf(),
        ensures
            match r {
                Ok(b) => self.metadb().contains_key(block_id@.key) && (b <==> state_expired(
                    self.metadb(),
                    block_id@.key,
                    self.ttl(),
                    gc_utime,
                )),
                Err(e) => !self.metadb().contains_key(block_id@.key) && e
                    == StorageError::KeyNotFound,
            },
    {
        let block_meta = match self.block_handle_db.get_block_meta(block_id) {
            Ok(m) => m,
            Err(e) => {
                return Err(e);
            },
        };
        Ok((block_meta.gen_utime() as u64) + (self.shard_state_ttl as u64) < gc_utime as u64)
    }
}

/// The roots the collector must keep: state roots whose cell is live in
/// memory, and roots of states that are not expired.
pub open spec fn live_roots(
    index: Map<Seq<u8>, Seq<u8>>,
    metadb: Map<Seq<u8>, Seq<u8>>,
    cache_dom: Set<Seq<u8>>,
    ttl: u32,
    gc_utime: u32,
) -> Set<Seq<u8>> {
    Set::new(
        |r: Seq<u8>|
            exists|bk: Seq<u8>| #[trigger]
                index.contains_key(bk) && entry_root(index[bk]) == r && (cache_dom.contains(r)
                    || !state_expired(metadb, entry_block_key(index[bk]), ttl, gc_utime)),
    )
}

/// The roots the collector sweeps: state roots of expired states with no
/// live in-memory cell.
pub open spec fn dead_roots(
    index: Map<Seq<u8>, Seq<u8>>,
    metadb: Map<Seq<u8>, Seq<u8>>,
    cache_dom: Set<Seq<u8>>,
    ttl: u32,
    gc_utime: u32,
) -> Set<Seq<u8>> {
    Set::new(
        |r: Seq<u8>|
            exists|bk: Seq<u8>| #[trigger]
                index.contains_key(bk) && entry_root(index[bk]) == r && !cache_dom.contains(r)
                    && state_expired(metadb, entry_block_key(index[bk]), ttl, gc_utime),
    )
}

/// Whether some key in the list holds the bytes `k`.
pub open spec fn in_key_list(w: Seq<Vec<u8>>, k: Seq<u8>) -> bool {
    exists|j: int| 0 <= j < w.len() && (#[trigger] w[j])@ == k
}

/// The garbage collector over a shard-state store.
#[derive(Debug)]
pub struct GC {
    allow_state_gc_resolver: AllowStateGcResolverImpl,
}

impl GC {
    /// The resolver's meta records.
    pub closed spec fn metadb(self) -> Map<Seq<u8>, Seq<u8>> {
        self.allow_state_gc_resolver.metadb()
    }

    /// The resolver's time to live.
    pub closed spec fn ttl(self) -> u32 {
        self.allow_state_gc_resolver.ttl()
    }

    /// The resolver is well formed.
    pub closed spec fn wf(self) -> bool {
        self.allow_state_gc_resolver.wf()
    }

    /// Constructs a collector with the default resolver over the given
    /// block-meta store.
    pub fn new(block_handle_db: BlockInfoDb) -> (r: Self)
        requires
            block_handle_db.wf(),
        ensures
            r.wf(),
            r.metadb() == block_handle_db@,
            r.ttl() == DEFAULT_SHARD_STATE_TTL,
    {
        Self::with_data(AllowStateGcResolverImpl::with_data(block_handle_db))
    }

    /// Constructs a collector with the given resolver.
    pub fn with_data(allow_state_gc_resolver: AllowStateGcResolverImpl) -> (r: Self)
        requires
            allow_state_gc_resolver.wf(),
        ensures
            r.wf(),
            r.metadb() == allow_state_gc_resolver.metadb(),
            r.ttl() == allow_state_gc_resolver.ttl(),
    {
        GC { allow_state_gc_resolver }
    }

    /// One garbage collection: classifies every indexed state as live or
    /// dead, marks everything reachable from the live roots, sweeps the
    /// dead subtrees through a transaction, and drops the swept index
    /// entries. On success the store loses exactly the records reachable
    /// from a dead root without passing through a kept cell — one held in
    /// memory or reachable from a live root — the count returned is the
    /// number of deleted records, and the index loses exactly the dead
    /// entries. A failed collection deletes nothing.
    #[verifier::loop_isolation(false)]
    #[verifier::rlimit(60)]
    pub fn collect(&self, db: &mut ShardStateDb, gc_utime: u32) -> (r: Result<
        usize,
        StorageError,
    >)
        requires
            self.wf(),
            old(db).wf(),
            old(db).generation() < u32::MAX,
        ensures
            final(db).wf(),
            ({
                let live = live_roots(
                    old(db).index(),
                    self.metadb(),
                    old(db).cache().dom(),
                    self.ttl(),
                    gc_utime,
                );
                let keep = old(db).cache().dom().union(reachable(old(db).stored(), live));
                let dead = dead_roots(
                    old(db).index(),
                    self.metadb(),
                    old(db).cache().dom(),
                    self.ttl(),
                    gc_utime,
                );
                match r {
                    Ok(count) => {
                        &&& forall|k: Seq<u8>| #[trigger]
                            final(db).stored().contains_key(k) <==> (old(
                                db,
                            ).stored().contains_key(k) && !(blocked_reach(
                                old(db).stored(),
                                keep,
                                dead,
                            ).contains(k) && !keep.contains(k)))
                        &&& forall|k: Seq<u8>| #[trigger]
                            final(db).stored().contains_key(k) ==> final(db).stored()[k] == old(
                                db,
                            ).stored()[k]
                        &&& count == old(db).stored().dom().len() - final(db).stored().dom().len()
                        &&& forall|k: Seq<u8>| #[trigger]
                            old(db).cache().contains_key(k) ==> (final(db).stored().contains_key(
                                k,
                            ) <==> old(db).stored().contains_key(k))
                        &&& forall|k: Seq<u8>|
                            reachable(old(db).stored(), live).contains(k) ==> (
                            #[trigger] final(db).stored().contains_key(k) <==> old(
                                db,
                            ).stored().contains_key(k))
                        &&& forall|bk: Seq<u8>| #[trigger]
                            final(db).index().contains_key(bk) <==> (old(db).index().contains_key(
                                bk,
                            ) && (old(db).cache().dom().contains(
                                entry_root(old(db).index()[bk]),
                            ) || !state_expired(
                                self.metadb(),
                                entry_block_key(old(db).index()[bk]),
                                self.ttl(),
                                gc_utime,
                            )))
                        &&& forall|bk: Seq<u8>| #[trigger]
                            final(db).index().contains_key(bk) ==> final(db).index()[bk] == old(
                                db,
                            ).index()[bk]
                    },
                    Err(_e) => {
                        &&& final(db).stored() == old(db).stored()
                        &&& final(db).index() == old(db).index()
                    },
                }
            }),
    {
        let ghost index0 = db.shardstate_db@;
        let ghost ssdb0 = db.shardstate_db;
        let ghost cache0 = db.dynamic_boc_db.cache();
        let ghost stored0 = db.dynamic_boc_db.stored();
        let ghost live = live_roots(index0, self.metadb(), cache0.dom(), self.ttl(), gc_utime);
        let ghost dead = dead_roots(index0, self.metadb(), cache0.dom(), self.ttl(), gc_utime);
        let ghost keep = cache0.dom().union(reachable(stored0, live));
        let before = db.dynamic_boc_db.stored_count();
        proof {
            old(db).dynamic_boc_db.lemma_stored_len_is_dom();
        }
        let gc_gen = db.dynamic_boc_db.new_gc_generation();
        proof {
            assert forall|k: Seq<u8>| #[trigger] db.dynamic_boc_db.cache().contains_key(
                k,
            ) implies db.dynamic_boc_db.cache()[k]@.gc_gen < gc_gen by {
                old(db).dynamic_boc_db.lemma_cache_gen_bound(k);
            }
        }
        let mut to_mark: Vec<CellId> = Vec::new();
        let mut sweep_roots: Vec<CellId> = Vec::new();
        let mut sweep_blocks: Vec<Vec<u8>> = Vec::new();
        let n = db.shardstate_db.len();
        let ghost es = db.shardstate_db.entry_seq();
        let mut i: usize = 0;
        while i < n
            invariant
                i <= n,
                n == es.len(),
                forall|j: int|
                    0 <= j < i ==> ((cache0.dom().contains(entry_root((#[trigger] es[j]).1))
                        || !state_expired(
                        self.metadb(),
                        entry_block_key(es[j].1),
                        self.ttl(),
                        gc_utime,
                    )) ==> in_id_list(to_mark@, entry_root(es[j].1))),
                forall|j: int|
                    0 <= j < i ==> ((!cache0.dom().contains(entry_root((#[trigger] es[j]).1))
                        && state_expired(
                        self.metadb(),
                        entry_block_key(es[j].1),
                        self.ttl(),
                        gc_utime,
                    )) ==> in_key_list(sweep_blocks@, es[j].0) && in_id_list(
                        sweep_roots@,
                        entry_root(es[j].1),
                    )),
                forall|jj: int|
                    0 <= jj < to_mark@.len() ==> live.contains((#[trigger] to_mark@[jj])@),
                sweep_roots@.len() == sweep_blocks@.len(),
                forall|jj: int|
                    0 <= jj < sweep_blocks@.len() ==> {
                        let bk = (#[trigger] sweep_blocks@[jj])@;
                        &&& index0.contains_key(bk)
                        &&& entry_root(index0[bk]) == sweep_roots@[jj]@
                        &&& !cache0.dom().contains(sweep_roots@[jj]@)
                        &&& state_expired(
                            self.metadb(),
                            entry_block_key(index0[bk]),
                            self.ttl(),
                            gc_utime,
                        )
                    },
            decreases n - i,
        {
            proof {
                db.shardstate_db.lemma_entry_in_view(i as int);
            }
            let value = db.shardstate_db.value_at(i);
            let entry = match DbEntry::deserialize(value.as_slice()) {
                Ok(e) => e,
                Err(_) => {
                    proof {
                        assert(false);
                    }
                    vstd::pervasive::unreached()
                },
            };
            proof {
                assert(entry.cell_id@ =~= entry_root(es[i as int].1));
            }
            let ghost mark_before = to_mark@;
            if db.dynamic_boc_db.cache_contains(&entry.cell_id) {
                to_mark.push(entry.cell_id);
                proof {
                    assert(db.dynamic_boc_db.cache() == cache0);
                    assert(in_id_list(to_mark@, entry_root(es[i as int].1))) by {
                        assert(to_mark@[to_mark@.len() - 1]@ == entry_root(es[i as int].1));
                    }
                    assert forall|j: int| 0 <= j < i && in_id_list(
                        mark_before,
                        entry_root((#[trigger] es[j]).1),
                    ) implies in_id_list(to_mark@, entry_root(es[j].1)) by {
                        crate::dynamic_boc_db::lemma_in_id_list_prefix(
                            mark_before,
                            to_mark@,
                            entry_root(es[j].1),
                        );
                    }
                    assert(live.contains(entry_root(es[i as int].1))) by {
                        assert(index0.contains_key(es[i as int].0) && index0[es[i as int].0]
                            == es[i as int].1);
                    }
                    assert forall|jj: int| 0 <= jj < to_mark@.len() implies live.contains(
                        (#[trigger] to_mark@[jj])@,
                    ) by {
                        if jj < mark_before.len() {
                            assert(to_mark@[jj] == mark_before[jj]);
                        } else {
                            assert(to_mark@[jj]@ == entry_root(es[i as int].1));
                        }
                    }
                }
            } else {
                let block_id = BlockId::from_ext(entry.block_id_ext.clone());
                proof {
                    assert(block_id@.key == entry_block_key(es[i as int].1));
                }
                let expired = match self.allow_state_gc_resolver.allow_state_gc(
                    &block_id,
                    gc_utime,
                ) {
                    Ok(b) => b,
                    Err(e) => {
                        return Err(e);
                    },
                };
                if expired {
                    let mut bk: Vec<u8> = Vec::new();
                    put_bytes(&mut bk, db.shardstate_db.key_at(i).as_slice());
                    proof {
                        assert(bk@ =~= es[i as int].0);
                    }
                    let ghost sb_before = sweep_blocks@;
                    let ghost sr_before = sweep_roots@;
                    sweep_blocks.push(bk);
                    sweep_roots.push(entry.cell_id);
                    proof {
                        assert(db.dynamic_boc_db.cache() == cache0);
                        assert(!cache0.dom().contains(entry_root(es[i as int].1)));
                        assert(state_expired(
                            self.metadb(),
                            entry_block_key(es[i as int].1),
                            self.ttl(),
                            gc_utime,
                        ));
                        assert(in_key_list(sweep_blocks@, es[i as int].0)) by {
                            assert((sweep_blocks@[sweep_blocks@.len() - 1])@ == es[i as int].0);
                        }
                        assert(in_id_list(sweep_roots@, entry_root(es[i as int].1))) by {
                            assert(sweep_roots@[sweep_roots@.len() - 1]@ == entry_root(
                                es[i as int].1,
                            ));
                        }
                        assert forall|j: int| 0 <= j < i && in_key_list(
                            sb_before,
                            (#[trigger] es[j]).0,
                        ) implies in_key_list(sweep_blocks@, es[j].0) by {
                            let jx = choose|jx: int|
                                0 <= jx < sb_before.len() && (sb_before[jx])@ == es[j].0;
                            assert((sweep_blocks@[jx])@ == es[j].0);
                        }
                        assert forall|j: int| 0 <= j < i && in_id_list(
                            sr_before,
                            entry_root((#[trigger] es[j]).1),
                        ) implies in_id_list(sweep_roots@, entry_root(es[j].1)) by {
                            crate::dynamic_boc_db::lemma_in_id_list_prefix(
                                sr_before,
                                sweep_roots@,
                                entry_root(es[j].1),
                            );
                        }
                        assert(index0.contains_key(es[i as int].0) && index0[es[i as int].0]
                            == es[i as int].1);
                        assert forall|jj: int| 0 <= jj < sweep_blocks@.len() implies {
                            let bkk = (#[trigger] sweep_blocks@[jj])@;
                            &&& index0.contains_key(bkk)
                            &&& entry_root(index0[bkk]) == sweep_roots@[jj]@
                            &&& !cache0.dom().contains(sweep_roots@[jj]@)
                            &&& state_expired(
                                self.metadb(),
                                entry_block_key(index0[bkk]),
                                self.ttl(),
                                gc_utime,
                            )
                        } by {
                            if jj < sb_before.len() {
                                assert(sweep_blocks@[jj] == sb_before[jj]);
                                assert(sweep_roots@[jj] == sr_before[jj]);
                            } else {
                                assert((sweep_blocks@[jj])@ == es[i as int].0);
                                assert(sweep_roots@[jj]@ == entry_root(es[i as int].1));
                            }
                        }
                    }
                } else {
                    to_mark.push(entry.cell_id);
                    proof {
                        assert(in_id_list(to_mark@, entry_root(es[i as int].1))) by {
                            assert(to_mark@[to_mark@.len() - 1]@ == entry_root(es[i as int].1));
                        }
                        assert forall|j: int| 0 <= j < i && in_id_list(
                            mark_before,
                            entry_root((#[trigger] es[j]).1),
                        ) implies in_id_list(to_mark@, entry_root(es[j].1)) by {
                            crate::dynamic_boc_db::lemma_in_id_list_prefix(
                                mark_before,
                                to_mark@,
                                entry_root(es[j].1),
                            );
                        }
                        assert(live.contains(entry_root(es[i as int].1))) by {
                            assert(index0.contains_key(es[i as int].0) && index0[es[i as int].0]
                                == es[i as int].1);
                        }
                        assert forall|jj: int| 0 <= jj < to_mark@.len() implies live.contains(
                            (#[trigger] to_mark@[jj])@,
                        ) by {
                            if jj < mark_before.len() {
                                assert(to_mark@[jj] == mark_before[jj]);
                            } else {
                                assert(to_mark@[jj]@ == entry_root(es[i as int].1));
                            }
                        }
                    }
                }
            }
            i = i + 1;
        }
        proof {
            assert(id_set(to_mark@) =~= live) by {
                assert forall|c: Seq<u8>|
                    id_set(to_mark@).contains(c) == live.contains(c) by {
                    if id_set(to_mark@).contains(c) {
                        let jj = choose|jj: int| 0 <= jj < to_mark@.len() && to_mark@[jj]@ == c;
                        assert(live.contains((to_mark@[jj])@));
                    }
                    if live.contains(c) {
                        let bk = choose|bk: Seq<u8>| #[trigger]
                            index0.contains_key(bk) && entry_root(index0[bk]) == c && (
                            cache0.dom().contains(c) || !state_expired(
                                self.metadb(),
                                entry_block_key(index0[bk]),
                                self.ttl(),
                                gc_utime,
                            ));
                        ssdb0.lemma_view_in_entries(bk);
                        let j = choose|j: int| 0 <= j < es.len() && es[j].0 == bk;
                        ssdb0.lemma_entry_in_view(j);
                        assert(es[j].1 == index0[bk]);
                        assert(in_id_list(to_mark@, entry_root(es[j].1)));
                        assert(id_set(to_mark@).contains(c));
                    }
                }
            }
            assert(id_set(sweep_roots@) =~= dead) by {
                assert forall|c: Seq<u8>|
                    id_set(sweep_roots@).contains(c) == dead.contains(c) by {
                    if id_set(sweep_roots@).contains(c) {
                        let jj = choose|jj: int|
                            0 <= jj < sweep_roots@.len() && sweep_roots@[jj]@ == c;
                        let bk = (sweep_blocks@[jj])@;
                        assert(index0.contains_key(bk) && entry_root(index0[bk]) == c
                            && !cache0.dom().contains(c) && state_expired(
                            self.metadb(),
                            entry_block_key(index0[bk]),
                            self.ttl(),
                            gc_utime,
                        ));
                        assert(dead.contains(c));
                    }
                    if dead.contains(c) {
                        let bk = choose|bk: Seq<u8>| #[trigger]
                            index0.contains_key(bk) && entry_root(index0[bk]) == c
                                && !cache0.dom().contains(c) && state_expired(
                                self.metadb(),
                                entry_block_key(index0[bk]),
                                self.ttl(),
                                gc_utime,
                            );
                        ssdb0.lemma_view_in_entries(bk);
                        let j = choose|j: int| 0 <= j < es.len() && es[j].0 == bk;
                        ssdb0.lemma_entry_in_view(j);
                        assert(es[j].1 == index0[bk]);
                        assert(in_id_list(sweep_roots@, entry_root(es[j].1)));
                        assert(id_set(sweep_roots@).contains(c));
                    }
                }
            }
        }
        if sweep_roots.len() == 0 {
            proof {
                assert forall|c: Seq<u8>| !dead.contains(c) by {
                    if dead.contains(c) {
                        assert(id_set(sweep_roots@).contains(c));
                        let jj = choose|jj: int|
                            0 <= jj < sweep_roots@.len() && sweep_roots@[jj]@ == c;
                        assert(false);
                    }
                }
                assert(dead.subset_of(Set::<Seq<u8>>::empty()));
                lemma_blocked_in_closed(stored0, keep, dead, Set::<Seq<u8>>::empty());
                assert forall|k: Seq<u8>| #[trigger] db.dynamic_boc_db.stored().contains_key(k)
                    <==> (stored0.contains_key(k) && !(blocked_reach(stored0, keep, dead).contains(
                    k,
                ) && !keep.contains(k))) by {
                    assert(!blocked_reach(stored0, keep, dead).contains(k));
                }
                assert forall|bk: Seq<u8>| #[trigger] db.shardstate_db@.contains_key(bk) <==> (
                index0.contains_key(bk) && (cache0.dom().contains(entry_root(index0[bk]))
                    || !state_expired(
                    self.metadb(),
                    entry_block_key(index0[bk]),
                    self.ttl(),
                    gc_utime,
                ))) by {
                    if index0.contains_key(bk) && !cache0.dom().contains(entry_root(index0[bk]))
                        && state_expired(
                        self.metadb(),
                        entry_block_key(index0[bk]),
                        self.ttl(),
                        gc_utime,
                    ) {
                        assert(dead.contains(entry_root(index0[bk])));
                        assert(false);
                    }
                }
            }
            return Ok(0);
        }
        match db.dynamic_boc_db.mark_subtrees(&to_mark, gc_gen) {
            Ok(_) => (),
            Err(e) => {
                return Err(e);
            },
        }
        let mut transaction = CellDbTransaction::new();
        match db.dynamic_boc_db.sweep_subtrees(&sweep_roots, &mut transaction) {
            Ok(_) => (),
            Err(e) => {
                return Err(e);
            },
        }
        let ghost cache1 = db.dynamic_boc_db.cache();
        let ghost marked = stamped(cache1, gc_gen);
        let ghost deletes = transaction.delete_seq();
        proof {
            assert forall|rt: Seq<u8>| #[trigger] live.contains(rt) implies marked.contains(
                rt,
            ) by {
                let bk = choose|bk: Seq<u8>| #[trigger]
                    index0.contains_key(bk) && entry_root(index0[bk]) == rt && (cache0.dom().contains(
                        rt,
                    ) || !state_expired(
                        self.metadb(),
                        entry_block_key(index0[bk]),
                        self.ttl(),
                        gc_utime,
                    ));
                ssdb0.lemma_view_in_entries(bk);
                let j = choose|j: int| 0 <= j < es.len() && es[j].0 == bk;
                ssdb0.lemma_entry_in_view(j);
                assert(in_id_list(to_mark@, entry_root(es[j].1)));
                let jj = choose|jj: int| 0 <= jj < to_mark@.len() && to_mark@[jj]@ == rt;
                assert(marked.contains(to_mark@[jj]@));
            }
            lemma_reachable_in_closed(stored0, live, marked);
            assert(keep =~= cache1.dom()) by {
                assert forall|k: Seq<u8>| keep.contains(k) == cache1.dom().contains(k) by {
                    if keep.contains(k) {
                        if cache0.dom().contains(k) {
                            assert(cache0.contains_key(k));
                            assert(cache1.contains_key(k));
                        } else {
                            assert(reachable(stored0, live).contains(k));
                            assert(marked.contains(k));
                            assert(cache1.contains_key(k));
                        }
                    }
                    if cache1.dom().contains(k) && !cache0.contains_key(k) {
                        assert(reachable(stored0, id_set(to_mark@)).contains(k));
                        assert(id_set(to_mark@) == live);
                        assert(reachable(stored0, live).contains(k));
                    }
                }
            }
            assert(id_set(sweep_roots@) == dead);
            assert(cache1.dom() == keep);
            assert forall|k: Seq<u8>| #[trigger]
                deletes.contains(k) <==> (blocked_reach(stored0, keep, dead).contains(k)
                    && !keep.contains(k)) by {
                assert(blocked_reach(stored0, cache1.dom(), id_set(sweep_roots@)) == blocked_reach(
                    stored0,
                    keep,
                    dead,
                ));
                assert(cache1.contains_key(k) == keep.contains(k));
            }
        }
        db.dynamic_boc_db.commit_transaction(transaction);
        let after = db.dynamic_boc_db.stored_count();
        proof {
            db.dynamic_boc_db.lemma_stored_len_is_dom();
            old(db).dynamic_boc_db.lemma_stored_dom_finite();
            assert(db.dynamic_boc_db.stored().dom().subset_of(stored0.dom()));
            vstd::set_lib::lemma_len_subset(db.dynamic_boc_db.stored().dom(), stored0.dom());
        }
        let delete_count = before - after;
        let ghost stored_mid = db.dynamic_boc_db.stored();
        let m = sweep_blocks.len();
        let mut j: usize = 0;
        while j < m
            invariant
                j <= m,
                m == sweep_blocks@.len(),
                db.wf(),
                db.dynamic_boc_db.stored() == stored_mid,
                db.dynamic_boc_db.cache() == cache1,
                forall|b: Seq<u8>| #[trigger]
                    db.shardstate_db@.contains_key(b) <==> (index0.contains_key(b) && !(
                    exists|j2: int| 0 <= j2 < j && (#[trigger] sweep_blocks@[j2])@ == b)),
                forall|b: Seq<u8>| #[trigger]
                    db.shardstate_db@.contains_key(b) ==> db.shardstate_db@[b] == index0[b],
            decreases m - j,
        {
            let ghost idx_before = db.shardstate_db@;
            let key = sweep_blocks[j].clone();
            self_delete_index(db, key.as_slice());
            proof {
                assert forall|b: Seq<u8>| #[trigger] db.shardstate_db@.contains_key(b) <==> (
                index0.contains_key(b) && !(exists|j2: int|
                    0 <= j2 < j + 1 && (#[trigger] sweep_blocks@[j2])@ == b)) by {
                    if exists|j2: int| 0 <= j2 < j + 1 && (#[trigger] sweep_blocks@[j2])@ == b {
                        let j2 = choose|j2: int|
                            0 <= j2 < j + 1 && (#[trigger] sweep_blocks@[j2])@ == b;
                        if j2 == j {
                            assert((sweep_blocks@[j as int])@ == b);
                            assert(!db.shardstate_db@.contains_key(b));
                        }
                    } else {
                        if index0.contains_key(b) {
                            assert(idx_before.contains_key(b));
                            assert(b != key@);
                        }
                    }
                }
            }
            j = j + 1;
        }
        proof {
            assert forall|k: Seq<u8>| #[trigger] db.dynamic_boc_db.stored().contains_key(k) <==> (
            stored0.contains_key(k) && !(blocked_reach(stored0, keep, dead).contains(k)
                && !keep.contains(k))) by {
                assert(deletes.contains(k) <==> (blocked_reach(stored0, keep, dead).contains(k)
                    && !keep.contains(k)));
            }
            assert forall|k: Seq<u8>| #[trigger] cache0.contains_key(k) implies (
            db.dynamic_boc_db.stored().contains_key(k) <==> stored0.contains_key(k)) by {
                assert(keep.contains(k));
            }
            assert forall|k: Seq<u8>| reachable(stored0, live).contains(k) implies (
            #[trigger] db.dynamic_boc_db.stored().contains_key(k) <==> stored0.contains_key(
                k,
            )) by {
                assert(keep.contains(k));
            }
            assert forall|bk: Seq<u8>| #[trigger] db.shardstate_db@.contains_key(bk) <==> (
            index0.contains_key(bk) && (cache0.dom().contains(entry_root(index0[bk]))
                || !state_expired(
                self.metadb(),
                entry_block_key(index0[bk]),
                self.ttl(),
                gc_utime,
            ))) by {
                if index0.contains_key(bk) {
                    if in_key_list(sweep_blocks@, bk) {
                        let jj = choose|jj: int|
                            0 <= jj < sweep_blocks@.len() && (sweep_blocks@[jj])@ == bk;
                        assert(entry_root(index0[bk]) == sweep_roots@[jj]@
                            && !cache0.dom().contains(sweep_roots@[jj]@) && state_expired(
                            self.metadb(),
                            entry_block_key(index0[bk]),
                            self.ttl(),
                            gc_utime,
                        ));
                        assert(!db.shardstate_db@.contains_key(bk));
                    } else {
                        if !cache0.dom().contains(entry_root(index0[bk])) && state_expired(
                            self.metadb(),
                            entry_block_key(index0[bk]),
                            self.ttl(),
                            gc_utime,
                        ) {
                            ssdb0.lemma_view_in_entries(bk);
                            let j2 = choose|j2: int| 0 <= j2 < es.len() && es[j2].0 == bk;
                            ssdb0.lemma_entry_in_view(j2);
                            assert(in_key_list(sweep_blocks@, es[j2].0));
                            assert(false);
                        }
                        assert(db.shardstate_db@.contains_key(bk));
                    }
                }
            }
        }
        Ok(delete_count)
    }
}

/// Removes one index entry; split out so the borrow of the index does not
/// overlap the loop's own state.
fn self_delete_index(db: &mut ShardStateDb, key: &[u8])
    requires
        old(db).wf(),
    ensures
        final(db).wf(),
        final(db).index() == old(db).index().remove(key@),
        final(db).stored() == old(db).stored(),
        final(db).cache() == old(db).cache(),
        final(db).generation() == old(db).generation(),
{
    db.shardstate_db.delete(key);
}

} // verus!
