//! The per-shard block index: appends keep sequence numbers strictly
//! increasing (an equal number is a no-op, a lower one an error), and blocks
//! can be found again by sequence number, logical time or unix time, folding
//! a binary search across every shard-prefix depth.

use vstd::prelude::*;
use crate::block_handle::BlockHandle;
use crate::block_id::spec_tagged_prefix;
use crate::block_id::BlockIdExt;
use crate::block_id::ShardIdent;
use crate::block_id::MAX_SPLIT_DEPTH;
use crate::error::StorageError;
use crate::lt_db::LtDb;
use crate::lt_db::LtDbEntry;
use crate::lt_db::LtDbEntryModel;
use crate::lt_desc_db::LtDesc;
use crate::lt_desc_db::LtDescDb;

verus! {

/// The full prefix of an account address: workchain and 64 address bits.
#[derive(Debug, Clone, Copy, PartialEq, Eq, Structural)]
pub struct AccountIdPrefixFull {
    pub workchain_id: i32,
    pub prefix: u64,
}

/// What a lookup searches by.
#[derive(Debug, Clone, Copy)]
pub enum SearchKey {
    /// An exact sequence number.
    SeqNo(u32),
    /// A logical time bound.
    Lt(u64),
    /// A unix time bound.
    Ut(u32),
}

/// The searched value.
pub open spec fn key_query(key: SearchKey) -> int {
    match key {
        SearchKey::SeqNo(q) => q as int,
        SearchKey::Lt(q) => q as int,
        SearchKey::Ut(q) => q as int,
    }
}

/// The entry's value under the searched key.
pub open spec fn key_of(key: SearchKey, e: LtDbEntryModel) -> int {
    match key {
        SearchKey::SeqNo(_) => e.block_id_ext.seq_no as int,
        SearchKey::Lt(_) => e.lt as int,
        SearchKey::Ut(_) => e.unix_time as int,
    }
}

/// Whether the entry's key equals the searched key.
pub open spec fn entry_key_eq(key: SearchKey, e: LtDbEntryModel) -> bool {
    key_of(key, e) == key_query(key)
}

/// Whether the entry's key is at or past the searched key.
pub open spec fn entry_key_ge(key: SearchKey, e: LtDbEntryModel) -> bool {
    key_of(key, e) >= key_query(key)
}

/// Whether a shard's entries are sorted under the searched key. Sequence
/// numbers always are; logical and unix times are whenever blocks were
/// appended in chain order.
pub open spec fn shard_sorted(key: SearchKey, es: Seq<LtDbEntryModel>) -> bool {
    forall|a: int, b: int|
        0 <= a < b < es.len() ==> key_of(key, #[trigger] es[a]) <= key_of(key, #[trigger] es[b])
}

/// Whether `es[j]` has the least key among the entries of `es` at or past
/// the searched key.
pub open spec fn least_at_or_past(key: SearchKey, es: Seq<LtDbEntryModel>, j: int) -> bool {
    forall|j2: int|
        0 <= j2 < es.len() && key_of(key, #[trigger] es[j2]) >= key_query(key) ==> key_of(
            key,
            es[j],
        ) <= key_of(key, es[j2])
}

/// The shard of the given depth containing the account prefix.
pub open spec fn prefix_shard(account: AccountIdPrefixFull, len: u8) -> ShardIdent {
    ShardIdent {
        workchain_id: account.workchain_id,
        shard_prefix_tagged: spec_tagged_prefix(len, account.prefix),
    }
}

/// The descriptors agree with the entry arrays: same shards, a dense range
/// starting at one, strictly increasing sequence numbers, and the last
/// entry's keys recorded.
pub open spec fn index_coupled(
    descs: Map<Seq<u8>, LtDesc>,
    shards: Map<Seq<u8>, Vec<LtDbEntry>>,
) -> bool {
    &&& forall|k: Seq<u8>| #[trigger]
        shards.contains_key(k) <==> #[trigger] descs.contains_key(k)
    &&& forall|k: Seq<u8>| #[trigger]
        descs.contains_key(k) ==> {
            let es = shards[k]@.map_values(|e: LtDbEntry| e@);
            let d = descs[k];
            &&& es.len() >= 1
            &&& d.first_index == 1
            &&& d.last_index == es.len()
            &&& forall|i: int, j: int|
                0 <= i < j < es.len() ==> (#[trigger] es[i]).block_id_ext.seq_no < (
                #[trigger] es[j]).block_id_ext.seq_no
            &&& d.last_seq_no == es.last().block_id_ext.seq_no
            &&& d.last_lt == es.last().lt
            &&& d.last_unix_time == es.last().unix_time
        }
}

/// The per-shard block index.
#[derive(Debug)]
pub struct BlockIndexDb {
    lt_desc_db: LtDescDb,
    lt_db: LtDb,
}

impl BlockIndexDb {
    /// The descriptors, by serialized shard coordinate.
    pub closed spec fn descs(self) -> Map<Seq<u8>, LtDesc> {
        self.lt_desc_db.descs()
    }

    /// The entries of one shard, oldest first.
    pub closed spec fn entries_for(self, shard: ShardIdent) -> Seq<LtDbEntryModel> {
        self.lt_db.entries_of(shard)
    }

    /// Both collections are well formed and agree.
    pub closed spec fn wf(self) -> bool {
        &&& self.lt_desc_db.wf()
        &&& self.lt_db.wf()
        &&& index_coupled(self.lt_desc_db.descs(), self.lt_db.shards())
    }

    /// Constructs an index over the two given collections.
    pub fn with_dbs(lt_desc_db: LtDescDb, lt_db: LtDb) -> (r: Self)
        requires
            lt_desc_db.wf(),
            lt_db.wf(),
            index_coupled(lt_desc_db.descs(), lt_db.shards()),
        ensures
            r.wf(),
            r.descs() == lt_desc_db.descs(),
            forall|s: ShardIdent| r.entries_for(s) == lt_db.entries_of(s),
    {
        BlockIndexDb { lt_desc_db, lt_db }
    }

    /// Constructs an empty in-memory index.
    pub fn in_memory() -> (r: Self)
        ensures
            r.wf(),
            r.descs() == Map::<Seq<u8>, LtDesc>::empty(),
            forall|s: ShardIdent| r.entries_for(s) == Seq::<LtDbEntryModel>::empty(),
    {
        Self::with_dbs(LtDescDb::in_memory(), LtDb::in_memory())
    }

    /// The descriptor collection.
    pub fn lt_desc_db(&self) -> (r: &LtDescDb)
        ensures
            r.descs() == self.descs(),
            self.wf() ==> r.wf(),
    {
        &self.lt_desc_db
    }

    /// The entry collection.
    pub fn lt_db(&self) -> (r: &LtDb)
        ensures
            self.wf() ==> r.wf(),
    {
        &self.lt_db
    }

    /// Appends one block to its shard's index. A sequence number equal to
    /// the last appended one is a no-op; a lower one is refused; a higher
    /// one extends the array and advances the descriptor. Succeeds exactly
    /// on the no-op and on an append of a handle whose generation time is
    /// known below an exhausted index.
    pub fn add_handle(&mut self, handle: &BlockHandle) -> (r: Result<(), StorageError>)
        requires
            old(self).wf(),
        ensures
            final(self).wf(),
            ({
                let shard = old(self).spec_handle_shard(handle);
                let sk = shard.encoding();
                let had = old(self).descs().contains_key(sk);
                let last = old(self).descs()[sk].last_seq_no;
                let li = old(self).descs()[sk].last_index;
                let seq = handle.spec_id().seq_no;
                let noop = had && seq == last;
                let refused = had && seq != last && (seq < last || li == u32::MAX);
                let known_time = handle.spec_meta().fetched || handle.flags()
                    & crate::block_meta::FLAG_STATE == crate::block_meta::FLAG_STATE;
                &&& (r.is_ok() <==> noop || (!noop && !refused && known_time))
                &&& match r {
                    Ok(_) => if noop {
                        final(self).descs() == old(self).descs() && forall|s: ShardIdent|
                            final(self).entries_for(s) == old(self).entries_for(s)
                    } else {
                        &&& (!had || seq > last)
                        &&& final(self).entries_for(shard) == old(self).entries_for(shard).push(
                            LtDbEntryModel {
                                block_id_ext: handle.spec_id(),
                                lt: handle.spec_meta().gen_lt,
                                unix_time: handle.spec_meta().gen_utime,
                            },
                        )
                        &&& final(self).descs() == old(self).descs().insert(
                            sk,
                            LtDesc {
                                first_index: 1,
                                last_index: if had {
                                    (li + 1) as u32
                                } else {
                                    1
                                },
                                last_seq_no: seq,
                                last_lt: handle.spec_meta().gen_lt,
                                last_unix_time: handle.spec_meta().gen_utime,
                            },
                        )
                        &&& forall|s: ShardIdent|
                            s.encoding() != sk ==> final(self).entries_for(s) == old(
                                self,
                            ).entries_for(s)
                    },
                    Err(e) => {
                        &&& final(self).descs() == old(self).descs()
                        &&& (forall|s: ShardIdent|
                            final(self).entries_for(s) == old(self).entries_for(s))
                        &&& (e == StorageError::InvariantViolation || e
                            == StorageError::KeyNotFound)
                        &&& (e == StorageError::InvariantViolation <==> refused)
                        &&& (e == StorageError::KeyNotFound ==> !known_time)
                    },
                }
            }),
    {
        let shard = *handle.id().shard();
        let index: u32 = match self.lt_desc_db.try_get_value(&shard) {
            Some(desc) => {
                if handle.id().seq_no() == desc.last_seq_no() {
                    return Ok(());
                }
                if handle.id().seq_no() < desc.last_seq_no() {
                    return Err(StorageError::InvariantViolation);
                }
                if desc.last_index() == u32::MAX {
                    return Err(StorageError::InvariantViolation);
                }
                desc.last_index() + 1
            },
            None => 1,
        };
        let gen_utime = match handle.gen_utime() {
            Ok(t) => t,
            Err(_) => {
                return Err(StorageError::KeyNotFound);
            },
        };
        let entry = LtDbEntry::with_values(handle.id().clone(), handle.gen_lt(), gen_utime);
        let ghost old_lt_db = self.lt_db;
        self.lt_db.push_entry(&shard, entry);
        self.lt_desc_db.put_value(
            &shard,
            LtDesc::with_values(1, index, handle.id().seq_no(), handle.gen_lt(), gen_utime),
        );
        proof {
            let sk = shard.encoding();
            assert forall|k: Seq<u8>|
                k != sk implies (#[trigger] self.lt_db.shards().contains_key(k)
                == old(self).lt_db.shards().contains_key(k)) && (self.lt_db.shards().contains_key(
                k,
            ) ==> self.lt_db.shards()[k] == old(self).lt_db.shards()[k]) by {}
            assert forall|k: Seq<u8>| #[trigger] self.lt_db.shards().contains_key(k)
                <==> #[trigger] self.lt_desc_db.descs().contains_key(k) by {
                if k == sk {
                    assert(self.lt_desc_db.descs().contains_key(sk));
                    assert(self.lt_db.entries_of(shard).len() > 0);
                    if !self.lt_db.shards().contains_key(sk) {
                        assert(self.lt_db.entries_of(shard) =~= Seq::<LtDbEntryModel>::empty());
                    }
                } else {
                    assert(old(self).lt_db.shards().contains_key(k) <==> old(
                        self,
                    ).lt_desc_db.descs().contains_key(k));
                }
            }
            let es = self.lt_db.shards()[sk]@.map_values(|e: LtDbEntry| e@);
            assert(es =~= self.lt_db.entries_of(shard));
            assert(es == old(self).entries_for(shard).push(es.last()));
            if old(self).descs().contains_key(sk) {
                let old_es = old_lt_db.entries_of(shard);
                assert(old_es =~= old(self).lt_db.shards()[sk]@.map_values(|e: LtDbEntry| e@));
                assert forall|i: int, j: int| 0 <= i < j < es.len() implies (
                #[trigger] es[i]).block_id_ext.seq_no < (#[trigger] es[j]).block_id_ext.seq_no by {
                    if j < es.len() - 1 {
                        assert(old_es[i].block_id_ext.seq_no < old_es[j].block_id_ext.seq_no);
                    } else {
                        if i < old_es.len() - 1 {
                            assert(old_es[i].block_id_ext.seq_no < old_es[old_es.len()
                                - 1].block_id_ext.seq_no);
                        }
                        assert(old_es.last().block_id_ext.seq_no < es.last().block_id_ext.seq_no);
                    }
                }
            }
            assert forall|s: ShardIdent| s.encoding() != sk implies self.lt_db.entries_of(s)
                == old_lt_db.entries_of(s) by {
                if self.lt_db.shards().contains_key(s.encoding()) {
                    assert(self.lt_db.shards()[s.encoding()] == old(
                        self,
                    ).lt_db.shards()[s.encoding()]);
                }
            }
            assert(index_coupled(self.lt_desc_db.descs(), self.lt_db.shards())) by {
                assert forall|k: Seq<u8>| #[trigger] self.lt_desc_db.descs().contains_key(
                    k,
                ) implies {
                    let es2 = self.lt_db.shards()[k]@.map_values(|e: LtDbEntry| e@);
                    let d = self.lt_desc_db.descs()[k];
                    &&& es2.len() >= 1
                    &&& d.first_index == 1
                    &&& d.last_index == es2.len()
                    &&& forall|i: int, j: int|
                        0 <= i < j < es2.len() ==> (#[trigger] es2[i]).block_id_ext.seq_no < (
                        #[trigger] es2[j]).block_id_ext.seq_no
                    &&& d.last_seq_no == es2.last().block_id_ext.seq_no
                    &&& d.last_lt == es2.last().lt
                    &&& d.last_unix_time == es2.last().unix_time
                } by {
                    if k != sk {
                        assert(old(self).lt_desc_db.descs().contains_key(k));
                        assert(old(self).lt_db.shards().contains_key(k));
                        assert(self.lt_db.shards().contains_key(k));
                        assert(self.lt_db.shards()[k] == old(self).lt_db.shards()[k]);
                    }
                }
            }
        }
        Ok(())
    }

    /// The shard coordinate of a handle, as the index files it.
    pub open spec fn spec_handle_shard(self, handle: &BlockHandle) -> ShardIdent {
        handle.spec_id().shard_id
    }

    /// Whether the shard at prefix depth `len` holds an entry satisfying
    /// the key: equal to it for an exact lookup, at or past it otherwise.
    pub open spec fn shard_has_match(
        self,
        account: AccountIdPrefixFull,
        key: SearchKey,
        exact: bool,
        len: u8,
    ) -> bool {
        let es = self.entries_for(prefix_shard(account, len));
        exists|j: int|
            0 <= j < es.len() && (if exact {
                entry_key_eq(key, #[trigger] es[j])
            } else {
                entry_key_ge(key, es[j])
            })
    }

    /// Whether no shard of any depth that is sorted under the key holds a
    /// satisfying entry.
    pub open spec fn no_sorted_match(
        self,
        account: AccountIdPrefixFull,
        key: SearchKey,
        exact: bool,
    ) -> bool {
        forall|len: u8|
            len <= MAX_SPLIT_DEPTH && shard_sorted(
                key,
                #[trigger] self.entries_for(prefix_shard(account, len)),
            ) ==> !self.shard_has_match(account, key, exact, len)
    }

    /// Whether `b` has the least sequence number among the satisfying
    /// entries of every depth whose shard is sorted under the key.
    pub open spec fn min_sorted_match(
        self,
        account: AccountIdPrefixFull,
        key: SearchKey,
        b: crate::block_id::BlockIdExtModel,
    ) -> bool {
        forall|len: u8, j: int|
            #![trigger self.entries_for(prefix_shard(account, len))[j]]
            {
                let es = self.entries_for(prefix_shard(account, len));
                (len <= MAX_SPLIT_DEPTH && shard_sorted(key, es) && 0 <= j < es.len()
                    && entry_key_ge(key, es[j])) ==> b.seq_no <= es[j].block_id_ext.seq_no
            }
    }

    /// Every shard's entries are sorted under a sequence-number key.
    pub proof fn lemma_seq_no_sorted(self, shard: ShardIdent, q: u32)
        requires
            self.wf(),
        ensures
            shard_sorted(SearchKey::SeqNo(q), self.entries_for(shard)),
    {
        let sk = shard.encoding();
        if self.lt_db.shards().contains_key(sk) {
            assert(self.lt_desc_db.descs().contains_key(sk));
            let es = self.lt_db.shards()[sk]@.map_values(|e: LtDbEntry| e@);
            assert(es =~= self.entries_for(shard));
        }
    }

    /// Whether `b` is a lookup hit: some matching shard holds it at a
    /// position that satisfies the key — exactly for an exact lookup, at or
    /// past it otherwise — and, whenever that shard is sorted under the key,
    /// no entry of the shard at or past the key has a smaller one.
    pub open spec fn found_block(
        self,
        account: AccountIdPrefixFull,
        key: SearchKey,
        exact: bool,
        b: crate::block_id::BlockIdExtModel,
    ) -> bool {
        exists|len: u8, j: int|
            #![trigger self.entries_for(prefix_shard(account, len))[j]]
            {
                let es = self.entries_for(prefix_shard(account, len));
                &&& len <= MAX_SPLIT_DEPTH
                &&& 0 <= j < es.len()
                &&& es[j].block_id_ext == b
                &&& if exact {
                    entry_key_eq(key, es[j])
                } else {
                    entry_key_ge(key, es[j])
                }
                &&& (shard_sorted(key, es) ==> least_at_or_past(key, es, j))
            }
    }

    /// Finds the block with exactly this sequence number for the account;
    /// fails exactly when no covering shard holds one.
    pub fn get_block_by_seq_no(&self, account_id: &AccountIdPrefixFull, seq_no: u32) -> (r: Result<
        BlockIdExt,
        StorageError,
    >)
        requires
            self.wf(),
        ensures
            match r {
                Ok(b) => self.found_block(*account_id, SearchKey::SeqNo(seq_no), true, b@),
                Err(e) => e == StorageError::KeyNotFound && self.no_sorted_match(
                    *account_id,
                    SearchKey::SeqNo(seq_no),
                    true,
                ),
            },
    {
        self.get_block(account_id, SearchKey::SeqNo(seq_no), true)
    }

    /// Finds the block of least sequence number whose logical time is at or
    /// past the given one; fails exactly when no sorted covering shard
    /// holds one.
    pub fn get_block_by_lt(&self, account_id: &AccountIdPrefixFull, lt: u64) -> (r: Result<
        BlockIdExt,
        StorageError,
    >)
        requires
            self.wf(),
        ensures
            match r {
                Ok(b) => self.found_block(*account_id, SearchKey::Lt(lt), false, b@) && (
                self.min_sorted_match(*account_id, SearchKey::Lt(lt), b@) || self.found_block(
                    *account_id,
                    SearchKey::Lt(lt),
                    true,
                    b@,
                )),
                Err(e) => e == StorageError::KeyNotFound && self.no_sorted_match(
                    *account_id,
                    SearchKey::Lt(lt),
                    false,
                ),
            },
    {
        self.get_block(account_id, SearchKey::Lt(lt), false)
    }

    /// Finds the block of least sequence number whose unix time is at or
    /// past the given one; fails exactly when no sorted covering shard
    /// holds one.
    pub fn get_block_by_ut(&self, account_id: &AccountIdPrefixFull, unix_time: u32) -> (r: Result<
        BlockIdExt,
        StorageError,
    >)
        requires
            self.wf(),
        ensures
            match r {
                Ok(b) => self.found_block(*account_id, SearchKey::Ut(unix_time), false, b@) && (
                self.min_sorted_match(*account_id, SearchKey::Ut(unix_time), b@)
                    || self.found_block(*account_id, SearchKey::Ut(unix_time), true, b@)),
                Err(e) => e == StorageError::KeyNotFound && self.no_sorted_match(
                    *account_id,
                    SearchKey::Ut(unix_time),
                    false,
                ),
            },
    {
        self.get_block(account_id, SearchKey::Ut(unix_time), false)
    }

    /// The shared lookup: at each prefix depth, consult the shard's
    /// descriptor and binary-search its entries; an exact hit returns at
    /// once, otherwise the smallest candidate at or past the key wins.
    #[verifier::loop_isolation(false)]
    fn get_block(&self, account_id: &AccountIdPrefixFull, key: SearchKey, exact: bool) -> (r:
        Result<BlockIdExt, StorageError>)
        requires
            self.wf(),
        ensures
            match r {
                Ok(b) => self.found_block(*account_id, key, exact, b@) && (!exact
                    ==> self.min_sorted_match(*account_id, key, b@) || self.found_block(
                    *account_id,
                    key,
                    true,
                    b@,
                )),
                Err(e) => e == StorageError::KeyNotFound && self.no_sorted_match(
                    *account_id,
                    key,
                    exact,
                ),
            },
    {
        let mut best: Option<BlockIdExt> = None;
        let mut best_seq_no: u32 = 0;
        let mut depth: u8 = 0;
        while depth <= MAX_SPLIT_DEPTH
            invariant
                depth <= MAX_SPLIT_DEPTH + 1,
                match best {
                    Some(b) => self.found_block(*account_id, key, false, b@) && !exact
                        && b@.seq_no == best_seq_no,
                    None => true,
                },
                forall|d: u8, j: int|
                    #![trigger self.entries_for(prefix_shard(*account_id, d))[j]]
                    ({
                        let es = self.entries_for(prefix_shard(*account_id, d));
                        (d < depth && shard_sorted(key, es) && 0 <= j < es.len() && (if exact {
                            entry_key_eq(key, es[j])
                        } else {
                            entry_key_ge(key, es[j])
                        })) ==> (!exact && best is Some && best_seq_no
                            <= es[j].block_id_ext.seq_no)
                    }),
            decreases MAX_SPLIT_DEPTH + 1 - depth,
        {
            let ghost depth0 = depth;
            let shard = ShardIdent::with_prefix_len(
                depth,
                account_id.workchain_id,
                account_id.prefix,
            );
            proof {
                assert(shard == prefix_shard(*account_id, depth));
            }
            let desc = match self.lt_desc_db.try_get_value(&shard) {
                Some(d) => d,
                None => {
                    proof {
                        if self.lt_db.shards().contains_key(shard.encoding()) {
                            assert(self.lt_desc_db.descs().contains_key(shard.encoding()));
                        }
                        assert(self.entries_for(shard) =~= Seq::<LtDbEntryModel>::empty());
                        assert forall|d: u8, j: int|
                            #![trigger self.entries_for(prefix_shard(*account_id, d))[j]]
                            ({
                                let es = self.entries_for(prefix_shard(*account_id, d));
                                (d < depth0 + 1 && shard_sorted(key, es) && 0 <= j < es.len() && (
                                if exact {
                                    entry_key_eq(key, es[j])
                                } else {
                                    entry_key_ge(key, es[j])
                                }))
                            }) implies (!exact && best is Some && best_seq_no
                            <= self.entries_for(
                            prefix_shard(*account_id, d),
                        )[j].block_id_ext.seq_no) by {
                            let es = self.entries_for(prefix_shard(*account_id, d));
                            if d == depth0 {
                                assert(es.len() == 0);
                            }
                        }
                    }
                    depth = depth + 1;
                    continue;
                },
            };
            proof {
                let es2 = self.lt_db.shards()[shard.encoding()]@.map_values(|e: LtDbEntry| e@);
                assert(es2 =~= self.entries_for(shard));
            }
            // A key past the shard's last appended block cannot be found
            // here: move on to the next depth.
            let past_last = match key {
                SearchKey::SeqNo(q) => q > desc.last_seq_no(),
                SearchKey::Lt(q) => q > desc.last_lt(),
                SearchKey::Ut(q) => q > desc.last_unix_time(),
            };
            if past_last {
                proof {
                    assert forall|d: u8, j: int|
                        #![trigger self.entries_for(prefix_shard(*account_id, d))[j]]
                        ({
                            let es = self.entries_for(prefix_shard(*account_id, d));
                            (d < depth0 + 1 && shard_sorted(key, es) && 0 <= j < es.len() && (
                            if exact {
                                entry_key_eq(key, es[j])
                            } else {
                                entry_key_ge(key, es[j])
                            }))
                        }) implies (!exact && best is Some && best_seq_no <= self.entries_for(
                        prefix_shard(*account_id, d),
                    )[j].block_id_ext.seq_no) by {
                        let es = self.entries_for(prefix_shard(*account_id, d));
                        if d == depth0 {
                            assert(key_of(key, es[j]) <= key_of(key, es[es.len() - 1]));
                            assert(key_of(key, es[es.len() - 1]) < key_query(key));
                        }
                    }
                }
                depth = depth + 1;
                continue;
            }
            let entries = match self.lt_db.entries(&shard) {
                Some(v) => v,
                None => {
                    proof {
                        assert(false);
                    }
                    vstd::pervasive::unreached()
                },
            };
            let ghost es = self.entries_for(shard);
            let n = entries.len();
            let mut shard_cand: Option<BlockIdExt> = None;
            let mut shard_cand_seq: u32 = 0;
            let ghost mut cand_j: int = 0;
            let mut lb: usize = 0;
            let mut rb: usize = n;
            while lb < rb
                invariant
                    lb <= rb <= n,
                    n == es.len(),
                    es == entries@.map_values(|e: LtDbEntry| e@),
                    shard_sorted(key, es) ==> forall|i: int|
                        0 <= i < lb ==> key_of(key, #[trigger] es[i]) < key_query(key),
                    shard_sorted(key, es) ==> forall|i: int|
                        rb <= i < n ==> key_of(key, #[trigger] es[i]) > key_query(key),
                    shard_cand is None ==> rb == n,
                    match shard_cand {
                        Some(c) => {
                            &&& cand_j == rb
                            &&& rb < n
                            &&& es[cand_j].block_id_ext == c@
                            &&& entry_key_ge(key, es[cand_j])
                            &&& shard_cand_seq == es[cand_j].block_id_ext.seq_no
                        },
                        None => true,
                    },
                decreases rb - lb,
            {
                let mid = lb + (rb - lb) / 2;
                let e = &entries[mid];
                let ordering: i8 = match key {
                    SearchKey::SeqNo(q) => {
                        if e.block_id_ext().seq_no() == q {
                            0
                        } else if e.block_id_ext().seq_no() > q {
                            1
                        } else {
                            -1
                        }
                    },
                    SearchKey::Lt(q) => {
                        if e.lt() == q {
                            0
                        } else if e.lt() > q {
                            1
                        } else {
                            -1
                        }
                    },
                    SearchKey::Ut(q) => {
                        if e.unix_time() == q {
                            0
                        } else if e.unix_time() > q {
                            1
                        } else {
                            -1
                        }
                    },
                };
                if ordering == 0 {
                    let b = e.block_id_ext().clone();
                    proof {
                        assert(es[mid as int].block_id_ext == b@);
                        assert(entry_key_eq(key, es[mid as int]));
                        assert(entry_key_ge(key, es[mid as int]));
                        assert forall|j2: int|
                            0 <= j2 < es.len() && key_of(key, #[trigger] es[j2]) >= key_query(
                                key,
                            ) implies key_of(key, es[mid as int]) <= key_of(key, es[j2]) by {}
                        assert(least_at_or_past(key, es, mid as int));
                        assert(self.found_block(*account_id, key, true, b@));
                        assert(self.found_block(*account_id, key, exact, b@));
                    }
                    return Ok(b);
                } else if ordering == 1 {
                    proof {
                        cand_j = mid as int;
                        assert(entry_key_ge(key, es[mid as int]));
                        assert(key_of(key, es[mid as int]) > key_query(key));
                    }
                    shard_cand = Some(e.block_id_ext().clone());
                    shard_cand_seq = e.block_id_ext().seq_no();
                    rb = mid;
                } else {
                    proof {
                        assert(key_of(key, es[mid as int]) < key_query(key));
                    }
                    lb = mid + 1;
                }
            }
            // Fold this shard's candidate into the running best: the one
            // with the smaller sequence number wins.
            let ghost best0 = best;
            let ghost best_seq0 = best_seq_no;
            match shard_cand {
                Some(c) => {
                    proof {
                        assert forall|j2: int|
                            shard_sorted(key, es) && 0 <= j2 < es.len() && key_of(
                                key,
                                #[trigger] es[j2],
                            ) >= key_query(key) implies key_of(key, es[cand_j]) <= key_of(
                            key,
                            es[j2],
                        ) by {
                            if j2 < cand_j {
                                assert(key_of(key, es[j2]) < key_query(key));
                            }
                        }
                        assert(self.found_block(*account_id, key, false, c@));
                    }
                    if !exact {
                        let replace = match &best {
                            Some(_) => shard_cand_seq < best_seq_no,
                            None => true,
                        };
                        if replace {
                            best = Some(c);
                            best_seq_no = shard_cand_seq;
                        }
                    }
                },
                None => (),
            }
            proof {
                assert forall|d: u8, j: int|
                    #![trigger self.entries_for(prefix_shard(*account_id, d))[j]]
                    ({
                        let es_d = self.entries_for(prefix_shard(*account_id, d));
                        (d < depth0 + 1 && shard_sorted(key, es_d) && 0 <= j < es_d.len() && (
                        if exact {
                            entry_key_eq(key, es_d[j])
                        } else {
                            entry_key_ge(key, es_d[j])
                        }))
                    }) implies (!exact && best is Some && best_seq_no <= self.entries_for(
                    prefix_shard(*account_id, d),
                )[j].block_id_ext.seq_no) by {
                    let es_d = self.entries_for(prefix_shard(*account_id, d));
                    if d == depth0 && shard_sorted(key, es_d) && 0 <= j < es_d.len() {
                        assert(es_d == es);
                        if key_of(key, es[j]) >= key_query(key) {
                            assert(j >= lb);
                            assert(shard_cand is Some);
                            assert(cand_j <= j);
                            if cand_j < j {
                                assert(es[cand_j].block_id_ext.seq_no
                                    < es[j].block_id_ext.seq_no);
                            }
                            assert(shard_cand_seq <= es[j].block_id_ext.seq_no);
                            assert(!exact ==> best_seq_no <= shard_cand_seq);
                            if exact {
                                assert(key_of(key, es[j]) > key_query(key));
                                assert(!entry_key_eq(key, es[j]));
                            }
                        } else {
                            assert(!entry_key_ge(key, es[j]));
                            assert(!entry_key_eq(key, es[j]));
                        }
                    } else {
                        assert(d < depth0);
                        assert(!exact && best0 is Some && best_seq0
                            <= es_d[j].block_id_ext.seq_no);
                        assert(best_seq_no <= best_seq0);
                    }
                }
            }
            depth = depth + 1;
        }
        if !exact {
            match best {
                Some(b) => {
                    proof {
                        assert(self.min_sorted_match(*account_id, key, b@)) by {
                            assert forall|len: u8, j: int|
                                #![trigger self.entries_for(prefix_shard(*account_id, len))[j]]
                                ({
                                    let es_l = self.entries_for(prefix_shard(*account_id, len));
                                    (len <= MAX_SPLIT_DEPTH && shard_sorted(key, es_l) && 0 <= j
                                        < es_l.len() && entry_key_ge(key, es_l[j]))
                                }) implies b@.seq_no <= self.entries_for(
                                prefix_shard(*account_id, len),
                            )[j].block_id_ext.seq_no by {
                                assert(len < depth);
                            }
                        }
                    }
                    return Ok(b);
                },
                None => (),
            }
        }
        proof {
            assert(self.no_sorted_match(*account_id, key, exact)) by {
                assert forall|len: u8|
                    len <= MAX_SPLIT_DEPTH && shard_sorted(
                        key,
                        #[trigger] self.entries_for(prefix_shard(*account_id, len)),
                    ) implies !self.shard_has_match(*account_id, key, exact, len) by {
                    let es_l = self.entries_for(prefix_shard(*account_id, len));
                    if self.shard_has_match(*account_id, key, exact, len) {
                        let j = choose|j: int|
                            0 <= j < es_l.len() && (if exact {
                                entry_key_eq(key, #[trigger] es_l[j])
                            } else {
                                entry_key_ge(key, es_l[j])
                            });
                        assert(len < depth);
                        assert(!exact && best is Some);
                        assert(false);
                    }
                }
            }
        }
        Err(StorageError::KeyNotFound)
    }
}

} // verus!
