//! The archive manager: a staging area of loose files per entry identifier,
//! promoted into archive slices keyed by kind and window, with at most one
//! mover per block. A reader finds a block's artifact either still staged or
//! already in its slice, never neither.

use vstd::prelude::*;
use vstd::bytes::spec_u32_to_le_bytes;
use crate::archive_slice::ArchiveSlice;
use crate::assoc::AssocStore;
use crate::block_id::BlockIdExt;
use crate::block_id::MASTERCHAIN_ID;
use crate::block_meta::BlockMeta;
use crate::block_meta::BlockMetaModel;
use crate::block_meta::FLAG_DATA;
use crate::block_meta::FLAG_KEY_BLOCK;
use crate::block_meta::FLAG_MOVED_TO_ARCHIVE;
use crate::block_meta::FLAG_PROOF;
use crate::block_meta::FLAG_PROOF_LINK;
use crate::codec::put_bytes;
use crate::codec::put_u32_le;
use crate::error::StorageError;
use crate::package_entry_id::filename_short_of;
use crate::package_entry_id::PackageEntryId;
use crate::package_id::PackageType;
use crate::package_offsets_db::offset_key_of;

verus! {

/// Masterchain blocks per regular archive window.
pub const ARCHIVE_SIZE: u32 = 20000;

/// Masterchain blocks per key-block archive window.
pub const KEY_ARCHIVE_SIZE: u32 = 200000;

/// Sub-packages per archive window.
pub const SLICE_SIZE: u32 = 100;

/// The masterchain sequence number a block is archived under: its own for a
/// masterchain block, the recorded reference otherwise.
pub open spec fn spec_mc_seq_no(id: crate::block_id::BlockIdExtModel, m: BlockMetaModel) -> u32 {
    if id.shard_id.workchain_id == MASTERCHAIN_ID {
        id.seq_no
    } else {
        m.masterchain_ref_seq_no
    }
}

/// The slice key a block's artifacts are archived under: the key-block
/// archive window when the key-block flag is set, the regular archive
/// window otherwise.
pub open spec fn spec_slice_key_for(
    id: crate::block_id::BlockIdExtModel,
    m: BlockMetaModel,
) -> Seq<u8> {
    let mc = spec_mc_seq_no(id, m);
    if m.flags & FLAG_KEY_BLOCK == FLAG_KEY_BLOCK {
        slice_key(PackageType::KeyBlocks, (mc - mc % KEY_ARCHIVE_SIZE) as u32)
    } else {
        slice_key(PackageType::Blocks, (mc - mc % ARCHIVE_SIZE) as u32)
    }
}

/// The fixed path suffix of the staging directory under the root path.
pub open spec fn unapplied_suffix() -> Seq<u8> {
    seq![
        47u8,
        97u8,
        114u8,
        99u8,
        104u8,
        105u8,
        118u8,
        101u8,
        47u8,
        117u8,
        110u8,
        97u8,
        112u8,
        112u8,
        108u8,
        105u8,
        101u8,
        100u8,
    ]
}

/// The key of a slice in the file map: a kind tag byte then the window
/// start.
pub open spec fn slice_key(package_type: PackageType, window: u32) -> Seq<u8> {
    seq![
        match package_type {
            PackageType::Blocks => 0u8,
            PackageType::KeyBlocks => 1u8,
            PackageType::Persistent => 2u8,
        },
    ] + spec_u32_to_le_bytes(window)
}

/// The masterchain sequence number a block is archived under.
pub fn get_mc_seq_no(block_id: &BlockIdExt, block_meta: &BlockMeta) -> (r: u32)
    ensures
        r == spec_mc_seq_no(block_id@, block_meta@),
{
    if block_id.shard_id.workchain_id == MASTERCHAIN_ID {
        block_id.seq_no()
    } else {
        block_meta.masterchain_ref_seq_no()
    }
}

/// The staging area and the slices of every archive window.
#[derive(Debug)]
pub struct ArchiveManager {
    db_root_path: Vec<u8>,
    unapplied_dir: Vec<u8>,
    slices: AssocStore<ArchiveSlice>,
    unapplied: AssocStore<Vec<u8>>,
}

impl ArchiveManager {
    /// The staged loose files, by short name.
    pub closed spec fn staged(self) -> Map<Seq<u8>, Vec<u8>> {
        self.unapplied@
    }

    /// The slices, by kind and window key.
    pub closed spec fn slices(self) -> Map<Seq<u8>, ArchiveSlice> {
        self.slices@
    }

    /// The root path.
    pub closed spec fn spec_db_root_path(self) -> Seq<u8> {
        self.db_root_path@
    }

    /// The staging directory path.
    pub closed spec fn spec_unapplied_dir(self) -> Seq<u8> {
        self.unapplied_dir@
    }

    /// Unique keys throughout, and every slice well formed.
    pub closed spec fn wf(self) -> bool {
        &&& self.slices.wf()
        &&& self.unapplied.wf()
        &&& forall|k: Seq<u8>| #[trigger]
            self.slices@.contains_key(k) ==> self.slices@[k].wf()
    }

    /// Whether the slice at `key` holds the entry with offset key `k`, with
    /// the given data.
    pub open spec fn archived(self, key: Seq<u8>, k: Seq<u8>, data: Seq<u8>) -> bool {
        &&& self.slices().contains_key(key)
        &&& self.slices()[key].offsets().contains_key(k)
        &&& self.slices()[key].file_data(k) == data
    }

    /// Constructs a manager rooted at the given path, with an empty staging
    /// area and no slices.
    pub fn with_data(db_root_path: Vec<u8>) -> (r: Self)
        ensures
            r.wf(),
            r.spec_db_root_path() == db_root_path@,
            r.spec_unapplied_dir() == db_root_path@ + unapplied_suffix(),
            r.staged() == Map::<Seq<u8>, Vec<u8>>::empty(),
            r.slices() == Map::<Seq<u8>, ArchiveSlice>::empty(),
    {
        let mut unapplied_dir: Vec<u8> = Vec::new();
        put_bytes(&mut unapplied_dir, db_root_path.as_slice());
        let mut suffix: Vec<u8> = Vec::new();
        suffix.push(47u8);
        suffix.push(97u8);
        suffix.push(114u8);
        suffix.push(99u8);
        suffix.push(104u8);
        suffix.push(105u8);
        suffix.push(118u8);
        suffix.push(101u8);
        suffix.push(47u8);
        suffix.push(117u8);
        suffix.push(110u8);
        suffix.push(97u8);
        suffix.push(112u8);
        suffix.push(112u8);
        suffix.push(108u8);
        suffix.push(105u8);
        suffix.push(101u8);
        suffix.push(100u8);
        proof {
            assert(suffix@ =~= unapplied_suffix());
        }
        put_bytes(&mut unapplied_dir, suffix.as_slice());
        proof {
            assert(unapplied_dir@ =~= db_root_path@ + unapplied_suffix());
        }
        ArchiveManager {
            db_root_path,
            unapplied_dir,
            slices: AssocStore::new(),
            unapplied: AssocStore::new(),
        }
    }

    /// The root path.
    pub fn db_root_path(&self) -> (r: &Vec<u8>)
        ensures
            r@ == self.spec_db_root_path(),
    {
        &self.db_root_path
    }

    /// The staging directory path.
    pub fn unapplied_dir(&self) -> (r: &Vec<u8>)
        ensures
            r@ == self.spec_unapplied_dir(),
    {
        &self.unapplied_dir
    }

    /// Stages one loose file under the entry's short name, replacing any
    /// previous content.
    pub fn add_file(&mut self, entry_id: &PackageEntryId, data: Vec<u8>) -> (r: Result<
        (),
        StorageError,
    >)
        requires
            old(self).wf(),
        ensures
            final(self).wf(),
            r.is_ok(),
            final(self).staged() == old(self).staged().insert(
                filename_short_of(entry_id@),
                data,
            ),
            final(self).slices() == old(self).slices(),
    {
        let name = entry_id.filename_short();
        self.unapplied.put(name, data);
        Ok(())
    }

    /// Reads one staged loose file; fails with `KeyNotFound` exactly when
    /// nothing is staged under the entry's short name.
    pub fn read_temp_file(&self, entry_id: &PackageEntryId) -> (r: Result<Vec<u8>, StorageError>)
        requires
            self.wf(),
        ensures
            match r {
                Ok(d) => self.staged().contains_key(filename_short_of(entry_id@)) && d@
                    == self.staged()[filename_short_of(entry_id@)]@,
                Err(e) => !self.staged().contains_key(filename_short_of(entry_id@)) && e
                    == StorageError::KeyNotFound,
            },
    {
        let name = entry_id.filename_short();
        match self.unapplied.get(name.as_slice()) {
            Some(d) => Ok(d.clone()),
            None => Err(StorageError::KeyNotFound),
        }
    }

    /// Reads one block artifact: from the block's archive window — the
    /// key-block window for a key block, the regular window otherwise —
    /// when the block was moved there, from the staging area otherwise. A
    /// reader finds the bytes wherever the promotion currently stands, and
    /// fails only when the artifact is neither staged nor archived under
    /// the block's window.
    pub fn get_file(&self, block_id: &BlockIdExt, block_meta: &BlockMeta, entry_id: &PackageEntryId) -> (r: Result<Vec<u8>, StorageError>)
        requires
            self.wf(),
        ensures
            ({
                let name = filename_short_of(entry_id@);
                let k = offset_key_of(entry_id@);
                let skey = spec_slice_key_for(block_id@, block_meta@);
                match r {
                    Ok(d) => self.archived(skey, k, d@) || (self.staged().contains_key(name)
                        && d@ == self.staged()[name]@),
                    Err(e) => {
                        &&& e == StorageError::KeyNotFound
                        &&& !self.staged().contains_key(name)
                        &&& (block_meta@.flags & FLAG_MOVED_TO_ARCHIVE
                            == FLAG_MOVED_TO_ARCHIVE ==> !(self.slices().contains_key(skey)
                            && self.slices()[skey].offsets().contains_key(k)))
                    },
                }
            }),
    {
        if block_meta.flags_all(FLAG_MOVED_TO_ARCHIVE) {
            let is_key = block_meta.flags_all(FLAG_KEY_BLOCK);
            let mc_seq_no = get_mc_seq_no(block_id, block_meta);
            let package_type = if is_key {
                PackageType::KeyBlocks
            } else {
                PackageType::Blocks
            };
            let window = if is_key {
                mc_seq_no - mc_seq_no % KEY_ARCHIVE_SIZE
            } else {
                mc_seq_no - mc_seq_no % ARCHIVE_SIZE
            };
            let key = Self::slice_key_bytes(package_type, window);
            match self.slices.get(key.as_slice()) {
                Some(slice) => {
                    match slice.get_file(entry_id) {
                        Ok(e) => {
                            return Ok(e.take_data());
                        },
                        Err(_) => (),
                    }
                },
                None => (),
            }
        }
        self.read_temp_file(entry_id)
    }

    /// Promotes one block's staged artifacts into the archive: at most one
    /// mover wins the transient moving-started bit; the winner copies the
    /// applicable proof — full proof, else proof link — and the block data
    /// into the right slice, marks the block moved, and drops the staged
    /// files. A block whose move had already begun is left alone.
    pub fn move_to_archive(&mut self, block_id: &BlockIdExt, block_meta: &mut BlockMeta) -> (r:
        Result<(), StorageError>)
        requires
            old(self).wf(),
        ensures
            final(self).wf(),
            final(block_meta)@.flags & old(block_meta)@.flags == old(block_meta)@.flags,
            old(block_meta)@.moving_to_archive_started ==> r.is_ok() && final(self).staged()
                == old(self).staged() && final(self).slices() == old(self).slices()
                && final(block_meta)@ == old(block_meta)@,
            r.is_err() ==> final(block_meta)@ == (BlockMetaModel {
                moving_to_archive_started: true,
                ..old(block_meta)@
            }),
            ({
                let m = old(block_meta)@;
                let skey = spec_slice_key_for(block_id@, m);
                let block_eid = crate::package_entry_id::PackageEntryIdModel {
                    kind: crate::package_entry_id::ENTRY_KIND_BLOCK,
                    block_id_ext: block_id@,
                };
                let has_proof = m.flags & FLAG_PROOF == FLAG_PROOF;
                let has_link = m.flags & FLAG_PROOF_LINK == FLAG_PROOF_LINK;
                let has_data = m.flags & FLAG_DATA == FLAG_DATA;
                let peid = if has_proof {
                    crate::package_entry_id::PackageEntryIdModel {
                        kind: crate::package_entry_id::ENTRY_KIND_PROOF,
                        block_id_ext: block_id@,
                    }
                } else {
                    crate::package_entry_id::PackageEntryIdModel {
                        kind: crate::package_entry_id::ENTRY_KIND_PROOF_LINK,
                        block_id_ext: block_id@,
                    }
                };
                (r.is_ok() && !m.moving_to_archive_started) ==> {
                    &&& final(block_meta)@ == (BlockMetaModel {
                        flags: m.flags | FLAG_MOVED_TO_ARCHIVE,
                        moving_to_archive_started: true,
                        ..m
                    })
                    &&& (has_proof || has_link) ==> {
                        let kp = offset_key_of(peid);
                        let namep = filename_short_of(peid);
                        &&& old(self).staged().contains_key(namep)
                        &&& final(self).slices().contains_key(skey)
                        &&& final(self).slices()[skey].offsets().contains_key(kp)
                        &&& (final(self).archived(skey, kp, old(self).staged()[namep]@) || (old(
                            self,
                        ).slices().contains_key(skey)
                            && old(self).slices()[skey].offsets().contains_key(kp)))
                        &&& !final(self).staged().contains_key(namep)
                    }
                    &&& has_data ==> {
                        let kb = offset_key_of(block_eid);
                        let nameb = filename_short_of(block_eid);
                        &&& old(self).staged().contains_key(nameb)
                        &&& final(self).slices().contains_key(skey)
                        &&& final(self).slices()[skey].offsets().contains_key(kb)
                        &&& (final(self).archived(skey, kb, old(self).staged()[nameb]@) || (old(
                            self,
                        ).slices().contains_key(skey)
                            && old(self).slices()[skey].offsets().contains_key(kb)) || ((has_proof
                            || has_link) && offset_key_of(peid) == kb))
                        &&& !final(self).staged().contains_key(nameb)
                    }
                    &&& final(self).staged() == ({
                        let s1 = if has_proof || has_link {
                            old(self).staged().remove(filename_short_of(peid))
                        } else {
                            old(self).staged()
                        };
                        if has_data {
                            s1.remove(filename_short_of(block_eid))
                        } else {
                            s1
                        }
                    })
                    &&& forall|k2: Seq<u8>|
                        k2 != skey ==> ((#[trigger] final(self).slices().contains_key(k2)
                            <==> old(self).slices().contains_key(k2)) && (final(self).slices().contains_key(k2) ==> final(self).slices()[k2]
                            == old(self).slices()[k2]))
                }
            }),
    {
        if block_meta.start_moving_to_archive() {
            proof {
                crate::block_meta::lemma_flags_and_self(old(block_meta)@.flags);
            }
            return Ok(());
        }
        let proof_inited = block_meta.flags_all(FLAG_PROOF);
        let prooflink_inited = block_meta.flags_all(FLAG_PROOF_LINK);
        let data_inited = block_meta.flags_all(FLAG_DATA);
        let is_key = block_meta.flags_all(FLAG_KEY_BLOCK);
        let mc_seq_no = get_mc_seq_no(block_id, block_meta);
        let package_type = if is_key {
            PackageType::KeyBlocks
        } else {
            PackageType::Blocks
        };
        let window = if is_key {
            mc_seq_no - mc_seq_no % KEY_ARCHIVE_SIZE
        } else {
            mc_seq_no - mc_seq_no % ARCHIVE_SIZE
        };
        let mut proof_name: Option<Vec<u8>> = None;
        if proof_inited {
            let entry_id = PackageEntryId::Proof(block_id.clone());
            match self.move_file_to_archive(&entry_id, package_type, window) {
                Ok(name) => {
                    proof_name = Some(name);
                },
                Err(e) => {
                    proof {
                        crate::block_meta::lemma_flags_and_self(old(block_meta)@.flags);
                    }
                    return Err(e);
                },
            }
        } else if prooflink_inited {
            let entry_id = PackageEntryId::ProofLink(block_id.clone());
            match self.move_file_to_archive(&entry_id, package_type, window) {
                Ok(name) => {
                    proof_name = Some(name);
                },
                Err(e) => {
                    proof {
                        crate::block_meta::lemma_flags_and_self(old(block_meta)@.flags);
                    }
                    return Err(e);
                },
            }
        }
        let ghost self_before_data = *self;
        let mut block_name: Option<Vec<u8>> = None;
        if data_inited {
            let entry_id = PackageEntryId::Block(block_id.clone());
            match self.move_file_to_archive(&entry_id, package_type, window) {
                Ok(name) => {
                    block_name = Some(name);
                    proof {
                        let skey = slice_key(package_type, window);
                        let kb = offset_key_of(entry_id@);
                        let m = old(block_meta)@;
                        let peid = if m.flags & FLAG_PROOF == FLAG_PROOF {
                            crate::package_entry_id::PackageEntryIdModel {
                                kind: crate::package_entry_id::ENTRY_KIND_PROOF,
                                block_id_ext: block_id@,
                            }
                        } else {
                            crate::package_entry_id::PackageEntryIdModel {
                                kind: crate::package_entry_id::ENTRY_KIND_PROOF_LINK,
                                block_id_ext: block_id@,
                            }
                        };
                        let kp = offset_key_of(peid);
                        if !self.archived(skey, kb, self_before_data.staged()[filename_short_of(entry_id@)]@)
                            && !(old(self).slices().contains_key(skey) && old(
                            self,
                        ).slices()[skey].offsets().contains_key(kb)) {
                            assert(self_before_data.slices().contains_key(skey)
                                && self_before_data.slices()[skey].offsets().contains_key(kb));
                            assert(proof_inited || prooflink_inited);
                            if kb != kp {
                                if old(self).slices().contains_key(skey) {
                                    assert(self_before_data.slices()[skey].offsets().remove(
                                        kp,
                                    ).contains_key(kb));
                                    assert(old(self).slices()[skey].offsets().remove(
                                        kp,
                                    ).contains_key(kb));
                                    assert(false);
                                } else {
                                    assert(self_before_data.slices()[skey].offsets().remove(
                                        kp,
                                    ).contains_key(kb));
                                    assert(false);
                                }
                            }
                        }
                    }
                },
                Err(e) => {
                    proof {
                        crate::block_meta::lemma_flags_and_self(old(block_meta)@.flags);
                    }
                    return Err(e);
                },
            }
        }
        block_meta.set_flags(FLAG_MOVED_TO_ARCHIVE);
        match proof_name {
            Some(name) => {
                self.unapplied.remove(name.as_slice());
            },
            None => (),
        }
        match block_name {
            Some(name) => {
                self.unapplied.remove(name.as_slice());
            },
            None => (),
        }
        Ok(())
    }

    /// Copies one staged file into the slice of the given kind and window,
    /// creating the slice on first use; returns the staged file's short
    /// name. Fails with `KeyNotFound` exactly when nothing is staged.
    fn move_file_to_archive(
        &mut self,
        entry_id: &PackageEntryId,
        package_type: PackageType,
        window: u32,
    ) -> (r: Result<Vec<u8>, StorageError>)
        requires
            old(self).wf(),
        ensures
            final(self).wf(),
            ({
                let name = filename_short_of(entry_id@);
                let k = offset_key_of(entry_id@);
                let skey = slice_key(package_type, window);
                match r {
                    Ok(n) => {
                        &&& n@ == name
                        &&& old(self).staged().contains_key(name)
                        &&& final(self).staged() == old(self).staged()
                        &&& final(self).slices().contains_key(skey)
                        &&& final(self).slices()[skey].offsets().contains_key(k)
                        &&& (final(self).archived(skey, k, old(self).staged()[name]@) || (old(
                            self,
                        ).slices().contains_key(skey) && old(
                            self,
                        ).slices()[skey].offsets().contains_key(k)))
                        &&& (old(self).slices().contains_key(skey) ==> forall|k2: Seq<u8>|
                            k2 != k && #[trigger] old(self).slices()[skey].offsets().contains_key(
                                k2,
                            ) ==> final(self).slices()[skey].offsets().contains_key(k2) && final(self).slices()[skey].file_data(k2) == old(self).slices()[skey].file_data(
                                k2,
                            ) && final(self).slices()[skey].file_name(k2) == old(
                                self,
                            ).slices()[skey].file_name(k2))
                        &&& ((old(self).slices().contains_key(skey) && old(
                            self,
                        ).slices()[skey].offsets().contains_key(k)) ==> final(self).slices()[skey].offsets() == old(self).slices()[skey].offsets() && final(self).slices()[skey].packages_seq() == old(self).slices()[skey].packages_seq())
                        &&& (old(self).slices().contains_key(skey) ==> final(self).slices()[skey].offsets().remove(k) == old(
                            self,
                        ).slices()[skey].offsets().remove(k))
                        &&& (!old(self).slices().contains_key(skey) ==> final(self).slices()[skey].offsets().remove(k) == Map::<
                            Seq<u8>,
                            crate::package_offsets_db::PackageOffset,
                        >::empty())
                        &&& forall|k2: Seq<u8>|
                            k2 != skey ==> ((#[trigger] final(self).slices().contains_key(k2)
                                <==> old(self).slices().contains_key(k2))
                                && (final(self).slices().contains_key(k2)
                                ==> final(self).slices()[k2] == old(self).slices()[k2]))
                    },
                    Err(e) => {
                        &&& final(self).staged() == old(self).staged()
                        &&& (forall|k2: Seq<u8>|
                            k2 != skey ==> ((#[trigger] final(self).slices().contains_key(k2)
                                <==> old(self).slices().contains_key(k2))
                                && (final(self).slices().contains_key(k2)
                                ==> final(self).slices()[k2] == old(self).slices()[k2])))
                        &&& (old(self).slices().contains_key(skey)
                            ==> final(self).slices().contains_key(skey)
                                && final(self).slices()[skey].offsets() == old(
                                self,
                            ).slices()[skey].offsets())
                        &&& (e == StorageError::KeyNotFound || e == StorageError::OutOfRange)
                        &&& (e == StorageError::KeyNotFound <==> !old(
                            self,
                        ).staged().contains_key(name))
                        &&& (e == StorageError::OutOfRange ==> old(self).staged().contains_key(
                            name,
                        ) && (old(self).staged()[name]@.len() > 0xFFFF_FFFF || (old(
                            self,
                        ).slices().contains_key(skey) && crate::archive_slice::add_blocked(
                            old(self).slices()[skey].packages_seq(),
                            old(self).slices()[skey].offsets(),
                            entry_id@,
                            old(self).staged()[name]@,
                        )) || (!old(self).slices().contains_key(skey)
                            && crate::archive_slice::add_blocked(
                            seq![
                                vstd::bytes::spec_u32_to_le_bytes(
                                    crate::package::PKG_HEADER_MAGIC,
                                ),
                            ],
                            Map::<Seq<u8>, crate::package_offsets_db::PackageOffset>::empty(),
                            entry_id@,
                            old(self).staged()[name]@,
                        ))))
                    },
                }
            }),
    {
        let data = match self.read_temp_file(entry_id) {
            Ok(d) => d,
            Err(e) => {
                return Err(e);
            },
        };
        if data.len() > 0xFFFF_FFFF {
            return Err(StorageError::OutOfRange);
        }
        let key = Self::slice_key_bytes(package_type, window);
        let mut slice = match self.slices.take(key.as_slice()) {
            Some(s) => s,
            None => ArchiveSlice::with_data(window, package_type),
        };
        let ghost slice_before = slice;
        let added = slice.add_file(entry_id, data);
        let mut key2: Vec<u8> = Vec::new();
        put_bytes(&mut key2, key.as_slice());
        proof {
            assert(key2@ =~= key@);
        }
        self.slices.put(key2, slice);
        match added {
            Ok(_) => {
                proof {
                    let skey = slice_key(package_type, window);
                    let kk = offset_key_of(entry_id@);
                    assert(final(self).slices().remove(skey) =~= old(self).slices().remove(skey));
                    if old(self).slices().contains_key(skey)
                        && !slice_before.offsets().contains_key(kk) {
                        assert forall|k2: Seq<u8>|
                            k2 != kk && #[trigger] slice_before.offsets().contains_key(
                                k2,
                            ) implies self.slices@[skey].offsets().contains_key(k2) by {
                            assert(self.slices@[skey].offsets().remove(kk).contains_key(k2)
                                == slice_before.offsets().remove(kk).contains_key(k2));
                        }
                    }
                    if slice_before.offsets().contains_key(kk) {
                        assert(self.slices@[skey].offsets().remove(kk) =~= slice_before.offsets().remove(
                            kk,
                        ));
                    }
                    if !old(self).slices().contains_key(skey) {
                        assert(self.slices@[skey].offsets().remove(kk) =~= Map::<
                            Seq<u8>,
                            crate::package_offsets_db::PackageOffset,
                        >::empty());
                    }
                }
                Ok(entry_id.filename_short())
            },
            Err(e) => {
                proof {
                    assert(self.slices@.remove(slice_key(package_type, window)) =~= old(
                        self,
                    ).slices().remove(slice_key(package_type, window)));
                }
                Err(e)
            },
        }
    }

    /// The key of a slice in the file map.
    fn slice_key_bytes(package_type: PackageType, window: u32) -> (r: Vec<u8>)
        ensures
            r@ == slice_key(package_type, window),
    {
        let mut key: Vec<u8> = Vec::new();
        key.push(
            match package_type {
                PackageType::Blocks => 0u8,
                PackageType::KeyBlocks => 1u8,
                PackageType::Persistent => 2u8,
            },
        );
        put_u32_le(&mut key, window);
        proof {
            assert(key@ =~= slice_key(package_type, window));
        }
        key
    }

    /// The archive number serving a masterchain sequence number, if its
    /// window exists.
    pub fn get_archive_id(&self, mc_seq_no: u32) -> (r: Option<u64>)
        requires
            self.wf(),
        ensures
            ({
                let skey = slice_key(PackageType::Blocks, (mc_seq_no - mc_seq_no % ARCHIVE_SIZE) as u32);
                match r {
                    Some(id) => self.slices().contains_key(skey) && id
                        == self.slices()[skey].spec_archive_id(),
                    None => !self.slices().contains_key(skey),
                }
            }),
    {
        let window = mc_seq_no - mc_seq_no % ARCHIVE_SIZE;
        let key = Self::slice_key_bytes(PackageType::Blocks, window);
        match self.slices.get(key.as_slice()) {
            Some(slice) => Some(slice.get_archive_id(mc_seq_no)),
            None => None,
        }
    }

    /// A contiguous byte range of an archive window's first package, for
    /// bulk export: exactly the `limit` bytes starting `offset` bytes into
    /// the window's first package image. Fails with `KeyNotFound` exactly
    /// when no window serves the number, and with `OutOfRange` exactly when
    /// the range does not fit in the image.
    pub fn get_archive_slice(&self, archive_id: u64, offset: u64, limit: u32) -> (r: Result<
        Vec<u8>,
        StorageError,
    >)
        requires
            self.wf(),
            archive_id <= u32::MAX,
        ensures
            ({
                let mc = archive_id as u32;
                let skey = slice_key(PackageType::Blocks, (mc - mc % ARCHIVE_SIZE) as u32);
                match r {
                    Ok(v) => {
                        &&& self.slices().contains_key(skey)
                        &&& archive_id == self.slices()[skey].spec_archive_id()
                        &&& offset + limit <= self.slices()[skey].packages_seq()[0].len()
                        &&& v@ == self.slices()[skey].packages_seq()[0].subrange(
                            offset as int,
                            offset + limit,
                        )
                    },
                    Err(e) => {
                        &&& e == StorageError::KeyNotFound || e == StorageError::OutOfRange
                        &&& (e == StorageError::KeyNotFound <==> !self.slices().contains_key(skey)
                            || archive_id != self.slices()[skey].spec_archive_id())
                        &&& (e == StorageError::OutOfRange <==> self.slices().contains_key(skey)
                            && archive_id == self.slices()[skey].spec_archive_id() && offset
                            + limit > self.slices()[skey].packages_seq()[0].len())
                    },
                }
            }),
    {
        let mc_seq_no = archive_id as u32;
        let window = mc_seq_no - mc_seq_no % ARCHIVE_SIZE;
        let key = Self::slice_key_bytes(PackageType::Blocks, window);
        match self.slices.get(key.as_slice()) {
            Some(slice) => slice.get_slice(archive_id, offset, limit),
            None => Err(StorageError::KeyNotFound),
        }
    }
}

} // verus!
