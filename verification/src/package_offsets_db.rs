//! The offset index of an archive slice: a stable 8-byte key per entry
//! identifier, mapped to the slice index and byte offset that hold the
//! entry.

use vstd::prelude::*;
use crate::assoc::AssocStore;
use crate::codec::read_bytes;
use crate::db::DbKey;
use crate::hashing::sha256;
use crate::hashing::sha256_of;
use crate::package_entry_id::entry_id_encoding;
use crate::package_entry_id::PackageEntryId;

verus! {

/// The stable offset key of an entry identifier: the first 8 bytes of the
/// digest of its serialized form.
pub open spec fn offset_key_of(m: crate::package_entry_id::PackageEntryIdModel) -> Seq<u8> {
    sha256_of(entry_id_encoding(m)).subrange(0, 8)
}

/// The stable key under which an entry's offset is indexed.
#[derive(Debug)]
pub struct PackageOffsetKey {
    entry_id_hash: Vec<u8>,
}

impl View for PackageOffsetKey {
    type V = Seq<u8>;

    closed spec fn view(&self) -> Seq<u8> {
        self.entry_id_hash@
    }
}

impl PackageOffsetKey {
    /// Derives the key from an entry identifier.
    pub fn from_entry_id(entry_id: &PackageEntryId) -> (r: Self)
        ensures
            r@ == offset_key_of(entry_id@),
    {
        let encoded = entry_id.serialize();
        let digest = sha256(encoded.as_slice());
        let entry_id_hash = read_bytes(digest.as_slice(), 0, 8);
        PackageOffsetKey { entry_id_hash }
    }
}

impl DbKey for PackageOffsetKey {
    /// The raw key bytes.
    fn key(&self) -> &[u8] {
        self.entry_id_hash.as_slice()
    }
}

/// Where an entry sits: the slice index and the byte offset inside that
/// slice's package.
#[derive(Debug, Clone, Copy, PartialEq, Eq, Structural)]
pub struct PackageOffset {
    pub slice_index: u32,
    pub offset: u64,
}

/// The offset index: offset key to location.
#[derive(Debug)]
pub struct PackageOffsetsDb {
    db: AssocStore<PackageOffset>,
}

impl PackageOffsetsDb {
    /// The locations, by offset key.
    pub closed spec fn offsets(self) -> Map<Seq<u8>, PackageOffset> {
        self.db@
    }

    /// Unique keys.
    pub closed spec fn wf(self) -> bool {
        self.db.wf()
    }

    /// Constructs an empty index.
    pub fn in_memory() -> (r: Self)
        ensures
            r.wf(),
            r.offsets() == Map::<Seq<u8>, PackageOffset>::empty(),
    {
        PackageOffsetsDb { db: AssocStore::new() }
    }

    /// The location stored under a key, if any.
    pub fn try_get_value(&self, key: &PackageOffsetKey) -> (r: Option<PackageOffset>)
        requires
            self.wf(),
        ensures
            match r {
                Some(o) => self.offsets().contains_key(key@) && o == self.offsets()[key@],
                None => !self.offsets().contains_key(key@),
            },
    {
        match self.db.get(self.key_bytes(key)) {
            Some(o) => Some(*o),
            None => None,
        }
    }

    /// Stores a location under a key.
    pub fn put_value(&mut self, key: &PackageOffsetKey, offset: PackageOffset)
        requires
            old(self).wf(),
        ensures
            final(self).wf(),
            final(self).offsets() == old(self).offsets().insert(key@, offset),
    {
        let mut k: Vec<u8> = Vec::new();
        crate::codec::put_bytes(&mut k, self.key_bytes(key));
        proof {
            assert(k@ =~= key@);
        }
        self.db.put(k, offset);
    }

    /// The raw bytes of a key.
    fn key_bytes<'a>(&self, key: &'a PackageOffsetKey) -> (r: &'a [u8])
        ensures
            r@ == key@,
    {
        key.entry_id_hash.as_slice()
    }
}

} // verus!
