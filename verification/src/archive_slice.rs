//! One archive window: its packages and the offset index over them. Every
//! entry ever added is indexed exactly once, at a location where its bytes
//! really sit; adding the same entry again is a no-op.

use vstd::prelude::*;
use crate::error::StorageError;
use crate::package::Package;
use crate::package::PKG_HEADER_SIZE;
use crate::package_entry::entry_frame_ok;
use crate::package_entry::frame_data;
use crate::package_entry::frame_filename;
use crate::package_entry::lemma_entry_round_trip;
use crate::package_entry::lemma_frame_extend;
use crate::package_entry::PackageEntry;
use crate::package_entry::PKG_ENTRY_HEADER_SIZE;
use crate::package_entry_id::filename_short_of;
use crate::package_entry_id::PackageEntryId;
use crate::package_id::PackageType;
use crate::package_offsets_db::offset_key_of;
use crate::package_offsets_db::PackageOffset;
use crate::package_offsets_db::PackageOffsetKey;
use crate::package_offsets_db::PackageOffsetsDb;

verus! {

/// Bytes a slice package may reach before the slice rolls over to a new
/// package.
pub const PACKAGE_SIZE_BUDGET: usize = 0x100000;

/// Whether adding this entry to a window with the given packages and index
/// is refused: the entry is not yet indexed, and its name is too long, the
/// window already holds the greatest representable number of packages, or
/// the frame cannot fit in the destination package's address space.
pub open spec fn add_blocked(
    pkgs: Seq<Seq<u8>>,
    offsets: Map<Seq<u8>, PackageOffset>,
    eid: crate::package_entry_id::PackageEntryIdModel,
    data: Seq<u8>,
) -> bool {
    &&& !offsets.contains_key(offset_key_of(eid))
    &&& ({
        let name = filename_short_of(eid);
        let tail_len = if pkgs.last().len() - PKG_HEADER_SIZE > PACKAGE_SIZE_BUDGET {
            PKG_HEADER_SIZE as int
        } else {
            pkgs.last().len() as int
        };
        ||| name.len() > 65535
        ||| pkgs.len() >= 0xFFFF_FFFF
        ||| tail_len + PKG_ENTRY_HEADER_SIZE + name.len() + data.len() > usize::MAX
    })
}

/// One archive window: up to a hundred packages and the entry index.
#[derive(Debug)]
pub struct ArchiveSlice {
    archive_id: u32,
    package_type: PackageType,
    packages: Vec<Package>,
    index: PackageOffsetsDb,
}

impl ArchiveSlice {
    /// The window index.
    pub closed spec fn spec_archive_id(self) -> u32 {
        self.archive_id
    }

    /// The archive kind.
    pub closed spec fn spec_package_type(self) -> PackageType {
        self.package_type
    }

    /// The byte images of the packages, in slice order.
    pub closed spec fn packages_seq(self) -> Seq<Seq<u8>> {
        self.packages@.map_values(|p: Package| p@)
    }

    /// The entry locations, by offset key.
    pub closed spec fn offsets(self) -> Map<Seq<u8>, PackageOffset> {
        self.index.offsets()
    }

    /// The data bytes of the entry indexed under `k`.
    pub open spec fn file_data(self, k: Seq<u8>) -> Seq<u8> {
        frame_data(
            self.packages_seq()[self.offsets()[k].slice_index as int],
            PKG_HEADER_SIZE + self.offsets()[k].offset,
        )
    }

    /// The filename bytes of the entry indexed under `k`.
    pub open spec fn file_name(self, k: Seq<u8>) -> Seq<u8> {
        frame_filename(
            self.packages_seq()[self.offsets()[k].slice_index as int],
            PKG_HEADER_SIZE + self.offsets()[k].offset,
        )
    }

    /// At least one package, all carrying the magic header, and every
    /// indexed location holds a complete entry frame.
    pub closed spec fn wf(self) -> bool {
        &&& self.index.wf()
        &&& self.packages@.len() >= 1
        &&& forall|i: int| 0 <= i < self.packages@.len() ==> (#[trigger] self.packages@[i]).wf()
            && !self.packages@[i].spec_read_only()
        &&& forall|k: Seq<u8>| #[trigger]
            self.offsets().contains_key(k) ==> {
                let o = self.offsets()[k];
                &&& o.slice_index < self.packages@.len()
                &&& o.offset <= usize::MAX
                &&& entry_frame_ok(self.packages@[o.slice_index as int]@, PKG_HEADER_SIZE
                    + o.offset)
            }
    }

    /// Constructs an empty window with one fresh package.
    pub fn with_data(archive_id: u32, package_type: PackageType) -> (r: Self)
        ensures
            r.wf(),
            r.spec_archive_id() == archive_id,
            r.spec_package_type() == package_type,
            r.offsets() == Map::<Seq<u8>, PackageOffset>::empty(),
            r.packages_seq() == seq![
                vstd::bytes::spec_u32_to_le_bytes(crate::package::PKG_HEADER_MAGIC),
            ],
    {
        let first = match Package::open(Vec::new(), false, true) {
            Ok(p) => p,
            Err(_) => {
                proof {
                    assert(false);
                }
                vstd::pervasive::unreached()
            },
        };
        let mut packages: Vec<Package> = Vec::new();
        packages.push(first);
        let r = ArchiveSlice {
            archive_id,
            package_type,
            packages,
            index: PackageOffsetsDb::in_memory(),
        };
        proof {
            assert(r.packages_seq() =~= seq![
                vstd::bytes::spec_u32_to_le_bytes(crate::package::PKG_HEADER_MAGIC),
            ]);
        }
        r
    }

    /// The window index, widened for callers that track archives by number.
    pub fn get_archive_id(&self, _mc_seq_no: u32) -> (r: u64)
        ensures
            r == self.spec_archive_id(),
    {
        self.archive_id as u64
    }

    /// Adds one entry: computes its stable offset key, returns at once if
    /// the key is already indexed, otherwise appends the entry to the tail
    /// package — rolling over to a fresh package when the tail is past its
    /// budget — and indexes the location. After a successful add the
    /// indexed location holds exactly the given data under the entry's
    /// short name, and every other indexed entry is untouched.
    pub fn add_file(&mut self, entry_id: &PackageEntryId, data: Vec<u8>) -> (r: Result<
        (),
        StorageError,
    >)
        requires
            old(self).wf(),
            data@.len() <= u32::MAX,
        ensures
            final(self).wf(),
            final(self).spec_archive_id() == old(self).spec_archive_id(),
            final(self).spec_package_type() == old(self).spec_package_type(),
            ({
                let k = offset_key_of(entry_id@);
                match r {
                    Ok(_) => {
                        &&& !add_blocked(
                            old(self).packages_seq(),
                            old(self).offsets(),
                            entry_id@,
                            data@,
                        )
                        &&& final(self).offsets().contains_key(k)
                        &&& if old(self).offsets().contains_key(k) {
                            final(self).offsets() == old(self).offsets() && final(self).packages_seq()
                                == old(self).packages_seq()
                        } else {
                            &&& final(self).offsets().remove(k) == old(self).offsets().remove(k)
                            &&& final(self).file_data(k) == data@
                            &&& final(self).file_name(k) == filename_short_of(entry_id@)
                            &&& forall|k2: Seq<u8>|
                                k2 != k && #[trigger] old(self).offsets().contains_key(k2)
                                    ==> final(self).file_data(k2) == old(self).file_data(k2)
                                    && final(self).file_name(k2) == old(self).file_name(k2)
                        }
                    },
                    Err(e) => {
                        &&& e == StorageError::OutOfRange
                        &&& add_blocked(
                            old(self).packages_seq(),
                            old(self).offsets(),
                            entry_id@,
                            data@,
                        )
                        &&& final(self).offsets() == old(self).offsets()
                    },
                }
            }),
    {
        let key = PackageOffsetKey::from_entry_id(entry_id);
        match self.index.try_get_value(&key) {
            Some(_) => {
                return Ok(());
            },
            None => (),
        }
        let filename = entry_id.filename_short();
        let tail = self.packages.len() - 1;
        let tail_size = match self.packages.last() {
            Some(p) => p.size(),
            None => {
                proof {
                    assert(false);
                }
                vstd::pervasive::unreached()
            },
        };
        if filename.len() > 65535 {
            return Err(StorageError::OutOfRange);
        }
        if tail >= 0xFFFF_FFFE {
            return Err(StorageError::OutOfRange);
        }
        let mut slice_index = tail;
        if tail_size > PACKAGE_SIZE_BUDGET {
            let fresh = match Package::open(Vec::new(), false, true) {
                Ok(p) => p,
                Err(_) => {
                    proof {
                        assert(false);
                    }
                    vstd::pervasive::unreached()
                },
            };
            self.packages.push(fresh);
            slice_index = tail + 1;
        }
        let mut pkg = match self.packages.pop() {
            Some(p) => p,
            None => {
                proof {
                    assert(false);
                }
                vstd::pervasive::unreached()
            },
        };
        let pkg_len = pkg.as_bytes().len();
        if usize::MAX - pkg_len < PKG_ENTRY_HEADER_SIZE || usize::MAX - pkg_len
            - PKG_ENTRY_HEADER_SIZE < filename.len() || usize::MAX - pkg_len
            - PKG_ENTRY_HEADER_SIZE - filename.len() < data.len() {
            self.packages.push(pkg);
            proof {
                assert forall|k2: Seq<u8>| #[trigger] self.offsets().contains_key(k2) implies {
                    let o = self.offsets()[k2];
                    &&& o.slice_index < self.packages@.len()
                    &&& o.offset <= usize::MAX
                    &&& entry_frame_ok(self.packages@[o.slice_index as int]@, PKG_HEADER_SIZE
                        + o.offset)
                } by {
                    assert(old(self).offsets().contains_key(k2));
                }
            }
            return Err(StorageError::OutOfRange);
        }
        let entry = PackageEntry::with_data(filename, data);
        let ghost pkg_before = pkg@;
        let (offset, _new_size) = match pkg.append_entry(&entry) {
            Ok(v) => v,
            Err(_) => {
                proof {
                    assert(false);
                }
                vstd::pervasive::unreached()
            },
        };
        proof {
            lemma_entry_round_trip(entry@, pkg_before);
        }
        self.packages.push(pkg);
        self.index.put_value(
            &key,
            PackageOffset { slice_index: slice_index as u32, offset: offset as u64 },
        );
        proof {
            let k = offset_key_of(entry_id@);
            assert(self.packages@.len() == old(self).packages@.len() || self.packages@.len() == old(
                self,
            ).packages@.len() + 1);
            assert(self.packages_seq()[slice_index as int] == pkg_before + crate::package_entry::entry_encoding(
                entry@,
            ));
            assert forall|i: int|
                0 <= i < self.packages@.len() && i != slice_index implies self.packages@[i]
                == old(self).packages@[i] by {}
            assert(self.offsets().remove(k) =~= old(self).offsets().remove(k));
            assert forall|k2: Seq<u8>| #[trigger] self.offsets().contains_key(k2) implies {
                let o = self.offsets()[k2];
                &&& o.slice_index < self.packages@.len()
                &&& entry_frame_ok(self.packages@[o.slice_index as int]@, PKG_HEADER_SIZE
                    + o.offset)
            } by {
                if k2 != k {
                    assert(old(self).offsets().contains_key(k2));
                    let o = old(self).offsets()[k2];
                    if o.slice_index == slice_index {
                        lemma_frame_extend(
                            pkg_before,
                            crate::package_entry::entry_encoding(entry@),
                            PKG_HEADER_SIZE + o.offset,
                        );
                    }
                }
            }
            assert forall|k2: Seq<u8>|
                k2 != k && #[trigger] old(self).offsets().contains_key(k2) implies self.file_data(
                k2,
            ) == old(self).file_data(k2) && self.file_name(k2) == old(self).file_name(k2) by {
                let o = old(self).offsets()[k2];
                if o.slice_index == slice_index {
                    lemma_frame_extend(
                        pkg_before,
                        crate::package_entry::entry_encoding(entry@),
                        PKG_HEADER_SIZE + o.offset,
                    );
                }
            }
        }
        Ok(())
    }

    /// Reads one entry back by its identifier; fails with `KeyNotFound`
    /// exactly when the identifier was never added.
    pub fn get_file(&self, entry_id: &PackageEntryId) -> (r: Result<PackageEntry, StorageError>)
        requires
            self.wf(),
        ensures
            ({
                let k = offset_key_of(entry_id@);
                match r {
                    Ok(e) => {
                        &&& self.offsets().contains_key(k)
                        &&& e@.data == self.file_data(k)
                        &&& e@.filename == self.file_name(k)
                    },
                    Err(err) => {
                        &&& !self.offsets().contains_key(k)
                        &&& err == StorageError::KeyNotFound
                    },
                }
            }),
    {
        let key = PackageOffsetKey::from_entry_id(entry_id);
        let location = match self.index.try_get_value(&key) {
            Some(o) => o,
            None => {
                return Err(StorageError::KeyNotFound);
            },
        };
        proof {
            assert(self.offsets().contains_key(key@));
            assert(self.packages@[location.slice_index as int].wf());
        }
        let pkg = &self.packages[location.slice_index as usize];
        match pkg.read_entry(location.offset as usize) {
            Ok(e) => Ok(e),
            Err(_) => {
                proof {
                    assert(false);
                }
                vstd::pervasive::unreached()
            },
        }
    }

    /// A contiguous byte range of the window's first package image, for
    /// bulk export; fails with `KeyNotFound` exactly on a number mismatch
    /// and with `OutOfRange` exactly when the range does not fit.
    pub fn get_slice(&self, archive_id: u64, offset: u64, limit: u32) -> (r: Result<
        Vec<u8>,
        StorageError,
    >)
        requires
            self.wf(),
        ensures
            match r {
                Ok(v) => {
                    &&& archive_id == self.spec_archive_id()
                    &&& offset + limit <= self.packages_seq()[0].len()
                    &&& v@ == self.packages_seq()[0].subrange(
                        offset as int,
                        offset + limit,
                    )
                },
                Err(e) => {
                    &&& e == StorageError::OutOfRange || e == StorageError::KeyNotFound
                    &&& (e == StorageError::KeyNotFound <==> archive_id
                        != self.spec_archive_id())
                    &&& (e == StorageError::OutOfRange <==> archive_id
                        == self.spec_archive_id() && offset + limit
                        > self.packages_seq()[0].len())
                },
            },
    {
        if archive_id != self.archive_id as u64 {
            return Err(StorageError::KeyNotFound);
        }
        let image = self.packages[0].as_bytes();
        let n = image.len();
        if offset > n as u64 || (n as u64) - offset < limit as u64 {
            return Err(StorageError::OutOfRange);
        }
        Ok(crate::codec::read_bytes(image.as_slice(), offset as usize, limit as usize))
    }
}

} // verus!
