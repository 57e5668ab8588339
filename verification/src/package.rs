//! The append-only binary container of named blobs: a 4-byte magic header
//! followed by a sequence of entry frames. The container works over the
//! package's bytes; the surrounding binary keeps those bytes on disk.

use vstd::prelude::*;
use vstd::bytes::*;
use crate::error::StorageError;
use crate::package_entry::PackageEntry;
use crate::package_entry::PKG_ENTRY_HEADER_SIZE;
use crate::package_entry::entry_encoding;
use crate::package_entry::entry_frame_len;
use crate::package_entry::entry_frame_ok;
use crate::package_entry::lemma_entry_round_trip;

verus! {

/// Size in bytes of the package header.
pub const PKG_HEADER_SIZE: usize = 4;

/// Magic value opening every package file, stored little-endian.
pub const PKG_HEADER_MAGIC: u32 = 0xAE8F_DD01;

/// A package: the bytes of one append-only container file.
#[derive(Debug)]
pub struct Package {
    data: Vec<u8>,
    read_only: bool,
}

impl View for Package {
    type V = Seq<u8>;

    closed spec fn view(&self) -> Seq<u8> {
        self.data@
    }
}

/// Whether `s` opens with the package magic header.
pub open spec fn header_ok(s: Seq<u8>) -> bool {
    &&& s.len() >= PKG_HEADER_SIZE
    &&& s.subrange(0, PKG_HEADER_SIZE as int) == spec_u32_to_le_bytes(PKG_HEADER_MAGIC)
}

impl Package {
    /// A well-formed package carries the magic header.
    pub open spec fn wf(self) -> bool {
        header_ok(self@)
    }

    /// Whether the package refuses appends.
    pub closed spec fn spec_read_only(self) -> bool {
        self.read_only
    }

    /// Opens a package over the bytes of its file. An empty or truncated
    /// header is rewritten when `create` is set and refused otherwise; a
    /// present header must match the magic value.
    pub fn open(data: Vec<u8>, read_only: bool, create: bool) -> (r: Result<
        Package,
        StorageError,
    >)
        ensures
            match r {
                Ok(p) => {
                    &&& p.wf()
                    &&& p.spec_read_only() == read_only
                    &&& if data@.len() < PKG_HEADER_SIZE {
                        &&& create
                        &&& p@ == spec_u32_to_le_bytes(PKG_HEADER_MAGIC)
                    } else {
                        &&& header_ok(data@)
                        &&& p@ == data@
                    }
                },
                Err(e) => {
                    &&& if data@.len() < PKG_HEADER_SIZE {
                        &&& !create
                        &&& e == StorageError::ShortFile
                    } else {
                        &&& !header_ok(data@)
                        &&& e == StorageError::HeaderMismatch
                    }
                },
            },
    {
        if data.len() < PKG_HEADER_SIZE {
            if !create {
                return Err(StorageError::ShortFile);
            }
            let magic = u32_to_le_bytes(PKG_HEADER_MAGIC);
            proof {
                assert(magic@.subrange(0, PKG_HEADER_SIZE as int) =~= magic@);
            }
            Ok(Package { data: magic, read_only })
        } else {
            let word = crate::codec::read_u32_le(data.as_slice(), 0);
            proof {
                vstd::bytes::lemma_auto_spec_u32_to_from_le_bytes();
                assert(spec_u32_to_le_bytes(PKG_HEADER_MAGIC).len() == 4);
                assert(spec_u32_from_le_bytes(spec_u32_to_le_bytes(PKG_HEADER_MAGIC))
                    == PKG_HEADER_MAGIC);
                assert(spec_u32_to_le_bytes(spec_u32_from_le_bytes(data@.subrange(0, 4)))
                    == data@.subrange(0, 4));
            }
            if word != PKG_HEADER_MAGIC {
                return Err(StorageError::HeaderMismatch);
            }
            Ok(Package { data, read_only })
        }
    }

    /// Bytes stored past the header.
    pub fn size(&self) -> (r: usize)
        requires
            self.wf(),
        ensures
            r == self@.len() - PKG_HEADER_SIZE,
    {
        self.data.len() - PKG_HEADER_SIZE
    }

    /// The full bytes of the package file, header included.
    pub fn as_bytes(&self) -> (r: &Vec<u8>)
        ensures
            r@ == self@,
    {
        &self.data
    }

    /// Appends one entry at the end of the package. Returns the entry's
    /// offset past the header and the size of the package after the append;
    /// the size grows by exactly the 8-byte frame header plus the filename
    /// and data lengths.
    pub fn append_entry(&mut self, entry: &PackageEntry) -> (r: Result<
        (usize, usize),
        StorageError,
    >)
        requires
            old(self).wf(),
            entry.wf(),
            old(self)@.len() + PKG_ENTRY_HEADER_SIZE + entry@.filename.len() + entry@.data.len()
                <= usize::MAX,
        ensures
            match r {
                Ok((offset, new_size)) => {
                    &&& !old(self).spec_read_only()
                    &&& final(self).wf()
                    &&& final(self)@ == old(self)@ + entry_encoding(entry@)
                    &&& offset == old(self)@.len() - PKG_HEADER_SIZE
                    &&& new_size == offset + PKG_ENTRY_HEADER_SIZE + entry@.filename.len()
                        + entry@.data.len()
                    &&& new_size == final(self)@.len() - PKG_HEADER_SIZE
                },
                Err(e) => {
                    &&& old(self).spec_read_only()
                    &&& e == StorageError::InvariantViolation
                    &&& final(self)@ == old(self)@
                },
            },
            final(self).spec_read_only() == old(self).spec_read_only(),
    {
        if self.read_only {
            return Err(StorageError::InvariantViolation);
        }
        let offset = self.data.len() - PKG_HEADER_SIZE;
        entry.write_to(&mut self.data);
        let new_size = self.data.len() - PKG_HEADER_SIZE;
        proof {
            assert(final(self)@.subrange(0, PKG_HEADER_SIZE as int) =~= old(
                self,
            )@.subrange(0, PKG_HEADER_SIZE as int));
        }
        Ok((offset, new_size))
    }

    /// Reads the entry whose frame starts `offset` bytes past the header.
    /// Fails with `OutOfRange` exactly when no complete frame starts there.
    pub fn read_entry(&self, offset: usize) -> (r: Result<PackageEntry, StorageError>)
        requires
            self.wf(),
        ensures
            match r {
                Ok(e) => {
                    &&& entry_frame_ok(self@, PKG_HEADER_SIZE + offset)
                    &&& e.wf()
                    &&& e@.filename == self@.subrange(
                        PKG_HEADER_SIZE + offset + PKG_ENTRY_HEADER_SIZE,
                        PKG_HEADER_SIZE + offset + PKG_ENTRY_HEADER_SIZE + e@.filename.len(),
                    )
                    &&& {
                        let c = entry_frame_len(self@, PKG_HEADER_SIZE + offset);
                        e@.data == self@.subrange(
                            PKG_HEADER_SIZE + offset + c - e@.data.len(),
                            PKG_HEADER_SIZE + offset + c,
                        )
                    }
                    &&& e@.filename == crate::package_entry::frame_filename(
                        self@,
                        PKG_HEADER_SIZE + offset,
                    )
                    &&& e@.data == crate::package_entry::frame_data(
                        self@,
                        PKG_HEADER_SIZE + offset,
                    )
                },
                Err(e) => {
                    &&& !entry_frame_ok(self@, PKG_HEADER_SIZE + offset)
                    &&& e == StorageError::OutOfRange
                },
            },
    {
        let n = self.data.len();
        if offset > n - PKG_HEADER_SIZE {
            return Err(StorageError::OutOfRange);
        }
        match PackageEntry::read_from(self.data.as_slice(), PKG_HEADER_SIZE + offset) {
            Ok((e, _consumed)) => Ok(e),
            Err(e) => Err(e),
        }
    }

    /// Cuts the package back to `size` bytes past the header; only used by
    /// recovery after a detected dangling tail.
    pub fn truncate(&mut self, size: usize)
        requires
            old(self).wf(),
            size <= old(self)@.len() - PKG_HEADER_SIZE,
        ensures
            final(self).wf(),
            final(self)@ == old(self)@.subrange(0, PKG_HEADER_SIZE + size),
            final(self).spec_read_only() == old(self).spec_read_only(),
    {
        let n = self.data.len();
        self.data.truncate(PKG_HEADER_SIZE + size);
        proof {
            assert(final(self)@.subrange(0, PKG_HEADER_SIZE as int) =~= old(
                self,
            )@.subrange(0, PKG_HEADER_SIZE as int));
        }
    }
}

/// Round trip at package level: after an append at offset `o`, reading at
/// `o` yields the appended entry.
pub proof fn lemma_package_round_trip(before: Seq<u8>, e: PackageEntry)
    requires
        header_ok(before),
        e.wf(),
    ensures
        entry_frame_ok(before + entry_encoding(e@), before.len() as int),
        ({
            let s = before + entry_encoding(e@);
            let at = before.len() as int;
            let c = entry_frame_len(s, at);
            &&& c == entry_encoding(e@).len()
            &&& s.subrange(at + PKG_ENTRY_HEADER_SIZE, at + PKG_ENTRY_HEADER_SIZE
                + e@.filename.len()) == e@.filename
            &&& s.subrange(at + c - e@.data.len(), at + c) == e@.data
        }),
{
    lemma_entry_round_trip(e@, before);
    let s = before + entry_encoding(e@);
    let at = before.len() as int;
    let c = entry_frame_len(s, at);
    vstd::bytes::lemma_auto_spec_u16_to_from_le_bytes();
    vstd::bytes::lemma_auto_spec_u32_to_from_le_bytes();
    assert(s.subrange(at + PKG_ENTRY_HEADER_SIZE, at + PKG_ENTRY_HEADER_SIZE + e@.filename.len())
        =~= e@.filename);
    assert(s.subrange(at + c - e@.data.len(), at + c) =~= e@.data);
}

/// A forward reader over the entries of a package byte image.
#[derive(Debug)]
pub struct PackageReader {
    data: Vec<u8>,
    pos: usize,
}

impl PackageReader {
    /// The bytes being read.
    pub closed spec fn spec_data(self) -> Seq<u8> {
        self.data@
    }

    /// The current read position.
    pub closed spec fn spec_pos(self) -> int {
        self.pos as int
    }

    /// The next entry, or `None` at the end of the package. A returned
    /// entry carries exactly the filename and data of the frame at the old
    /// position.
    pub fn next(&mut self) -> (r: Option<PackageEntry>)
        ensures
            final(self).spec_data() == old(self).spec_data(),
            match r {
                Some(e) => {
                    &&& entry_frame_ok(old(self).spec_data(), old(self).spec_pos())
                    &&& e.wf()
                    &&& e@.filename == crate::package_entry::frame_filename(
                        old(self).spec_data(),
                        old(self).spec_pos(),
                    )
                    &&& e@.data == crate::package_entry::frame_data(
                        old(self).spec_data(),
                        old(self).spec_pos(),
                    )
                    &&& final(self).spec_pos() == old(self).spec_pos() + entry_frame_len(
                        old(self).spec_data(),
                        old(self).spec_pos(),
                    )
                },
                None => {
                    &&& !entry_frame_ok(old(self).spec_data(), old(self).spec_pos())
                    &&& final(self).spec_pos() == old(self).spec_pos()
                },
            },
    {
        let n = self.data.len();
        match PackageEntry::read_from(self.data.as_slice(), self.pos) {
            Ok((e, consumed)) => {
                proof {
                    assert(self.pos + consumed <= n);
                }
                self.pos = self.pos + consumed;
                Some(e)
            },
            Err(_) => None,
        }
    }
}

/// Starts reading a package byte image from its first entry; the magic
/// header is validated first.
pub fn read_package_from(data: Vec<u8>) -> (r: Result<PackageReader, StorageError>)
    ensures
        match r {
            Ok(reader) => {
                &&& header_ok(data@)
                &&& reader.spec_data() == data@
                &&& reader.spec_pos() == PKG_HEADER_SIZE
            },
            Err(e) => {
                &&& !header_ok(data@)
                &&& (e == StorageError::ShortFile || e == StorageError::HeaderMismatch)
            },
        },
{
    if data.len() < PKG_HEADER_SIZE {
        return Err(StorageError::ShortFile);
    }
    let word = crate::codec::read_u32_le(data.as_slice(), 0);
    proof {
        vstd::bytes::lemma_auto_spec_u32_to_from_le_bytes();
        assert(spec_u32_to_le_bytes(PKG_HEADER_MAGIC).len() == 4);
        assert(spec_u32_from_le_bytes(spec_u32_to_le_bytes(PKG_HEADER_MAGIC)) == PKG_HEADER_MAGIC);
        assert(spec_u32_to_le_bytes(spec_u32_from_le_bytes(data@.subrange(0, 4)))
            == data@.subrange(0, 4));
    }
    if word != PKG_HEADER_MAGIC {
        return Err(StorageError::HeaderMismatch);
    }
    Ok(PackageReader { data, pos: PKG_HEADER_SIZE })
}

} // verus!
