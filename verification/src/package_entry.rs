//! One named blob inside a package file, together with its on-disk framing:
//! a 2-byte little-endian filename length, a 4-byte little-endian data
//! length, 2 reserved bytes, then the filename bytes and the data bytes.

use vstd::prelude::*;
use vstd::bytes::*;
use crate::codec::put_bytes;
use crate::codec::put_u16_le;
use crate::codec::put_u32_le;
use crate::codec::read_bytes;
use crate::codec::read_u16_le;
use crate::codec::read_u32_le;
use crate::error::StorageError;

verus! {

/// Size in bytes of the per-entry header.
pub const PKG_ENTRY_HEADER_SIZE: usize = 8;

/// The mathematical content of a package entry.
pub struct PackageEntryModel {
    pub filename: Seq<u8>,
    pub data: Seq<u8>,
}

/// A named blob held by a package. The filename is kept as UTF-8 bytes.
#[derive(Debug)]
pub struct PackageEntry {
    filename: Vec<u8>,
    data: Vec<u8>,
}

impl View for PackageEntry {
    type V = PackageEntryModel;

    closed spec fn view(&self) -> PackageEntryModel {
        PackageEntryModel { filename: self.filename@, data: self.data@ }
    }
}

/// The framing of an entry with the given content.
pub open spec fn entry_encoding(m: PackageEntryModel) -> Seq<u8> {
    spec_u16_to_le_bytes(m.filename.len() as u16) + spec_u32_to_le_bytes(m.data.len() as u32)
        + seq![0u8, 0u8] + m.filename + m.data
}

/// Whether `s` holds a complete entry frame starting at `at`.
pub open spec fn entry_frame_ok(s: Seq<u8>, at: int) -> bool {
    &&& 0 <= at
    &&& at + PKG_ENTRY_HEADER_SIZE <= s.len()
    &&& at + entry_frame_len(s, at) <= s.len()
}

/// Total length of the entry frame whose header starts at `at`.
pub open spec fn entry_frame_len(s: Seq<u8>, at: int) -> int {
    PKG_ENTRY_HEADER_SIZE + spec_u16_from_le_bytes(s.subrange(at, at + 2))
        + spec_u32_from_le_bytes(s.subrange(at + 2, at + 6))
}

impl PackageEntry {
    /// An entry is well formed when both lengths fit their header fields.
    pub open spec fn wf(self) -> bool {
        &&& self@.filename.len() <= u16::MAX
        &&& self@.data.len() <= u32::MAX
    }

    /// Constructs an entry from a filename and its payload.
    pub fn with_data(filename: Vec<u8>, data: Vec<u8>) -> (r: Self)
        requires
            filename@.len() <= u16::MAX,
            data@.len() <= u32::MAX,
        ensures
            r@.filename == filename@,
            r@.data == data@,
            r.wf(),
    {
        PackageEntry { filename, data }
    }

    /// The filename bytes.
    pub fn filename(&self) -> (r: &Vec<u8>)
        ensures
            r@ == self@.filename,
    {
        &self.filename
    }

    /// The payload bytes.
    pub fn data(&self) -> (r: &Vec<u8>)
        ensures
            r@ == self@.data,
    {
        &self.data
    }

    /// Consumes the entry, returning its payload.
    pub fn take_data(self) -> (r: Vec<u8>)
        ensures
            r@ == self@.data,
    {
        self.data
    }

    /// Appends the entry frame to `out`.
    pub fn write_to(&self, out: &mut Vec<u8>)
        requires
            self.wf(),
        ensures
            final(out)@ == old(out)@ + entry_encoding(self@),
            final(out)@.len() == old(out)@.len() + PKG_ENTRY_HEADER_SIZE + self@.filename.len()
                + self@.data.len(),
    {
        put_u16_le(out, self.filename.len() as u16);
        put_u32_le(out, self.data.len() as u32);
        out.push(0u8);
        out.push(0u8);
        put_bytes(out, self.filename.as_slice());
        put_bytes(out, self.data.as_slice());
        proof {
            vstd::bytes::lemma_auto_spec_u16_to_from_le_bytes();
            vstd::bytes::lemma_auto_spec_u32_to_from_le_bytes();
            assert(out@ =~= old(out)@ + entry_encoding(self@));
        }
    }

    /// Reads one entry frame starting at `at`. Returns the entry and the
    /// number of bytes its frame occupies; fails with `OutOfRange` exactly
    /// when the frame is not complete within `src`.
    pub fn read_from(src: &[u8], at: usize) -> (r: Result<(Self, usize), StorageError>)
        ensures
            match r {
                Ok((e, c)) => {
                    &&& entry_frame_ok(src@, at as int)
                    &&& c == entry_frame_len(src@, at as int)
                    &&& e@.filename == src@.subrange(
                        at + PKG_ENTRY_HEADER_SIZE,
                        at + PKG_ENTRY_HEADER_SIZE + e@.filename.len(),
                    )
                    &&& e@.data == src@.subrange(at + c - e@.data.len(), at + c as int)
                    &&& e@.filename == frame_filename(src@, at as int)
                    &&& e@.data == frame_data(src@, at as int)
                    &&& e.wf()
                },
                Err(err) => {
                    &&& !entry_frame_ok(src@, at as int)
                    &&& err == StorageError::OutOfRange
                },
            },
    {
        let n = src.len();
        if at > n || n - at < PKG_ENTRY_HEADER_SIZE {
            return Err(StorageError::OutOfRange);
        }
        let filename_len = read_u16_le(src, at) as usize;
        let data_len = read_u32_le(src, at + 2) as usize;
        if n - at - PKG_ENTRY_HEADER_SIZE < filename_len || n - at - PKG_ENTRY_HEADER_SIZE
            - filename_len < data_len {
            return Err(StorageError::OutOfRange);
        }
        let filename = read_bytes(src, at + PKG_ENTRY_HEADER_SIZE, filename_len);
        let data = read_bytes(src, at + PKG_ENTRY_HEADER_SIZE + filename_len, data_len);
        let consumed = PKG_ENTRY_HEADER_SIZE + filename_len + data_len;
        let e = PackageEntry { filename, data };
        proof {
            assert(e@.filename =~= frame_filename(src@, at as int));
            assert(e@.data =~= frame_data(src@, at as int));
        }
        Ok((e, consumed))
    }
}

/// The filename bytes of the frame at `at`.
pub open spec fn frame_filename(s: Seq<u8>, at: int) -> Seq<u8> {
    s.subrange(
        at + PKG_ENTRY_HEADER_SIZE,
        at + PKG_ENTRY_HEADER_SIZE + spec_u16_from_le_bytes(s.subrange(at, at + 2)),
    )
}

/// The data bytes of the frame at `at`.
pub open spec fn frame_data(s: Seq<u8>, at: int) -> Seq<u8> {
    s.subrange(
        at + PKG_ENTRY_HEADER_SIZE + spec_u16_from_le_bytes(s.subrange(at, at + 2)),
        at + entry_frame_len(s, at),
    )
}

/// Appending bytes after a complete frame leaves the frame intact.
pub proof fn lemma_frame_extend(s: Seq<u8>, t: Seq<u8>, at: int)
    requires
        entry_frame_ok(s, at),
    ensures
        entry_frame_ok(s + t, at),
        entry_frame_len(s + t, at) == entry_frame_len(s, at),
        frame_filename(s + t, at) == frame_filename(s, at),
        frame_data(s + t, at) == frame_data(s, at),
{
    let u = s + t;
    assert(u.subrange(at, at + 2) =~= s.subrange(at, at + 2));
    assert(u.subrange(at + 2, at + 6) =~= s.subrange(at + 2, at + 6));
    assert(frame_filename(u, at) =~= frame_filename(s, at));
    assert(frame_data(u, at) =~= frame_data(s, at));
}

/// Round trip: an entry written at the end of a buffer reads back unchanged.
pub proof fn lemma_entry_round_trip(m: PackageEntryModel, prefix: Seq<u8>)
    requires
        m.filename.len() <= u16::MAX,
        m.data.len() <= u32::MAX,
    ensures
        entry_frame_ok(prefix + entry_encoding(m), prefix.len() as int),
        entry_frame_len(prefix + entry_encoding(m), prefix.len() as int) == entry_encoding(
            m,
        ).len(),
        (prefix + entry_encoding(m)).subrange(
            prefix.len() as int,
            prefix.len() + entry_encoding(m).len() as int,
        ) == entry_encoding(m),
        frame_filename(prefix + entry_encoding(m), prefix.len() as int) == m.filename,
        frame_data(prefix + entry_encoding(m), prefix.len() as int) == m.data,
{
    let s = prefix + entry_encoding(m);
    let at = prefix.len() as int;
    vstd::bytes::lemma_auto_spec_u16_to_from_le_bytes();
    vstd::bytes::lemma_auto_spec_u32_to_from_le_bytes();
    assert(s.subrange(at, at + 2) =~= spec_u16_to_le_bytes(m.filename.len() as u16));
    assert(s.subrange(at + 2, at + 6) =~= spec_u32_to_le_bytes(m.data.len() as u32));
    assert(s.subrange(at, at + entry_encoding(m).len()) =~= entry_encoding(m));
    assert(frame_filename(s, at) =~= m.filename);
    assert(frame_data(s, at) =~= m.data);
}

} // verus!
