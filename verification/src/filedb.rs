//! The file-backed key-value collection's path logic: where under its root
//! a given key's file sits. The surrounding binary performs the actual file
//! reads and writes at the computed paths.

use vstd::prelude::*;
use crate::hashing::hex_bytes_of;
use crate::hashing::hex_encode;

verus! {

/// Longest path chunk taken from the front of a key's rendering.
pub const PATH_CHUNK_MAX_LEN: usize = 4;

/// A file-per-key collection rooted at one directory.
#[derive(Debug)]
pub struct FileDb {
    path: Vec<u8>,
}

/// The relative path of a key's file: the first four hexadecimal digits of
/// the key as a subdirectory, then the rest as the file name; short keys
/// stay in the root.
pub open spec fn key_path_of(key: Seq<u8>) -> Seq<Seq<u8>> {
    let rendered = hex_bytes_of(key);
    if rendered.len() > PATH_CHUNK_MAX_LEN {
        seq![
            rendered.subrange(0, PATH_CHUNK_MAX_LEN as int),
            rendered.subrange(PATH_CHUNK_MAX_LEN as int, rendered.len() as int),
        ]
    } else {
        seq![rendered]
    }
}

impl FileDb {
    /// Constructs a collection rooted at the given path.
    pub fn with_path(path: Vec<u8>) -> (r: Self)
        ensures
            r.spec_path() == path@,
    {
        FileDb { path }
    }

    /// The root path.
    pub closed spec fn spec_path(self) -> Seq<u8> {
        self.path@
    }

    /// The root path.
    pub fn path(&self) -> (r: &Vec<u8>)
        ensures
            r@ == self.spec_path(),
    {
        &self.path
    }

    /// The path segments of a key's file, relative to the root.
    pub fn make_path(&self, key: &[u8]) -> (r: Vec<Vec<u8>>)
        ensures
            r@.map_values(|s: Vec<u8>| s@) == key_path_of(key@),
    {
        let rendered = hex_encode(key);
        let mut segments: Vec<Vec<u8>> = Vec::new();
        if rendered.len() > PATH_CHUNK_MAX_LEN {
            let head = crate::codec::read_bytes(rendered.as_slice(), 0, PATH_CHUNK_MAX_LEN);
            let tail = crate::codec::read_bytes(
                rendered.as_slice(),
                PATH_CHUNK_MAX_LEN,
                rendered.len() - PATH_CHUNK_MAX_LEN,
            );
            segments.push(head);
            segments.push(tail);
        } else {
            segments.push(rendered);
        }
        proof {
            assert(segments@.map_values(|s: Vec<u8>| s@) =~= key_path_of(key@));
        }
        segments
    }
}

} // verus!
