//! The 32-byte representation hash that identifies a cell; it doubles as the
//! database key and the cache key of the cell store.

use vstd::prelude::*;
use crate::codec::bytes_eq;
use crate::db::DbKey;
use crate::hashing::hex_bytes_of;
use crate::hashing::hex_encode;

verus! {

/// Length in bytes of a representation hash.
pub const CELL_ID_LEN: usize = 32;

/// A cell's representation hash.
#[derive(Debug)]
pub struct CellId {
    hash: Vec<u8>,
}

impl View for CellId {
    type V = Seq<u8>;

    closed spec fn view(&self) -> Seq<u8> {
        self.hash@
    }
}

impl CellId {
    /// A well-formed id holds exactly 32 bytes.
    pub open spec fn wf(self) -> bool {
        self@.len() == CELL_ID_LEN
    }

    /// Constructs an id from its hash bytes.
    pub fn new(hash: Vec<u8>) -> (r: Self)
        requires
            hash@.len() == CELL_ID_LEN,
        ensures
            r@ == hash@,
            r.wf(),
    {
        CellId { hash }
    }

    /// The hash bytes.
    pub fn as_slice(&self) -> (r: &[u8])
        ensures
            r@ == self@,
    {
        self.hash.as_slice()
    }

    /// The lower-case hexadecimal rendering of the hash.
    pub fn to_hex(&self) -> (r: Vec<u8>)
        ensures
            r@ == hex_bytes_of(self@),
    {
        hex_encode(self.hash.as_slice())
    }
}

impl Clone for CellId {
    /// Clones the id, keeping the hash bytes.
    fn clone(&self) -> (r: Self)
        ensures
            r@ == self@,
    {
        CellId { hash: self.hash.clone() }
    }
}

impl PartialEq for CellId {
    /// Two ids are equal when their hash bytes are equal.
    fn eq(&self, other: &Self) -> (r: bool) {
        bytes_eq(self.hash.as_slice(), other.hash.as_slice())
    }
}

impl vstd::std_specs::cmp::PartialEqSpecImpl for CellId {
    open spec fn obeys_eq_spec() -> bool {
        true
    }

    open spec fn eq_spec(&self, other: &Self) -> bool {
        self@ == other@
    }
}

impl DbKey for CellId {
    /// The database key of a cell is its hash.
    fn key(&self) -> &[u8] {
        self.hash.as_slice()
    }
}

} // verus!
