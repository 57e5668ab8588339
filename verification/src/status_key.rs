//! The keys of the node status database.

use vstd::prelude::*;
use crate::db::DbKey;

verus! {

/// One status record of the node.
#[derive(Debug, Clone, Copy, PartialEq, Eq, Structural)]
pub enum StatusKey {
    /// The status of the block index.
    LtDbStatus,
}

impl StatusKey {
    /// The key's name.
    pub fn as_str(&self) -> (r: &'static str)
        ensures
            r@.len() > 0,
    {
        let r: &'static str = match self {
            StatusKey::LtDbStatus => "LtDbStatus",
        };
        proof {
            reveal_strlit("LtDbStatus");
        }
        r
    }
}

impl DbKey for StatusKey {
    /// The database key is the name's bytes.
    fn key(&self) -> &[u8] {
        self.as_str().as_bytes()
    }
}

} // verus!
