//! The keys under which a package's status values are stored.

use vstd::prelude::*;
use crate::db::DbKey;

verus! {

/// One status value of a package database.
#[derive(Debug, Clone, Copy, PartialEq, Eq, Structural)]
pub enum PackageStatusKey {
    /// Whether the package set is sliced.
    SlicedMode,
    /// The configured slice size.
    SliceSize,
    /// The total size of a non-sliced package.
    NonSlicedSize,
    /// How many slices exist.
    TotalSlices,
}

impl PackageStatusKey {
    /// The key's name.
    pub fn as_str(&self) -> (r: &'static str)
        ensures
            r@.len() > 0,
    {
        let r: &'static str = match self {
            PackageStatusKey::SlicedMode => "SlicedMode",
            PackageStatusKey::SliceSize => "SliceSize",
            PackageStatusKey::NonSlicedSize => "NonSlicedSize",
            PackageStatusKey::TotalSlices => "TotalSlices",
        };
        proof {
            reveal_strlit("SlicedMode");
            reveal_strlit("SliceSize");
            reveal_strlit("NonSlicedSize");
            reveal_strlit("TotalSlices");
        }
        r
    }
}

impl DbKey for PackageStatusKey {
    /// The database key is the name's bytes.
    fn key(&self) -> &[u8] {
        self.as_str().as_bytes()
    }
}

} // verus!
