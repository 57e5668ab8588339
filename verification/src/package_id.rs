//! The identity of one archive package set: the window index and the kind
//! of archive it belongs to.

use vstd::prelude::*;

verus! {

/// The kind of archive a package belongs to.
#[derive(Debug, Clone, Copy, PartialEq, Eq, Structural)]
pub enum PackageType {
    /// A regular block archive window.
    Blocks,
    /// A key-block archive window.
    KeyBlocks,
    /// A persistent-state package.
    Persistent,
}

/// The identity of a package set: window index and kind.
#[derive(Debug, Clone, Copy, PartialEq, Eq, Structural)]
pub struct PackageId {
    pub id: u32,
    pub package_type: PackageType,
}

impl PackageId {
    /// The package set of a regular archive window.
    pub fn for_block(mc_seq_no: u32) -> (r: Self)
        ensures
            r.id == mc_seq_no,
            r.package_type == PackageType::Blocks,
    {
        PackageId { id: mc_seq_no, package_type: PackageType::Blocks }
    }

    /// The package set of a key-block archive window.
    pub fn for_key_block(mc_seq_no: u32) -> (r: Self)
        ensures
            r.id == mc_seq_no,
            r.package_type == PackageType::KeyBlocks,
    {
        PackageId { id: mc_seq_no, package_type: PackageType::KeyBlocks }
    }

    /// The window index.
    pub fn id(&self) -> (r: u32)
        ensures
            r == self.id,
    {
        self.id
    }

    /// The archive kind.
    pub fn package_type(&self) -> (r: PackageType)
        ensures
            r == self.package_type,
    {
        self.package_type
    }
}

} // verus!
