//! Storage core of a blockchain node: a content-addressed dynamic
//! bag-of-cells store with a mark-and-sweep garbage collector, an archive
//! manager over append-only package files, and a per-shard block index.
//!
//! All persistent state is modelled by in-memory key-value collections; the
//! surrounding binary performs the actual file input and output and feeds the
//! bytes through these verified components.

pub mod archive_manager;
pub mod archive_slice;
pub mod assoc;
pub mod block_handle;
pub mod block_handle_db;
pub mod block_id;
pub mod block_index_db;
pub mod block_info_db;
pub mod block_meta;
pub mod cell;
pub mod cell_db;
pub mod cell_id;
pub mod codec;
pub mod db;
pub mod dynamic_boc_db;
pub mod dynamic_boc_diff_writer;
pub mod error;
pub mod filedb;
pub mod hashing;
pub mod lt_db;
pub mod lt_db_status;
pub mod lt_desc_db;
pub mod package;
pub mod package_entry;
pub mod package_entry_id;
pub mod package_id;
pub mod package_offsets_db;
pub mod package_status_key;
pub mod shardstate_db;
pub mod status_key;
pub mod storage_cell;
