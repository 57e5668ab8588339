//! Block-meta behaviour: the fixed serialization round trip, sticky flags,
//! and the handle methods built over them.

use ton_node_storage::block_handle::BlockHandle;
use ton_node_storage::block_id::{BlockIdExt, ShardIdent};
use ton_node_storage::block_meta::{
    BlockMeta, FLAG_APPLIED, FLAG_DATA, FLAG_KEY_BLOCK, FLAG_MOVED_TO_ARCHIVE, FLAG_PROOF,
    FLAG_STATE,
};
use ton_node_storage::cell_id::CellId;
use ton_node_storage::error::StorageError;

fn some_id(seq_no: u32) -> BlockIdExt {
    BlockIdExt::with_params(
        ShardIdent::with_tagged_prefix(-1, 0x8000_0000_0000_0000),
        seq_no,
        CellId::new(vec![1; 32]),
        CellId::new(vec![2; 32]),
    )
}

#[test]
fn meta_serializes_little_endian() {
    let m = BlockMeta::with_data(0x0102_0304, 5, 0x1122_3344_5566_7788, 9, true);
    let bytes = m.serialize();
    assert_eq!(bytes.len(), 22);
    assert_eq!(&bytes[0..4], &[4, 3, 2, 1]);
    assert_eq!(&bytes[4..8], &[5, 0, 0, 0]);
    assert_eq!(&bytes[8..16], &[0x88, 0x77, 0x66, 0x55, 0x44, 0x33, 0x22, 0x11]);
    assert_eq!(&bytes[16..20], &[9, 0, 0, 0]);
    assert_eq!(bytes[20], 1);
    assert_eq!(bytes[21], 0);
}

#[test]
fn meta_round_trip() {
    let m = BlockMeta::with_data(0b110101, 42, 77, 3, true);
    let bytes = m.serialize();
    let back = BlockMeta::deserialize(bytes.as_slice()).unwrap();
    assert_eq!(back.flags(), 0b110101);
    assert_eq!(back.gen_utime(), 42);
    assert_eq!(back.gen_lt(), 77);
    assert_eq!(back.masterchain_ref_seq_no(), 3);
    assert!(back.fetched());
    assert_eq!(back.serialize(), bytes);
}

#[test]
fn meta_deserialize_short_fails() {
    let err = BlockMeta::deserialize(&[0; 21]).unwrap_err();
    assert_eq!(err, StorageError::SerializationError);
}

#[test]
fn flags_are_sticky() {
    let mut m = BlockMeta::with_data(0, 0, 0, 0, false);
    assert!(!m.set_flags(FLAG_DATA));
    assert!(!m.set_flags(FLAG_PROOF));
    assert!(m.set_flags(FLAG_DATA));
    let before = m.flags();
    m.set_flags(FLAG_APPLIED);
    m.set_flags(FLAG_KEY_BLOCK);
    // No earlier bit was cleared by later operations.
    assert_eq!(m.flags() & before, before);
    assert!(m.flags_all(FLAG_DATA | FLAG_PROOF | FLAG_APPLIED | FLAG_KEY_BLOCK));
}

#[test]
fn moving_started_is_transient() {
    let mut m = BlockMeta::with_data(0, 0, 0, 0, false);
    assert!(!m.start_moving_to_archive());
    assert!(m.start_moving_to_archive());
    let back = BlockMeta::deserialize(m.serialize().as_slice()).unwrap();
    assert!(!back.moving_to_archive_started());
}

#[test]
fn handle_flag_methods() {
    let mut h = BlockHandle::new(some_id(7));
    assert!(!h.applied());
    assert!(!h.set_applied());
    assert!(h.applied());
    assert!(!h.set_data_inited());
    assert!(h.data_inited());
    assert!(!h.set_moved_to_archive());
    assert!(h.moved_to_archive());
    assert!(!h.set_state_inited());
    assert!(h.state_inited());
    assert!(h.flags_all(FLAG_DATA | FLAG_STATE | FLAG_MOVED_TO_ARCHIVE));
}

#[test]
fn gen_utime_frozen_after_state() {
    let mut h = BlockHandle::new(some_id(1));
    assert_eq!(h.gen_utime().unwrap_err(), StorageError::KeyNotFound);
    h.set_gen_utime(1234).unwrap();
    h.set_state_inited();
    assert_eq!(h.gen_utime().unwrap(), 1234);
    assert_eq!(h.set_gen_utime(99).unwrap_err(), StorageError::InvariantViolation);
    h.set_gen_utime(1234).unwrap();
}

#[test]
fn masterchain_ref_of_masterchain_block_is_own_seq_no() {
    let h = BlockHandle::new(some_id(321));
    assert_eq!(h.masterchain_ref_seq_no(), 321);
}

#[test]
fn is_key_block_needs_fetched_info() {
    let h = BlockHandle::new(some_id(1));
    assert_eq!(h.is_key_block().unwrap_err(), StorageError::KeyNotFound);
}

#[test]
fn error_messages_are_readable() {
    assert_eq!(StorageError::KeyNotFound.message(), "key not found");
    assert_eq!(StorageError::OutOfRange.message(), "read out of range");
    assert_eq!(StorageError::DbIsDropped.message(), "database is dropped");
    assert_eq!(
        StorageError::ReferenceNotLoaded.message(),
        "reference not loaded, need to load reference"
    );
}
