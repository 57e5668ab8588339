//! Cell DAG behaviour: content addressing, duplicate suppression on save,
//! lazy reference materialization, and the cell record round trip.

use sha2::Digest;
use ton_node_storage::cell::Cell;
use ton_node_storage::cell_id::CellId;
use ton_node_storage::dynamic_boc_db::DynamicBocDb;
use ton_node_storage::error::StorageError;
use ton_node_storage::storage_cell::{references_hashes_equal, Reference, StorageCell};

fn leaf(tag: u8) -> Cell {
    Cell::with_params(0, 0, vec![tag, tag, tag], Vec::new())
}

fn node(tag: u8, children: Vec<Cell>) -> Cell {
    Cell::with_params(0, 0, vec![tag], children)
}

#[test]
fn repr_hash_is_sha256_of_record() {
    let c = leaf(5);
    // The record of this cell: type, level mask, 2-byte length, data, and a
    // zero child count.
    let record: Vec<u8> = vec![0, 0, 3, 0, 5, 5, 5, 0];
    let expected = sha2::Sha256::digest(record.as_slice());
    assert_eq!(c.repr_hash().as_slice(), expected.as_slice());
}

#[test]
fn equal_content_means_equal_hash() {
    assert_eq!(leaf(9).repr_hash().as_slice(), leaf(9).repr_hash().as_slice());
    assert_ne!(leaf(9).repr_hash().as_slice(), leaf(8).repr_hash().as_slice());
}

#[test]
fn diamond_saves_four_cells_then_zero() {
    // Diamond: root with children c1 and c2, each referencing the leaf l.
    let c1 = node(1, vec![leaf(7)]);
    let c2 = node(2, vec![leaf(7)]);
    let root = node(0, vec![c1, c2]);
    let mut boc = DynamicBocDb::in_memory();
    let written = boc.save_as_dynamic_boc(&root);
    assert_eq!(written, 4);
    assert_eq!(boc.stored_count(), 4);
    let again = boc.save_as_dynamic_boc(&root);
    assert_eq!(again, 0);
    assert_eq!(boc.stored_count(), 4);
}

#[test]
fn saved_tree_loads_back() {
    let child = leaf(3);
    let root = node(1, vec![child]);
    let root_id = root.repr_hash().clone();
    let mut boc = DynamicBocDb::in_memory();
    boc.save_as_dynamic_boc(&root);
    let loaded = boc.load_dynamic_boc(&root_id).unwrap();
    assert_eq!(loaded.data().as_slice(), &[1]);
    assert_eq!(loaded.references_count(), 1);
    assert_eq!(
        loaded.reference_hash(0).as_slice(),
        leaf(3).repr_hash().as_slice()
    );
}

#[test]
fn lazy_reference_materialization() {
    let root = node(1, vec![leaf(4)]);
    let root_id = root.repr_hash().clone();
    let child_id = leaf(4).repr_hash().clone();
    let mut boc = DynamicBocDb::in_memory();
    boc.save_as_dynamic_boc(&root);

    // Nothing is live in memory after the save.
    assert!(!boc.cache_contains(&root_id));

    let loaded = boc.load_cell(&root_id).unwrap();
    assert!(!loaded.reference_loaded(0));
    assert!(!boc.cache_contains(&child_id));

    // First access faults the child in from the store.
    let first = boc.load_reference(&root_id, 0).unwrap();
    assert_eq!(first.data().as_slice(), &[4, 4, 4]);
    assert!(boc.cache_contains(&child_id));
    let reloaded = boc.load_cell(&root_id).unwrap();
    assert!(reloaded.reference_loaded(0));

    // A second access returns the one in-memory instance.
    let second = boc.load_reference(&root_id, 0).unwrap();
    assert_eq!(second.data().as_slice(), first.data().as_slice());
    assert_eq!(second.repr_hash().as_slice(), first.repr_hash().as_slice());
}

#[test]
fn eviction_forgets_the_live_cell() {
    let root = leaf(6);
    let root_id = root.repr_hash().clone();
    let mut boc = DynamicBocDb::in_memory();
    boc.save_as_dynamic_boc(&root);
    boc.load_cell(&root_id).unwrap();
    assert!(boc.cache_contains(&root_id));
    boc.evict(&root_id);
    assert!(!boc.cache_contains(&root_id));
    // The record itself is untouched.
    assert!(boc.contains(&root_id));
}

#[test]
fn missing_cell_is_key_not_found() {
    let mut boc = DynamicBocDb::in_memory();
    let err = boc.load_cell(&CellId::new(vec![0; 32])).unwrap_err();
    assert_eq!(err, StorageError::KeyNotFound);
}

#[test]
fn storage_cell_record_round_trip() {
    let cell = node(9, vec![leaf(1), leaf(2)]);
    let staged = StorageCell::from_single_cell(&cell, 0);
    let record = staged.serialize();
    let back = StorageCell::deserialize(record.as_slice()).unwrap();
    assert_eq!(back.data().as_slice(), &[9]);
    assert_eq!(back.references_count(), 2);
    assert_eq!(back.reference_hash(0).as_slice(), leaf(1).repr_hash().as_slice());
    assert_eq!(back.reference_hash(1).as_slice(), leaf(2).repr_hash().as_slice());
    assert_eq!(back.serialize(), record);
    assert!(!back.reference_loaded(0));
    assert_eq!(back.gc_gen(), 0);
}

#[test]
fn storage_cell_deserialize_rejects_garbage() {
    assert_eq!(
        StorageCell::deserialize(&[1, 2]).unwrap_err(),
        StorageError::SerializationError
    );
    // A header announcing more data than present.
    assert_eq!(
        StorageCell::deserialize(&[0, 0, 9, 0, 1]).unwrap_err(),
        StorageError::SerializationError
    );
}

#[test]
fn reference_hash_lists() {
    let a = Reference::NeedToLoad(CellId::new(vec![1; 32]));
    let b = Reference::Loaded(CellId::new(vec![1; 32]));
    let c = Reference::NeedToLoad(CellId::new(vec![2; 32]));
    let left = vec![a.clone(), c.clone()];
    let right = vec![b, c, a.clone()];
    assert!(references_hashes_equal(&left, &right));
    let right2 = vec![Reference::NeedToLoad(CellId::new(vec![3; 32]))];
    assert!(!references_hashes_equal(&vec![a], &right2));
}

#[test]
fn cell_id_hex_rendering() {
    let mut bytes = vec![0u8; 32];
    bytes[0] = 0xAE;
    bytes[31] = 0x01;
    let id = CellId::new(bytes);
    let hex = id.to_hex();
    assert_eq!(&hex[0..2], b"ae");
    assert_eq!(&hex[62..64], b"01");
    assert_eq!(hex.len(), 64);
}
