//! Archive behaviour: staging, promotion with at-most-one mover, idempotent
//! slice adds, and the small key and path helpers.

use ton_node_storage::archive_manager::{get_mc_seq_no, ArchiveManager, ARCHIVE_SIZE};
use ton_node_storage::archive_slice::ArchiveSlice;
use ton_node_storage::block_id::{BlockIdExt, ShardIdent};
use ton_node_storage::block_meta::{
    BlockMeta, FLAG_DATA, FLAG_KEY_BLOCK, FLAG_MOVED_TO_ARCHIVE, FLAG_PROOF,
};
use ton_node_storage::cell_id::CellId;
use ton_node_storage::error::StorageError;
use ton_node_storage::filedb::FileDb;
use ton_node_storage::lt_db_status::LtDbStatusEntry;
use ton_node_storage::package_entry_id::PackageEntryId;
use ton_node_storage::package_id::{PackageId, PackageType};
use ton_node_storage::db::DbKey;
use ton_node_storage::package_status_key::PackageStatusKey;
use ton_node_storage::status_key::StatusKey;

fn block(seq_no: u32) -> BlockIdExt {
    BlockIdExt::with_params(
        ShardIdent::with_tagged_prefix(-1, 0x8000_0000_0000_0000),
        seq_no,
        CellId::new(vec![seq_no as u8; 32]),
        CellId::new(vec![7; 32]),
    )
}

#[test]
fn slice_add_and_get_round_trip() {
    let mut slice = ArchiveSlice::with_data(0, PackageType::Blocks);
    let id = PackageEntryId::Block(block(3));
    slice.add_file(&id, vec![10, 20, 30]).unwrap();
    let e = slice.get_file(&id).unwrap();
    assert_eq!(e.data().as_slice(), &[10, 20, 30]);
    assert_eq!(e.filename().as_slice(), id.filename_short().as_slice());
}

#[test]
fn slice_add_is_idempotent() {
    let mut slice = ArchiveSlice::with_data(0, PackageType::Blocks);
    let id = PackageEntryId::Block(block(3));
    slice.add_file(&id, vec![1]).unwrap();
    slice.add_file(&id, vec![2, 3, 4]).unwrap();
    // The first content stays.
    assert_eq!(slice.get_file(&id).unwrap().data().as_slice(), &[1]);
}

#[test]
fn slice_misses_unknown_entries() {
    let slice = ArchiveSlice::with_data(0, PackageType::Blocks);
    let id = PackageEntryId::Proof(block(1));
    assert_eq!(slice.get_file(&id).unwrap_err(), StorageError::KeyNotFound);
}

#[test]
fn archive_promotion() {
    // Stage proof and data, promote, and check: the staged files are gone,
    // the bytes read back identical, and a repeated move is a no-op.
    let blk = block(5);
    let mut meta = BlockMeta::with_data(0, 0, 0, 0, true);
    meta.set_flags(FLAG_DATA);
    meta.set_flags(FLAG_PROOF);

    let mut manager = ArchiveManager::with_data(b"/tmp/db".to_vec());
    let data_id = PackageEntryId::Block(blk.clone());
    let proof_id = PackageEntryId::Proof(blk.clone());
    manager.add_file(&data_id, vec![1, 2, 3]).unwrap();
    manager.add_file(&proof_id, vec![4, 5]).unwrap();

    manager.move_to_archive(&blk, &mut meta).unwrap();
    assert!(meta.flags_all(FLAG_MOVED_TO_ARCHIVE));
    assert!(meta.moving_to_archive_started());

    // The loose files are gone, yet the bytes are still served.
    assert!(manager.read_temp_file(&data_id).is_err());
    assert!(manager.read_temp_file(&proof_id).is_err());
    assert_eq!(
        manager.get_file(&blk, &meta, &data_id).unwrap().as_slice(),
        &[1, 2, 3]
    );
    assert_eq!(
        manager.get_file(&blk, &meta, &proof_id).unwrap().as_slice(),
        &[4, 5]
    );

    // A second mover finds the transient bit set and does nothing.
    manager.move_to_archive(&blk, &mut meta).unwrap();
    assert_eq!(
        manager.get_file(&blk, &meta, &data_id).unwrap().as_slice(),
        &[1, 2, 3]
    );
    assert!(manager.get_archive_id(get_mc_seq_no(&blk, &meta)).is_some());
}

#[test]
fn get_file_before_promotion_reads_the_staged_bytes() {
    let blk = block(8);
    let meta = BlockMeta::with_data(FLAG_DATA, 0, 0, 0, true);
    let mut manager = ArchiveManager::with_data(b"/tmp/db".to_vec());
    let data_id = PackageEntryId::Block(blk.clone());
    manager.add_file(&data_id, vec![42]).unwrap();
    assert_eq!(manager.get_file(&blk, &meta, &data_id).unwrap().as_slice(), &[42]);
}

#[test]
fn key_block_promotion_reads_back_from_key_archive() {
    // A key block's artifacts go into the key-block window, and the reader
    // follows the flag to the same window.
    let blk = block(3);
    let mut meta = BlockMeta::with_data(FLAG_DATA | FLAG_KEY_BLOCK, 0, 0, 0, true);
    let mut manager = ArchiveManager::with_data(b"/tmp/db".to_vec());
    let data_id = PackageEntryId::Block(blk.clone());
    manager.add_file(&data_id, vec![11, 22]).unwrap();
    manager.move_to_archive(&blk, &mut meta).unwrap();
    assert!(manager.read_temp_file(&data_id).is_err());
    assert_eq!(
        manager.get_file(&blk, &meta, &data_id).unwrap().as_slice(),
        &[11, 22]
    );
    // The regular-archive window for the same number stays empty.
    assert!(manager.get_archive_id(get_mc_seq_no(&blk, &meta)).is_none());
}

#[test]
fn move_without_staged_data_fails() {
    let blk = block(9);
    let mut meta = BlockMeta::with_data(FLAG_DATA, 0, 0, 0, true);
    let mut manager = ArchiveManager::with_data(b"/tmp/db".to_vec());
    let err = manager.move_to_archive(&blk, &mut meta).unwrap_err();
    assert_eq!(err, StorageError::KeyNotFound);
}

#[test]
fn archive_window_math() {
    let mut manager = ArchiveManager::with_data(b"/db".to_vec());
    assert!(manager.get_archive_id(5).is_none());
    let blk = block(ARCHIVE_SIZE + 17);
    let mut meta = BlockMeta::with_data(FLAG_DATA, 0, 0, 0, true);
    manager
        .add_file(&PackageEntryId::Block(blk.clone()), vec![9])
        .unwrap();
    manager.move_to_archive(&blk, &mut meta).unwrap();
    // The whole window shares one archive.
    assert_eq!(manager.get_archive_id(ARCHIVE_SIZE).unwrap(), ARCHIVE_SIZE as u64);
    assert_eq!(
        manager.get_archive_id(2 * ARCHIVE_SIZE - 1).unwrap(),
        ARCHIVE_SIZE as u64
    );
    assert!(manager.get_archive_id(2 * ARCHIVE_SIZE).is_none());
}

#[test]
fn entry_short_names_are_kind_and_hex() {
    let blk = block(1);
    let name = PackageEntryId::Block(blk.clone()).filename_short();
    assert_eq!(name[0], b'b');
    assert_eq!(name[1], b'_');
    assert_eq!(&name[2..4], b"01");
    assert_eq!(name.len(), 2 + 64);
    let proof_name = PackageEntryId::Proof(blk).filename_short();
    assert_eq!(proof_name[0], b'p');
    assert_ne!(name, proof_name);
}

#[test]
fn package_ids() {
    let regular = PackageId::for_block(40_000);
    assert_eq!(regular.id(), 40_000);
    assert_eq!(regular.package_type(), PackageType::Blocks);
    let key = PackageId::for_key_block(400_000);
    assert_eq!(key.package_type(), PackageType::KeyBlocks);
}

#[test]
fn file_db_paths() {
    let db = FileDb::with_path(b"/root".to_vec());
    assert_eq!(db.path().as_slice(), b"/root");
    let segments = db.make_path(&[0xAB, 0xCD, 0xEF]);
    assert_eq!(segments.len(), 2);
    assert_eq!(segments[0].as_slice(), b"abcd");
    assert_eq!(segments[1].as_slice(), b"ef");
    let short = db.make_path(&[0x01]);
    assert_eq!(short.len(), 1);
    assert_eq!(short[0].as_slice(), b"01");
}

#[test]
fn status_keys_and_entries() {
    assert_eq!(StatusKey::LtDbStatus.key(), b"LtDbStatus");
    assert_eq!(PackageStatusKey::SlicedMode.key(), b"SlicedMode");
    assert_eq!(PackageStatusKey::TotalSlices.key(), b"TotalSlices");
    let status = LtDbStatusEntry::new(7);
    assert_eq!(status.total_shards(), 7);
    let back = LtDbStatusEntry::deserialize(status.serialize().as_slice()).unwrap();
    assert_eq!(back.total_shards(), 7);
    assert!(LtDbStatusEntry::deserialize(&[1, 2]).is_err());
}

#[test]
fn slice_bulk_export() {
    let mut slice = ArchiveSlice::with_data(0, PackageType::Blocks);
    slice.add_file(&PackageEntryId::Block(block(1)), vec![1, 2]).unwrap();
    // The first four bytes of the exported range are the package magic.
    let head = slice.get_slice(0, 0, 4).unwrap();
    assert_eq!(head.as_slice(), &[0x01, 0xDD, 0x8F, 0xAE]);
    assert_eq!(
        slice.get_slice(0, 0, u32::MAX).unwrap_err(),
        StorageError::OutOfRange
    );
    assert_eq!(slice.get_slice(9, 0, 1).unwrap_err(), StorageError::KeyNotFound);
}
