//! Garbage collection behaviour: expired states are swept, shared subtrees
//! and live roots survive, and the state store round-trips its entries.

use sha2::Digest;
use ton_node_storage::block_id::{BlockId, BlockIdExt, ShardIdent};
use ton_node_storage::block_info_db::BlockInfoDb;
use ton_node_storage::block_meta::BlockMeta;
use ton_node_storage::cell::Cell;
use ton_node_storage::cell_id::CellId;
use ton_node_storage::shardstate_db::{
    AllowStateGcResolverImpl, DbEntry, ShardStateDb, DEFAULT_SHARD_STATE_TTL, GC,
};

fn leaf(tag: u8) -> Cell {
    Cell::with_params(0, 0, vec![tag, tag], Vec::new())
}

fn node(tag: u8, children: Vec<Cell>) -> Cell {
    Cell::with_params(0, 0, vec![tag], children)
}

fn block(seq_no: u32) -> BlockIdExt {
    BlockIdExt::with_params(
        ShardIdent::with_tagged_prefix(-1, 0x8000_0000_0000_0000),
        seq_no,
        CellId::new(vec![seq_no as u8; 32]),
        CellId::new(vec![0x55; 32]),
    )
}

#[test]
fn resolver_honours_ttl() {
    let mut metadb = BlockInfoDb::in_memory();
    let id = BlockId::from_ext(block(1));
    metadb.put_block_meta(&id, &BlockMeta::with_data(0, 100, 0, 0, false));
    let mut resolver = AllowStateGcResolverImpl::with_data(metadb);
    assert_eq!(resolver.shard_state_ttl(), DEFAULT_SHARD_STATE_TTL);
    resolver.set_shard_state_ttl(50);
    assert!(!resolver.allow_state_gc(&id, 150).unwrap());
    assert!(resolver.allow_state_gc(&id, 151).unwrap());
}

#[test]
fn gc_sweeps_expired_state_and_keeps_shared_subtree() {
    // Two states share the leaf: the old one (utime 0) expires, the new one
    // (utime now) survives together with the shared leaf.
    let shared = leaf(7);
    let old_root = node(1, vec![leaf(7)]);
    let new_root = node(2, vec![leaf(7)]);
    let old_block = block(1);
    let new_block = block(2);
    let now: u32 = 1_000_000;

    let mut db = ShardStateDb::in_memory();
    let written_old = db.put(&BlockId::from_ext(old_block.clone()), &old_root);
    assert_eq!(written_old, 2);
    let written_new = db.put(&BlockId::from_ext(new_block.clone()), &new_root);
    assert_eq!(written_new, 1);

    let mut metadb = BlockInfoDb::in_memory();
    metadb.put_block_meta(
        &BlockId::from_ext(old_block.clone()),
        &BlockMeta::with_data(0, 0, 0, 0, false),
    );
    metadb.put_block_meta(
        &BlockId::from_ext(new_block.clone()),
        &BlockMeta::with_data(0, now, 0, 0, false),
    );
    let mut resolver = AllowStateGcResolverImpl::with_data(metadb);
    resolver.set_shard_state_ttl(1);
    let gc = GC::with_data(resolver);

    // Deleted: cell-count of the old tree minus the shared subtree.
    let deleted = gc.collect(&mut db, now).unwrap();
    assert_eq!(deleted, 1);

    // The new state still loads; the old root record is gone.
    let root = db.get(&BlockId::from_ext(new_block)).unwrap();
    assert_eq!(root.data().as_slice(), &[2]);
    assert!(db.dynamic_boc_db().contains(shared.repr_hash()));
    assert!(!db.dynamic_boc_db().contains(old_root.repr_hash()));
    assert!(db.get(&BlockId::from_ext(old_block)).is_err());
}

#[test]
fn gc_spares_states_held_in_memory() {
    // The state is expired, but its root cell is live in memory, so the
    // collector classifies it live and keeps every cell.
    let root = node(3, vec![leaf(4)]);
    let root_id = root.repr_hash().clone();
    let blk = block(5);
    // A second, genuinely dead state makes the sweep run at all.
    let dead = leaf(9);
    let dead_blk = block(6);

    let mut db = ShardStateDb::in_memory();
    db.put(&BlockId::from_ext(blk.clone()), &root);
    db.put(&BlockId::from_ext(dead_blk.clone()), &dead);

    let mut metadb = BlockInfoDb::in_memory();
    metadb.put_block_meta(&BlockId::from_ext(blk.clone()), &BlockMeta::with_data(0, 0, 0, 0, false));
    metadb.put_block_meta(
        &BlockId::from_ext(dead_blk.clone()),
        &BlockMeta::with_data(0, 0, 0, 0, false),
    );
    let mut resolver = AllowStateGcResolverImpl::with_data(metadb);
    resolver.set_shard_state_ttl(1);
    let gc = GC::with_data(resolver);

    // Hold the root in memory before collecting.
    db.get(&BlockId::from_ext(blk.clone())).unwrap();
    assert!(db.dynamic_boc_db().cache_contains(&root_id));

    let deleted = gc.collect(&mut db, 1_000).unwrap();
    assert_eq!(deleted, 1);
    assert!(db.dynamic_boc_db().contains(&root_id));
    assert!(db.dynamic_boc_db().contains(leaf(4).repr_hash()));
    assert!(!db.dynamic_boc_db().contains(dead.repr_hash()));
}

#[test]
fn gc_without_dead_states_deletes_nothing() {
    let root = leaf(1);
    let blk = block(9);
    let mut db = ShardStateDb::in_memory();
    db.put(&BlockId::from_ext(blk.clone()), &root);
    let mut metadb = BlockInfoDb::in_memory();
    metadb.put_block_meta(
        &BlockId::from_ext(blk),
        &BlockMeta::with_data(0, 500, 0, 0, false),
    );
    let gc = GC::with_data(AllowStateGcResolverImpl::with_data(metadb));
    assert_eq!(gc.collect(&mut db, 600).unwrap(), 0);
    assert!(db.dynamic_boc_db().contains(root.repr_hash()));
}

#[test]
fn gc_fails_without_block_meta() {
    let root = leaf(2);
    let blk = block(10);
    let mut db = ShardStateDb::in_memory();
    db.put(&BlockId::from_ext(blk), &root);
    let gc = GC::new(BlockInfoDb::in_memory());
    assert!(gc.collect(&mut db, 1).is_err());
    assert!(db.dynamic_boc_db().contains(root.repr_hash()));
}

#[test]
fn db_entry_round_trip() {
    let e = DbEntry::with_params(CellId::new(vec![3; 32]), block(17));
    let bytes = e.serialize();
    assert_eq!(bytes.len(), 112);
    let back = DbEntry::deserialize(bytes.as_slice()).unwrap();
    assert_eq!(back.cell_id.as_slice(), &[3; 32][..]);
    assert_eq!(back.block_id_ext.seq_no(), 17);
    assert_eq!(back.block_id_ext.shard_id.workchain_id, -1);
    assert_eq!(back.serialize(), bytes);
}

#[test]
fn block_key_is_digest_of_identifier() {
    let ext = block(17);
    let id = BlockId::from_ext(ext.clone());
    // Recompute the encoding by hand: workchain, tagged prefix, seq_no, then
    // both hashes.
    let mut enc: Vec<u8> = Vec::new();
    enc.extend_from_slice(&(-1i32 as u32).to_le_bytes());
    enc.extend_from_slice(&0x8000_0000_0000_0000u64.to_le_bytes());
    enc.extend_from_slice(&17u32.to_le_bytes());
    enc.extend_from_slice(&[17; 32]);
    enc.extend_from_slice(&[0x55; 32]);
    let expected = sha2::Sha256::digest(enc.as_slice());
    assert_eq!(id.key_bytes(), expected.as_slice());
}

#[test]
fn gc_can_run_repeatedly() {
    let mut db = ShardStateDb::in_memory();
    let blk = block(3);
    db.put(&BlockId::from_ext(blk.clone()), &leaf(3));
    let mut metadb = BlockInfoDb::in_memory();
    metadb.put_block_meta(&BlockId::from_ext(blk), &BlockMeta::with_data(0, 0, 0, 0, false));
    let mut resolver = AllowStateGcResolverImpl::with_data(metadb);
    resolver.set_shard_state_ttl(1);
    let gc = GC::with_data(resolver);
    assert_eq!(gc.collect(&mut db, 100).unwrap(), 1);
    // A second collection over the emptied index deletes nothing more.
    assert_eq!(gc.collect(&mut db, 200).unwrap(), 0);
}
