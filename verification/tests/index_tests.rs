//! Block index behaviour: monotonic appends and the lookups by sequence
//! number, logical time and unix time.

use ton_node_storage::block_handle::BlockHandle;
use ton_node_storage::block_id::{BlockIdExt, ShardIdent};
use ton_node_storage::block_index_db::{AccountIdPrefixFull, BlockIndexDb};
use ton_node_storage::block_meta::BlockMeta;
use ton_node_storage::cell_id::CellId;
use ton_node_storage::error::StorageError;

fn masterchain_block(seq_no: u32) -> BlockIdExt {
    BlockIdExt::with_params(
        ShardIdent::with_prefix_len(0, -1, 0),
        seq_no,
        CellId::new(vec![seq_no as u8; 32]),
        CellId::new(vec![9; 32]),
    )
}

fn handle(seq_no: u32, lt: u64, ut: u32) -> BlockHandle {
    let mut meta = BlockMeta::with_data(0, ut, lt, 0, true);
    meta.set_gen_utime(ut);
    BlockHandle::with_values(masterchain_block(seq_no), meta)
}

fn account() -> AccountIdPrefixFull {
    AccountIdPrefixFull { workchain_id: -1, prefix: 0 }
}

#[test]
fn append_is_monotonic() {
    let mut index = BlockIndexDb::in_memory();
    index.add_handle(&handle(1, 100, 10)).unwrap();
    index.add_handle(&handle(2, 200, 20)).unwrap();
    // Equal sequence number: a no-op.
    index.add_handle(&handle(2, 999, 99)).unwrap();
    // Lower sequence number: an error.
    let err = index.add_handle(&handle(1, 100, 10)).unwrap_err();
    assert_eq!(err, StorageError::InvariantViolation);
    // The no-op stored nothing: the lookup still finds the first record.
    let found = index.get_block_by_seq_no(&account(), 2).unwrap();
    assert_eq!(found.seq_no(), 2);
}

#[test]
fn binary_search_by_all_keys() {
    let mut index = BlockIndexDb::in_memory();
    index.add_handle(&handle(1, 100, 10)).unwrap();
    index.add_handle(&handle(2, 200, 20)).unwrap();
    index.add_handle(&handle(3, 300, 30)).unwrap();

    // The smallest block whose logical time is at or past the query.
    assert_eq!(index.get_block_by_lt(&account(), 250).unwrap().seq_no(), 3);
    assert_eq!(index.get_block_by_lt(&account(), 200).unwrap().seq_no(), 2);
    assert_eq!(index.get_block_by_lt(&account(), 1).unwrap().seq_no(), 1);
    assert!(index.get_block_by_lt(&account(), 301).is_err());

    // Exact sequence numbers.
    assert_eq!(index.get_block_by_seq_no(&account(), 2).unwrap().seq_no(), 2);
    assert!(index.get_block_by_seq_no(&account(), 99).is_err());

    // Unix times behave like logical times.
    assert_eq!(index.get_block_by_ut(&account(), 15).unwrap().seq_no(), 2);
    assert_eq!(index.get_block_by_ut(&account(), 30).unwrap().seq_no(), 3);
}

#[test]
fn empty_index_finds_nothing() {
    let index = BlockIndexDb::in_memory();
    assert!(index.get_block_by_seq_no(&account(), 1).is_err());
    assert!(index.get_block_by_lt(&account(), 0).is_err());
}

#[test]
fn handle_without_time_is_rejected() {
    let mut index = BlockIndexDb::in_memory();
    let h = BlockHandle::new(masterchain_block(1));
    let err = index.add_handle(&h).unwrap_err();
    assert_eq!(err, StorageError::KeyNotFound);
}

#[test]
fn deeper_shards_are_probed() {
    let mut index = BlockIndexDb::in_memory();
    let shard = ShardIdent::with_prefix_len(1, 0, 0);
    let id = BlockIdExt::with_params(
        shard,
        5,
        CellId::new(vec![5; 32]),
        CellId::new(vec![6; 32]),
    );
    let mut meta = BlockMeta::with_data(0, 50, 500, 0, true);
    meta.set_gen_utime(50);
    index.add_handle(&BlockHandle::with_values(id, meta)).unwrap();
    let account = AccountIdPrefixFull { workchain_id: 0, prefix: 0 };
    assert_eq!(index.get_block_by_seq_no(&account, 5).unwrap().seq_no(), 5);
    assert_eq!(index.get_block_by_lt(&account, 400).unwrap().seq_no(), 5);
}
