use penumbra_indexer::records::StoredBlock;
use penumbra_indexer::store::Store;

fn block(height: u64, time: i64, hash: &str, tx_count: u32, burn: u64) -> StoredBlock {
    StoredBlock {
        height,
        time,
        hash: hash.to_string(),
        proposer_address: "proposer".to_string(),
        tx_count,
        previous_block_hash: None,
        burn_amount: burn,
        data: "{}".to_string(),
        created_at: 0,
    }
}

#[test]
fn empty_store_has_no_latest_height() {
    let store = Store::new();
    assert_eq!(store.latest_indexed_height(), None);
    assert!(store.get_block_by_height(1).is_none());
    assert_eq!(store.get_latest_blocks(10).len(), 0);
}

#[test]
fn upsert_block_is_last_write_wins() {
    let mut store = Store::new();
    store.upsert_block(block(5, 100, "first", 3, 10));
    store.upsert_block(block(5, 200, "second", 7, 20));
    let got = store.get_block_by_height(5).expect("height 5 stored");
    assert_eq!(got.hash, "second");
    assert_eq!(got.time, 200);
    assert_eq!(got.tx_count, 7);
    assert_eq!(got.burn_amount, 20);
    assert_eq!(store.get_latest_blocks(10).len(), 1);
}

#[test]
fn insert_transaction_is_first_write_wins() {
    let mut store = Store::new();
    store.upsert_block(block(1, 10, "b1", 1, 0));
    store.insert_transaction(
        "tx_a".to_string(),
        1,
        10,
        "spend".to_string(),
        Some(3),
        "data-one".to_string(),
        50,
    );
    store.insert_transaction(
        "tx_a".to_string(),
        1,
        10,
        "other".to_string(),
        None,
        "data-two".to_string(),
        60,
    );
    let txs = store.get_transactions_by_block_height(1);
    assert_eq!(txs.len(), 1);
    assert_eq!(txs[0].tx_hash, "tx_a");
    assert_eq!(txs[0].action_type, "spend");
    assert_eq!(txs[0].amount, Some(3));
    assert_eq!(txs[0].data, "data-one");
    assert_eq!(txs[0].created_at, 50);
}

#[test]
fn blocks_keep_height_order_whatever_the_insert_order() {
    let mut store = Store::new();
    store.upsert_block(block(30, 3, "c", 0, 0));
    store.upsert_block(block(10, 1, "a", 0, 0));
    store.upsert_block(block(20, 2, "b", 0, 0));
    assert_eq!(store.latest_indexed_height(), Some(30));
    let latest = store.get_latest_blocks(2);
    assert_eq!(latest.len(), 2);
    assert_eq!(latest[0].height, 30);
    assert_eq!(latest[1].height, 20);
}

#[test]
fn latest_transactions_order_by_height_desc_then_insertion() {
    let mut store = Store::new();
    store.upsert_block(block(1, 10, "b1", 2, 0));
    store.upsert_block(block(2, 20, "b2", 1, 0));
    store.insert_transaction(
        "t1".to_string(),
        1,
        10,
        "x".to_string(),
        None,
        "d".to_string(),
        0,
    );
    store.insert_transaction(
        "t2".to_string(),
        2,
        20,
        "x".to_string(),
        None,
        "d".to_string(),
        0,
    );
    store.insert_transaction(
        "t3".to_string(),
        1,
        10,
        "x".to_string(),
        None,
        "d".to_string(),
        0,
    );
    let latest = store.get_latest_transactions(10);
    let hashes: Vec<&str> = latest.iter().map(|t| t.tx_hash.as_str()).collect();
    assert_eq!(hashes, vec!["t2", "t1", "t3"]);
    let capped = store.get_latest_transactions(2);
    let capped_hashes: Vec<&str> = capped.iter().map(|t| t.tx_hash.as_str()).collect();
    assert_eq!(capped_hashes, vec!["t2", "t1"]);
}

#[test]
fn transactions_by_block_filters_by_height() {
    let mut store = Store::new();
    store.upsert_block(block(1, 10, "b1", 1, 0));
    store.upsert_block(block(2, 20, "b2", 1, 0));
    store.insert_transaction(
        "t1".to_string(),
        1,
        10,
        "x".to_string(),
        None,
        "d".to_string(),
        0,
    );
    store.insert_transaction(
        "t2".to_string(),
        2,
        20,
        "x".to_string(),
        None,
        "d".to_string(),
        0,
    );
    let txs = store.get_transactions_by_block_height(2);
    assert_eq!(txs.len(), 1);
    assert_eq!(txs[0].tx_hash, "t2");
    assert_eq!(store.get_transactions_by_block_height(3).len(), 0);
}

#[test]
fn to_summary_projects_the_row() {
    let b = block(9, 77, "hash", 4, 1);
    let s = b.to_summary();
    assert_eq!(s.height, 9);
    assert_eq!(s.time, 77);
    assert_eq!(s.tx_count, 4);
}
