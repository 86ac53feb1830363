use penumbra_indexer::classify::NoopClassifier;
use penumbra_indexer::engine::{backfill_range, backfill_start, FetchOutcome, SyncConfig, SyncEngine};
use penumbra_indexer::error::ApiError;
use penumbra_indexer::payload::{BlockData, BlockId, BlockPayload};
use penumbra_indexer::query::{
    database_error, get_block_by_height, get_chain_stats, get_latest_blocks,
    get_latest_transactions, get_transactions_by_block_height, not_found_error,
};
use penumbra_indexer::store::Store;

fn payload(hash: &str, time: i64, txs: Vec<&str>) -> BlockPayload {
    BlockPayload {
        time,
        block_id: BlockId { hash: hash.to_string() },
        proposer_address: "val".to_string(),
        last_block_id: None,
        data: BlockData {
            txs: if txs.is_empty() {
                None
            } else {
                Some(txs.into_iter().map(|s| s.to_string()).collect())
            },
        },
        raw: "raw".to_string(),
    }
}

/// One backfill pass over an empty store against a node whose tip is 5.
fn synced_store() -> Store {
    let mut store = Store::new();
    let target = 5;
    let start = backfill_start(store.latest_indexed_height(), 1);
    assert_eq!(start, 1);
    let responses: Vec<FetchOutcome> = (1..=target)
        .map(|h| {
            FetchOutcome::Block(payload(
                &format!("hash{}", h),
                1000 * h as i64,
                if h == 3 { vec!["one spend", "two"] } else { vec![] },
            ))
        })
        .collect();
    backfill_range(&mut store, &NoopClassifier, &responses, start, target, 100, 42);
    store
}

#[test]
fn end_to_end_backfill_serves_the_read_path() {
    let store = synced_store();

    let list = get_latest_blocks(&store);
    assert_eq!(list.total_count, 5);
    assert_eq!(list.blocks.len(), 5);
    let heights: Vec<u64> = list.blocks.iter().map(|b| b.height).collect();
    assert_eq!(heights, vec![5, 4, 3, 2, 1]);

    let third = get_block_by_height(&store, 3).expect("height 3 indexed");
    assert_eq!(third.height, 3);
    assert_eq!(third.hash, "hash3");
    assert_eq!(third.tx_count, 2);

    let missing = get_block_by_height(&store, 99).expect_err("height 99 not indexed");
    assert_eq!(missing.code, 404);
    assert_eq!(missing.error, "Block at height 99 not found");
}

#[test]
fn transactions_endpoints_list_and_404() {
    let store = synced_store();

    let by_block = get_transactions_by_block_height(&store, 3).expect("block 3 has transactions");
    assert_eq!(by_block.total_count, 2);
    assert_eq!(by_block.transactions[0].tx_hash, "hash3_0");
    assert_eq!(by_block.transactions[0].action_type, "spend");
    assert_eq!(by_block.transactions[0].amount, Some(3));
    assert_eq!(by_block.transactions[1].tx_hash, "hash3_1");
    assert_eq!(by_block.transactions[1].amount, None);

    let empty = get_transactions_by_block_height(&store, 4).expect_err("block 4 has none");
    assert_eq!(empty.code, 404);
    assert_eq!(empty.error, "No transactions found for block at height 4");

    let latest = get_latest_transactions(&store);
    assert_eq!(latest.total_count, 2);
    assert_eq!(latest.transactions[0].block_height, 3);
}

#[test]
fn chain_stats_report_timing_and_totals() {
    let store = synced_store();
    let now = 5000 + 30;
    let stats = get_chain_stats(&store, now).expect("two consecutive blocks stored");
    assert_eq!(stats.current_block.height, 5);
    assert_eq!(stats.current_block.block_time, "1000");
    assert_eq!(stats.current_block.received_new, "30");
    assert_eq!(stats.total_transactions.count, 2);
    assert_eq!(stats.total_transactions.new_today, 2);
    assert_eq!(stats.total_burn.amount, "0 UM");
    assert_eq!(stats.total_transactions.history.len(), 1);
    assert_eq!(stats.total_transactions.history[0].value, 2);
    assert_eq!(stats.total_burn.history.len(), 1);
    assert_eq!(stats.total_burn.history[0].date, "Today");
}

#[test]
fn chain_stats_fail_on_an_empty_or_gapped_store() {
    let store = Store::new();
    let err = get_chain_stats(&store, 0).expect_err("empty store has no timing");
    assert_eq!(err.code, 500);
    assert_eq!(err.error, "Database error: block timing unavailable");

    let mut gapped = Store::new();
    let responses = vec![FetchOutcome::Block(payload("only", 10, vec![]))];
    backfill_range(&mut gapped, &NoopClassifier, &responses, 7, 7, 1, 0);
    let err = get_chain_stats(&gapped, 100).expect_err("no predecessor of height 7");
    assert_eq!(err.code, 500);
}

#[test]
fn stats_recover_once_the_predecessor_arrives() {
    let mut store = Store::new();
    let responses = vec![
        FetchOutcome::Block(payload("a", 100, vec![])),
        FetchOutcome::Block(payload("b", 250, vec![])),
    ];
    backfill_range(&mut store, &NoopClassifier, &responses, 9, 10, 5, 0);
    let stats = get_chain_stats(&store, 240).expect("heights 9 and 10 stored");
    assert_eq!(stats.current_block.height, 10);
    assert_eq!(stats.current_block.block_time, "150");
    // The tip is newer than the clock: the elapsed time clamps to zero.
    assert_eq!(stats.current_block.received_new, "0");
}

#[test]
fn error_bodies_carry_their_codes() {
    let db = database_error("went away");
    assert_eq!(db.code, 500);
    assert_eq!(db.error, "Database error: went away");
    let nf = not_found_error("nothing here".to_string());
    assert_eq!(nf.code, 404);
    assert_eq!(nf.error, "nothing here");

    let (code, body) = ApiError::DatabaseError("secret detail".to_string()).into_response();
    assert_eq!(code, 500);
    assert_eq!(body.status, "500 Internal Server Error");
    assert_eq!(body.message, "Internal server error");
    let (code, body) = ApiError::NotFound("Resource not found".to_string()).into_response();
    assert_eq!(code, 404);
    assert_eq!(body.status, "404 Not Found");
    assert_eq!(body.message, "Resource not found");
    let (code, body) = ApiError::BadRequest("bad".to_string()).into_response();
    assert_eq!(code, 400);
    assert_eq!(body.message, "bad");
    let (code, body) = ApiError::InternalError("boom".to_string()).into_response();
    assert_eq!(code, 500);
    assert_eq!(body.message, "boom");
}

#[test]
fn skip_flag_goes_straight_to_following() {
    let mut config = SyncConfig::default();
    config.skip_initial_sync = true;
    let engine = SyncEngine::init(config, None, 9_999_999);
    assert!(matches!(
        engine.phase,
        penumbra_indexer::engine::Phase::Following { last_processed: None }
    ));
}
