use penumbra_indexer::classify::{NoopClassifier, TxClassifier};
use penumbra_indexer::engine::{
    backfill_range, backfill_start, derive_tx_hash, parse_status_height, process_block, Action,
    ChainError, FetchOutcome, Phase, SyncConfig, SyncEngine,
};
use penumbra_indexer::payload::{BlockData, BlockId, BlockPayload};
use penumbra_indexer::store::Store;

fn payload(hash: &str, time: i64, txs: Option<Vec<&str>>) -> BlockPayload {
    BlockPayload {
        time,
        block_id: BlockId { hash: hash.to_string() },
        proposer_address: "val".to_string(),
        last_block_id: Some(BlockId { hash: "prev".to_string() }),
        data: BlockData { txs: txs.map(|v| v.into_iter().map(|s| s.to_string()).collect()) },
        raw: "raw-body".to_string(),
    }
}

#[test]
fn derive_tx_hash_appends_the_position() {
    assert_eq!(derive_tx_hash(&"abc".to_string(), 0), "abc_0");
    assert_eq!(derive_tx_hash(&"abc".to_string(), 17), "abc_17");
}

#[test]
fn classifier_stub_labels_spend_payloads() {
    let c = NoopClassifier;
    let spend = c.classify("xx spend yy");
    assert_eq!(spend.action_type, "spend");
    assert_eq!(spend.amount, Some(3));
    assert_eq!(spend.burn, 0);
    let other = c.classify("delegate");
    assert_eq!(other.action_type, "not yet supported act...");
    assert_eq!(other.amount, None);
    assert_eq!(other.burn, 0);
}

#[test]
fn process_block_stores_block_and_transactions() {
    let mut store = Store::new();
    let p = payload("blk", 1000, Some(vec!["a spend", "plain"]));
    process_block(&mut store, &NoopClassifier, 42, &p, 7);
    let b = store.get_block_by_height(42).expect("block stored");
    assert_eq!(b.hash, "blk");
    assert_eq!(b.tx_count, 2);
    assert_eq!(b.burn_amount, 0);
    assert_eq!(b.previous_block_hash, Some("prev".to_string()));
    assert_eq!(b.data, "raw-body");
    assert_eq!(b.created_at, 7);
    let txs = store.get_transactions_by_block_height(42);
    assert_eq!(txs.len(), 2);
    assert_eq!(txs[0].tx_hash, "blk_0");
    assert_eq!(txs[0].action_type, "spend");
    assert_eq!(txs[0].amount, Some(3));
    assert_eq!(txs[0].time, 1000);
    assert_eq!(txs[1].tx_hash, "blk_1");
    assert_eq!(txs[1].action_type, "not yet supported act...");
    assert_eq!(txs[1].amount, None);
}

#[test]
fn reprocessing_a_block_adds_no_transaction_rows() {
    let mut store = Store::new();
    let p = payload("blk", 1000, Some(vec!["a", "b", "c"]));
    process_block(&mut store, &NoopClassifier, 5, &p, 1);
    process_block(&mut store, &NoopClassifier, 5, &p, 2);
    process_block(&mut store, &NoopClassifier, 5, &p, 3);
    let txs = store.get_transactions_by_block_height(5);
    assert_eq!(txs.len(), 3);
    let mut hashes: Vec<String> = txs.iter().map(|t| t.tx_hash.clone()).collect();
    hashes.sort();
    hashes.dedup();
    assert_eq!(hashes.len(), 3);
    assert_eq!(store.get_latest_blocks(10).len(), 1);
    // The block row reflects the most recent pass.
    assert_eq!(store.get_block_by_height(5).unwrap().created_at, 3);
}

#[test]
fn backfill_skips_failed_heights_and_a_second_pass_heals_them() {
    let mut store = Store::new();
    let first_pass = vec![
        FetchOutcome::Block(payload("h1", 10, None)),
        FetchOutcome::Failed(ChainError::Transport),
        FetchOutcome::Block(payload("h3", 30, None)),
    ];
    backfill_range(&mut store, &NoopClassifier, &first_pass, 1, 3, 2, 0);
    assert!(store.get_block_by_height(1).is_some());
    assert!(store.get_block_by_height(2).is_none());
    assert!(store.get_block_by_height(3).is_some());

    let second_pass = vec![
        FetchOutcome::Block(payload("h1", 10, None)),
        FetchOutcome::Block(payload("h2", 20, None)),
        FetchOutcome::Block(payload("h3", 30, None)),
    ];
    backfill_range(&mut store, &NoopClassifier, &second_pass, 1, 3, 2, 0);
    let healed = store.get_block_by_height(2).expect("healed on retry");
    assert_eq!(healed.hash, "h2");
    assert_eq!(healed.time, 20);
    assert_eq!(store.latest_indexed_height(), Some(3));
}

#[test]
fn backfill_covers_the_whole_range_in_batches() {
    let mut store = Store::new();
    let responses: Vec<FetchOutcome> = (0..7)
        .map(|i| FetchOutcome::Block(payload(&format!("h{}", i), i * 10, None)))
        .collect();
    backfill_range(&mut store, &NoopClassifier, &responses, 10, 16, 3, 0);
    for h in 10..=16 {
        assert!(store.get_block_by_height(h).is_some(), "height {} missing", h);
    }
    assert_eq!(store.get_latest_blocks(100).len(), 7);
    assert_eq!(store.latest_indexed_height(), Some(16));
}

#[test]
fn backfill_start_resumes_after_the_latest_indexed_height() {
    assert_eq!(backfill_start(None, 2611800), 2611800);
    assert_eq!(backfill_start(Some(99), 2611800), 100);
}

#[test]
fn engine_init_picks_backfill_or_following() {
    let config = SyncConfig::default();
    let e = SyncEngine::init(config, None, 2611900);
    assert!(matches!(
        e.phase,
        Phase::Backfilling { next_height: 2611800, target: 2611900 }
    ));
    let caught_up = SyncEngine::init(SyncConfig::default(), Some(500), 400);
    assert!(matches!(caught_up.phase, Phase::Following { last_processed: None }));
    let mut skipping = SyncConfig::default();
    skipping.skip_initial_sync = true;
    let skipped = SyncEngine::init(skipping, None, 2611900);
    assert!(matches!(skipped.phase, Phase::Following { last_processed: None }));
}

#[test]
fn engine_walks_the_backfill_range_then_follows() {
    let mut config = SyncConfig::default();
    config.genesis_height = 1;
    let mut e = SyncEngine::init(config, None, 2);
    assert!(matches!(e.next_action(), Action::FetchBlock { height: 1 }));
    let delay = e.on_backfill_attempt(true);
    assert_eq!(delay, 0);
    assert!(matches!(e.next_action(), Action::FetchBlock { height: 2 }));
    let delay = e.on_backfill_attempt(false);
    assert_eq!(delay, 5);
    assert!(matches!(e.next_action(), Action::PollStatus));
    assert!(matches!(e.phase, Phase::Following { last_processed: Some(2) }));
}

#[test]
fn following_processes_only_new_heights() {
    let config = SyncConfig::default();
    let mut e = SyncEngine::init(config, Some(10), 5);
    assert!(matches!(e.next_action(), Action::PollStatus));
    assert_eq!(e.on_status(11), Some(11));
    assert_eq!(e.on_status(11), None);
    assert_eq!(e.on_status(12), Some(12));
    assert!(matches!(e.phase, Phase::Following { last_processed: Some(12) }));
}

#[test]
fn status_height_must_be_a_nonzero_number() {
    assert_eq!(parse_status_height("2611801"), Some(2611801));
    assert_eq!(parse_status_height("0"), None);
    assert_eq!(parse_status_height(""), None);
    assert_eq!(parse_status_height("12x4"), None);
    assert_eq!(parse_status_height("-5"), None);
    assert_eq!(parse_status_height("18446744073709551615"), Some(u64::MAX));
    assert_eq!(parse_status_height("18446744073709551616"), None);
}
