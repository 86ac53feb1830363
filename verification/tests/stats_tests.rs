use penumbra_indexer::calendar::{civil_from_days, day_label, month_day_label};
use penumbra_indexer::records::StoredBlock;
use penumbra_indexer::stats::{day_of, BurnStats, CurrentBlockStats, StatsQueries, TransactionStats};
use penumbra_indexer::store::Store;

const DAY: i64 = 86400;

fn block(height: u64, time: i64, tx_count: u32, burn: u64) -> StoredBlock {
    StoredBlock {
        height,
        time,
        hash: format!("h{}", height),
        proposer_address: "p".to_string(),
        tx_count,
        previous_block_hash: None,
        burn_amount: burn,
        data: "{}".to_string(),
        created_at: 0,
    }
}

#[test]
fn totals_are_the_sums_over_all_blocks() {
    let mut store = Store::new();
    store.upsert_block(block(1, 0, 3, 10));
    store.upsert_block(block(2, DAY, 5, 20));
    store.upsert_block(block(3, 2 * DAY, 0, 12));
    assert_eq!(StatsQueries::get_total_transactions(&store), 8);
    assert_eq!(StatsQueries::get_total_burn(&store), 42);
}

#[test]
fn totals_reflect_upserts_not_history() {
    let mut store = Store::new();
    store.upsert_block(block(1, 0, 3, 10));
    store.upsert_block(block(1, 0, 7, 1));
    assert_eq!(StatsQueries::get_total_transactions(&store), 7);
    assert_eq!(StatsQueries::get_total_burn(&store), 1);
}

#[test]
fn today_counts_only_the_current_day() {
    let mut store = Store::new();
    let now = 20144 * DAY + 3600;
    store.upsert_block(block(1, now - 2 * DAY, 4, 0));
    store.upsert_block(block(2, now - 600, 5, 0));
    store.upsert_block(block(3, now + 600, 6, 0));
    assert_eq!(StatsQueries::get_today_transactions(&store, now), 11);
}

#[test]
fn block_timing_needs_a_latest_and_previous_block() {
    let mut store = Store::new();
    assert!(StatsQueries::get_latest_block_timing(&store).is_none());
    store.upsert_block(block(10, 500, 0, 0));
    let latest = StatsQueries::get_latest_block_timing(&store).unwrap();
    assert_eq!(latest.height, 10);
    assert_eq!(latest.timestamp, 500);
    assert!(StatsQueries::get_previous_block_timing(&store, 10).is_none());
    store.upsert_block(block(9, 440, 0, 0));
    let prev = StatsQueries::get_previous_block_timing(&store, 10).unwrap();
    assert_eq!(prev.height, 9);
    assert_eq!(prev.timestamp, 440);
}

#[test]
fn day_of_rounds_toward_minus_infinity() {
    assert_eq!(day_of(0), 0);
    assert_eq!(day_of(DAY - 1), 0);
    assert_eq!(day_of(DAY), 1);
    assert_eq!(day_of(-1), -1);
    assert_eq!(day_of(-DAY), -1);
    assert_eq!(day_of(-DAY - 1), -2);
}

#[test]
fn civil_dates_match_the_gregorian_calendar() {
    assert_eq!(civil_from_days(0), (1970, 1, 1));
    assert_eq!(civil_from_days(11016), (2000, 2, 29));
    assert_eq!(civil_from_days(19783), (2024, 3, 1));
    assert_eq!(civil_from_days(20144), (2025, 2, 25));
    assert_eq!(civil_from_days(10956), (1999, 12, 31));
}

#[test]
fn century_years_follow_the_gregorian_leap_rule() {
    assert_eq!(civil_from_days(47540), (2100, 2, 28));
    assert_eq!(civil_from_days(47541), (2100, 3, 1));
    assert_eq!(civil_from_days(46080), (2096, 2, 29));
    assert_eq!(civil_from_days(157113), (2400, 2, 29));
}

#[test]
fn date_labels_render_day_and_month() {
    assert_eq!(day_label(20144), "25");
    assert_eq!(day_label(19783), "01");
    assert_eq!(month_day_label(20144), "Feb 25");
    assert_eq!(month_day_label(19783), "Mar 01");
    assert_eq!(month_day_label(10956), "Dec 31");
}

#[test]
fn transaction_history_groups_by_day_in_order() {
    let mut store = Store::new();
    let today = 20144i64;
    let now = today * DAY + 7200;
    store.upsert_block(block(1, (today - 1) * DAY + 10, 2, 0));
    store.upsert_block(block(2, (today - 1) * DAY + 20, 3, 0));
    store.upsert_block(block(3, today * DAY + 30, 4, 0));
    let history = StatsQueries::get_transaction_history(&store, now);
    assert_eq!(history.len(), 2);
    assert_eq!(history[0].date, "24");
    assert_eq!(history[0].value, 5);
    assert_eq!(history[1].date, "25");
    assert_eq!(history[1].value, 4);
}

#[test]
fn old_blocks_stay_out_of_the_history_window() {
    let mut store = Store::new();
    let today = 20144i64;
    let now = today * DAY;
    store.upsert_block(block(1, (today - 25) * DAY, 9, 0));
    store.upsert_block(block(2, today * DAY, 1, 0));
    let history = StatsQueries::get_transaction_history(&store, now);
    assert_eq!(history.len(), 1);
    assert_eq!(history[0].value, 1);
}

#[test]
fn burn_history_labels_the_current_day_today() {
    let mut store = Store::new();
    let today = 20144i64;
    let now = today * DAY + 60;
    store.upsert_block(block(1, (today - 2) * DAY, 0, 7));
    store.upsert_block(block(2, today * DAY + 5, 0, 11));
    let history = StatsQueries::get_burn_history(&store, now);
    assert_eq!(history.len(), 2);
    assert_eq!(history[0].date, "Feb 23");
    assert_eq!(history[0].value, 7);
    assert_eq!(history[1].date, "Today");
    assert_eq!(history[1].value, 11);
}

#[test]
fn burn_history_keeps_the_oldest_three_days() {
    let mut store = Store::new();
    let today = 20144i64;
    let now = today * DAY;
    for offset in 0..5u64 {
        store.upsert_block(block(
            offset + 1,
            (today - 4 + offset as i64) * DAY,
            0,
            offset + 1,
        ));
    }
    let history = StatsQueries::get_burn_history(&store, now);
    assert_eq!(history.len(), 3);
    assert_eq!(history[0].value, 1);
    assert_eq!(history[1].value, 2);
    assert_eq!(history[2].value, 3);
}

#[test]
fn stats_constructors_keep_their_fields() {
    let current = CurrentBlockStats::new(12, "6".to_string(), "2".to_string());
    assert_eq!(current.height, 12);
    assert_eq!(current.block_time, "6");
    assert_eq!(current.received_new, "2");
    let txs = TransactionStats::new(100, 4, Vec::new());
    assert_eq!(txs.count, 100);
    assert_eq!(txs.new_today, 4);
    assert!(txs.history.is_empty());
    let burn = BurnStats::new(42, Vec::new());
    assert_eq!(burn.amount, "42 UM");
    assert!(burn.history.is_empty());
}
