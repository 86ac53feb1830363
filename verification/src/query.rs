//! The read path: the decisions behind each HTTP endpoint, as pure
//! functions from the store to the response value or the error body.
//! The HTTP layer outside the library only serializes what these return:
//! a value answers with status 200, an `ErrorResponse` with its `code`.

use vstd::prelude::*;

use crate::records::{
    spec_block_summary, spec_tx_summary, BlockList, BlockSummary, StoredBlock, Transaction,
    TransactionList, TransactionSummary, TxRec, TxSummaryRec,
};
use crate::stats::{
    spec_burn_history, spec_day, spec_tx_history, stats_times_fit, sum_burn, sum_tx_counts,
    sum_tx_counts_on_day, take_points, window_lo, BurnStats, CurrentBlockStats, StatsQueries,
    StatsResponse, TransactionStats,
};
use crate::store::{block_at, txs_desc, txs_of_height, Store};
use crate::text::{i64_to_string, spec_decimal, spec_decimal_int, u64_to_string};

verus! {

/// The error body the endpoints return: a message and the HTTP status
/// code the response carries.
#[derive(Debug)]
pub struct ErrorResponse {
    /// Error message describing what went wrong.
    pub error: String,
    /// HTTP status code.
    pub code: u16,
}

/// An internal-error body, HTTP 500.
pub fn database_error(detail: &str) -> (r: ErrorResponse)
    ensures
        r.code == 500,
        r.error@ == "Database error: "@ + detail@,
{
    let mut error = String::from_str("Database error: ");
    error.append(detail);
    ErrorResponse { error, code: 500 }
}

/// A not-found body, HTTP 404.
pub fn not_found_error(message: String) -> (r: ErrorResponse)
    ensures
        r.code == 404,
        r.error@ == message@,
{
    ErrorResponse { error: message, code: 404 }
}

/// The summaries of the given transaction rows, in order.
pub open spec fn summaries_of(s: Seq<TxRec>) -> Seq<TxSummaryRec> {
    s.map_values(|t: TxRec| spec_tx_summary(t))
}

/// Reduces transaction rows to their summaries.
fn tx_summaries(v: Vec<Transaction>) -> (r: Vec<TransactionSummary>)
    ensures
        r.deep_view() == summaries_of(v.deep_view()),
{
    let n = v.len();
    let mut r: Vec<TransactionSummary> = Vec::new();
    assert(r.deep_view() =~= Seq::<TxSummaryRec>::empty());
    let mut i: usize = 0;
    while i < n
        invariant
            n == v.len(),
            i <= n,
            r.deep_view() =~= summaries_of(v.deep_view().subrange(0, i as int)),
        decreases n - i,
    {
        let s = v[i].to_summary();
        let ghost pre = r.deep_view();
        let ghost sv = s@;
        r.push(s);
        proof {
            assert(r.deep_view() =~= pre.push(sv));
            assert(summaries_of(v.deep_view().subrange(0, i as int + 1)) =~= pre.push(sv));
        }
        i = i + 1;
    }
    proof {
        assert(v.deep_view().subrange(0, n as int) =~= v.deep_view());
    }
    r
}

/// GET /api/blocks: up to ten of the most recent blocks, highest first,
/// reduced to summaries, with the page's length.
pub fn get_latest_blocks(store: &Store) -> (r: BlockList)
    requires
        store.wf(),
    ensures
        r.blocks.deep_view().len() == if 10 <= store@.blocks.len() {
            10int
        } else {
            store@.blocks.len() as int
        },
        forall|i: int|
            0 <= i < r.blocks.deep_view().len() ==> r.blocks.deep_view()[i] == spec_block_summary(
                store@.blocks[store@.blocks.len() - 1 - i],
            ),
        r.total_count == r.blocks.deep_view().len(),
{
    let rows = store.get_latest_blocks(10);
    let n = rows.len();
    let mut summaries: Vec<BlockSummary> = Vec::new();
    assert(summaries.deep_view() =~= Seq::<crate::records::BlockSummaryRec>::empty());
    let mut i: usize = 0;
    while i < n
        invariant
            n == rows.len(),
            i <= n,
            summaries.deep_view().len() == i as int,
            forall|k: int|
                0 <= k < i ==> summaries.deep_view()[k] == spec_block_summary(
                    rows.deep_view()[k],
                ),
        decreases n - i,
    {
        let s = rows[i].to_summary();
        let ghost pre = summaries.deep_view();
        let ghost sv = s@;
        summaries.push(s);
        proof {
            assert(summaries.deep_view() =~= pre.push(sv));
        }
        i = i + 1;
    }
    BlockList::new(summaries)
}

/// The message for a missing block.
fn block_not_found_message(height: u64) -> (m: String)
    ensures
        m@ == "Block at height "@ + spec_decimal(height as nat) + " not found"@,
{
    let mut m = String::from_str("Block at height ");
    let digits = u64_to_string(height);
    m.append(digits.as_str());
    m.append(" not found");
    m
}

/// GET /api/blocks/{height}: the stored block, or a 404 body when the
/// height is not indexed.
pub fn get_block_by_height(store: &Store, height: u64) -> (r: Result<StoredBlock, ErrorResponse>)
    requires
        store.wf(),
    ensures
        match r {
            Ok(b) => block_at(store@.blocks, height as int) == Some(b@),
            Err(e) => {
                &&& block_at(store@.blocks, height as int) is None
                &&& e.code == 404
                &&& e.error@ == "Block at height "@ + spec_decimal(height as nat) + " not found"@
            },
        },
{
    match store.get_block_by_height(height) {
        Some(b) => Ok(b.clone()),
        None => Err(not_found_error(block_not_found_message(height))),
    }
}

/// GET /api/blocks/{height}/transactions: the block's transactions in
/// insertion order, or a 404 body when it has none.
pub fn get_transactions_by_block_height(store: &Store, height: u64) -> (r: Result<
    TransactionList,
    ErrorResponse,
>)
    requires
        store.wf(),
    ensures
        match r {
            Ok(l) => {
                &&& txs_of_height(store@.txs, height as int).len() > 0
                &&& l.transactions.deep_view() == summaries_of(
                    txs_of_height(store@.txs, height as int),
                )
                &&& l.total_count == txs_of_height(store@.txs, height as int).len()
            },
            Err(e) => {
                &&& txs_of_height(store@.txs, height as int).len() == 0
                &&& e.code == 404
                &&& e.error@ == "No transactions found for block at height "@ + spec_decimal(
                    height as nat,
                )
            },
        },
{
    let rows = store.get_transactions_by_block_height(height);
    if rows.is_empty() {
        let mut m = String::from_str("No transactions found for block at height ");
        let digits = u64_to_string(height);
        m.append(digits.as_str());
        Err(not_found_error(m))
    } else {
        let summaries = tx_summaries(rows);
        Ok(TransactionList::new(summaries))
    }
}

/// GET /api/transactions: up to fifty of the most recent transactions,
/// newest block first, reduced to summaries.
pub fn get_latest_transactions(store: &Store) -> (r: TransactionList)
    requires
        store.wf(),
    ensures
        r.transactions.deep_view() == summaries_of(
            txs_desc(store@.blocks, store@.txs).take(
                if 50 <= txs_desc(store@.blocks, store@.txs).len() {
                    50int
                } else {
                    txs_desc(store@.blocks, store@.txs).len() as int
                },
            ),
        ),
        r.total_count == r.transactions.deep_view().len(),
{
    let rows = store.get_latest_transactions(50);
    let summaries = tx_summaries(rows);
    TransactionList::new(summaries)
}

/// The non-negative part of a difference.
pub open spec fn clamp0(x: int) -> int {
    if x >= 0 {
        x
    } else {
        0
    }
}

/// GET /api/stats: the aggregate statistics of the indexed chain, or a
/// 500 body when the store lacks the latest block or its predecessor.
pub fn get_chain_stats(store: &Store, now: i64) -> (r: Result<StatsResponse, ErrorResponse>)
    requires
        store.wf(),
        sum_tx_counts(store@.blocks) <= i64::MAX,
        sum_burn(store@.blocks) <= i64::MAX,
        stats_times_fit(store@.blocks, now as int),
    ensures
        match r {
            Ok(s) => {
                let blocks = store@.blocks;
                let last = blocks.last();
                let prev = block_at(blocks, last.height - 1);
                &&& blocks.len() > 0
                &&& prev is Some
                &&& s.current_block.height as int == last.height
                &&& s.current_block.block_time@ == spec_decimal_int(last.time - prev.unwrap().time)
                &&& s.current_block.received_new@ == spec_decimal_int(
                    clamp0(now as int - last.time),
                )
                &&& s.total_transactions.count as int == sum_tx_counts(blocks)
                &&& s.total_transactions.new_today as int == sum_tx_counts_on_day(
                    blocks,
                    spec_day(now as int),
                )
                &&& s.total_transactions.history.deep_view() == take_points(
                    spec_tx_history(blocks, window_lo(spec_day(now as int), 20), spec_day(now as int)),
                    20,
                )
                &&& s.total_burn.amount@ == spec_decimal(sum_burn(blocks) as nat) + " UM"@
                &&& s.total_burn.history.deep_view() == take_points(
                    spec_burn_history(blocks, window_lo(spec_day(now as int), 30), spec_day(now as int)),
                    3,
                )
            },
            Err(e) => {
                &&& e.code == 500
                &&& e.error@ == "Database error: block timing unavailable"@
                &&& (store@.blocks.len() == 0 || block_at(
                    store@.blocks,
                    store@.blocks.last().height - 1,
                ) is None)
            },
        },
{
    let latest = match StatsQueries::get_latest_block_timing(store) {
        Some(info) => info,
        None => {
            let e = database_error("block timing unavailable");
            proof {
                reveal_strlit("Database error: ");
                reveal_strlit("block timing unavailable");
                reveal_strlit("Database error: block timing unavailable");
                assert(e.error@ =~= "Database error: block timing unavailable"@);
            }
            return Err(e);
        },
    };
    let prev = match StatsQueries::get_previous_block_timing(store, latest.height) {
        Some(info) => info,
        None => {
            let e = database_error("block timing unavailable");
            proof {
                reveal_strlit("Database error: ");
                reveal_strlit("block timing unavailable");
                reveal_strlit("Database error: block timing unavailable");
                assert(e.error@ =~= "Database error: block timing unavailable"@);
                if latest.height == 0 {
                    assert forall|i: int| 0 <= i < store@.blocks.len() implies (#[trigger] store@.blocks[i]).height
                        != store@.blocks.last().height - 1 by {}
                    crate::store::lemma_block_at_indexed(
                        store@.blocks,
                        store@.blocks.last().height - 1,
                    );
                }
            }
            return Err(e);
        },
    };
    let block_time = latest.timestamp - prev.timestamp;
    let since = now - latest.timestamp;
    let received_new: i64 = if since >= 0 {
        since
    } else {
        0
    };
    let total_tx = StatsQueries::get_total_transactions(store);
    let new_today = StatsQueries::get_today_transactions(store, now);
    let tx_history = StatsQueries::get_transaction_history(store, now);
    let total_burn = StatsQueries::get_total_burn(store);
    let burn_history = StatsQueries::get_burn_history(store, now);
    Ok(
        StatsResponse::new(
            CurrentBlockStats::new(
                latest.height,
                i64_to_string(block_time),
                i64_to_string(received_new),
            ),
            TransactionStats::new(total_tx, new_today, tx_history),
            BurnStats::new(total_burn, burn_history),
        ),
    )
}

} // verus!
