//! Aggregate chain statistics: the totals and per-day sums the stats
//! endpoint reports, and the response shapes it returns. The sums are
//! proved to equal the mathematical sums over the stored block rows.

use vstd::prelude::*;

use crate::calendar::{day_label, month_day_label, spec_day_label, spec_month_day_label};
use crate::records::{BlockRec, StoredBlock};
use crate::store::{block_at, Store};
use crate::text::{spec_decimal, u64_to_string};

verus! {

/// The sum of `tx_count` over the block rows.
pub open spec fn sum_tx_counts(s: Seq<BlockRec>) -> int
    decreases s.len(),
{
    if s.len() == 0 {
        0
    } else {
        sum_tx_counts(s.drop_last()) + s.last().tx_count
    }
}

/// The sum of `burn_amount` over the block rows.
pub open spec fn sum_burn(s: Seq<BlockRec>) -> int
    decreases s.len(),
{
    if s.len() == 0 {
        0
    } else {
        sum_burn(s.drop_last()) + s.last().burn_amount
    }
}

/// The calendar day (in days since the epoch) a timestamp falls on.
pub open spec fn spec_day(t: int) -> int {
    t / 86400
}

/// The sum of `tx_count` over the block rows whose time falls on `day`.
pub open spec fn sum_tx_counts_on_day(s: Seq<BlockRec>, day: int) -> int
    decreases s.len(),
{
    if s.len() == 0 {
        0
    } else {
        sum_tx_counts_on_day(s.drop_last(), day) + if spec_day(s.last().time) == day {
            s.last().tx_count
        } else {
            0
        }
    }
}

/// One more row adds its count.
proof fn lemma_sum_tx_step(s: Seq<BlockRec>, i: int)
    requires
        0 <= i < s.len(),
    ensures
        sum_tx_counts(s.subrange(0, i + 1)) == sum_tx_counts(s.subrange(0, i)) + s[i].tx_count,
{
    assert(s.subrange(0, i + 1).drop_last() =~= s.subrange(0, i));
    assert(s.subrange(0, i + 1).last() == s[i]);
}

/// With non-negative counts, a prefix never sums to more than the whole.
proof fn lemma_sum_tx_prefix_bound(s: Seq<BlockRec>, i: int)
    requires
        0 <= i <= s.len(),
        forall|j: int| 0 <= j < s.len() ==> (#[trigger] s[j]).tx_count >= 0,
    ensures
        sum_tx_counts(s.subrange(0, i)) <= sum_tx_counts(s),
        sum_tx_counts(s.subrange(0, i)) >= 0,
    decreases s.len() - i,
{
    if i == s.len() {
        assert(s.subrange(0, i) =~= s);
        lemma_sum_tx_nonneg(s, i);
    } else {
        lemma_sum_tx_step(s, i);
        lemma_sum_tx_prefix_bound(s, i + 1);
        lemma_sum_tx_nonneg(s, i);
    }
}

proof fn lemma_sum_tx_nonneg(s: Seq<BlockRec>, i: int)
    requires
        0 <= i <= s.len(),
        forall|j: int| 0 <= j < s.len() ==> (#[trigger] s[j]).tx_count >= 0,
    ensures
        sum_tx_counts(s.subrange(0, i)) >= 0,
    decreases i,
{
    if i > 0 {
        lemma_sum_tx_step(s, i - 1);
        lemma_sum_tx_nonneg(s, i - 1);
    } else {
        assert(s.subrange(0, 0) =~= Seq::<BlockRec>::empty());
    }
}

/// One more row adds its burn amount.
proof fn lemma_sum_burn_step(s: Seq<BlockRec>, i: int)
    requires
        0 <= i < s.len(),
    ensures
        sum_burn(s.subrange(0, i + 1)) == sum_burn(s.subrange(0, i)) + s[i].burn_amount,
{
    assert(s.subrange(0, i + 1).drop_last() =~= s.subrange(0, i));
    assert(s.subrange(0, i + 1).last() == s[i]);
}

proof fn lemma_sum_burn_nonneg(s: Seq<BlockRec>, i: int)
    requires
        0 <= i <= s.len(),
        forall|j: int| 0 <= j < s.len() ==> (#[trigger] s[j]).burn_amount >= 0,
    ensures
        sum_burn(s.subrange(0, i)) >= 0,
    decreases i,
{
    if i > 0 {
        lemma_sum_burn_step(s, i - 1);
        lemma_sum_burn_nonneg(s, i - 1);
    } else {
        assert(s.subrange(0, 0) =~= Seq::<BlockRec>::empty());
    }
}

proof fn lemma_sum_burn_prefix_bound(s: Seq<BlockRec>, i: int)
    requires
        0 <= i <= s.len(),
        forall|j: int| 0 <= j < s.len() ==> (#[trigger] s[j]).burn_amount >= 0,
    ensures
        sum_burn(s.subrange(0, i)) <= sum_burn(s),
        sum_burn(s.subrange(0, i)) >= 0,
    decreases s.len() - i,
{
    if i == s.len() {
        assert(s.subrange(0, i) =~= s);
        lemma_sum_burn_nonneg(s, i);
    } else {
        lemma_sum_burn_step(s, i);
        lemma_sum_burn_prefix_bound(s, i + 1);
        lemma_sum_burn_nonneg(s, i);
    }
}

/// One more row adds its count when it falls on the day.
proof fn lemma_sum_day_step(s: Seq<BlockRec>, day: int, i: int)
    requires
        0 <= i < s.len(),
    ensures
        sum_tx_counts_on_day(s.subrange(0, i + 1), day) == sum_tx_counts_on_day(
            s.subrange(0, i),
            day,
        ) + if spec_day(s[i].time) == day {
            s[i].tx_count
        } else {
            0
        },
{
    assert(s.subrange(0, i + 1).drop_last() =~= s.subrange(0, i));
    assert(s.subrange(0, i + 1).last() == s[i]);
}

/// A day's sum never exceeds the total, with non-negative counts.
proof fn lemma_sum_day_bound(s: Seq<BlockRec>, day: int, i: int)
    requires
        0 <= i <= s.len(),
        forall|j: int| 0 <= j < s.len() ==> (#[trigger] s[j]).tx_count >= 0,
    ensures
        0 <= sum_tx_counts_on_day(s.subrange(0, i), day) <= sum_tx_counts(s.subrange(0, i)),
    decreases i,
{
    if i > 0 {
        lemma_sum_day_step(s, day, i - 1);
        lemma_sum_tx_step(s, i - 1);
        lemma_sum_day_bound(s, day, i - 1);
    } else {
        assert(s.subrange(0, 0) =~= Seq::<BlockRec>::empty());
    }
}

/// The calendar day a timestamp falls on, rounding toward minus infinity.
pub fn day_of(t: i64) -> (d: i64)
    ensures
        d as int == spec_day(t as int),
{
    proof {
        vstd::arithmetic::div_mod::lemma_div_is_ordered(i64::MIN as int, t as int, 86400);
        vstd::arithmetic::div_mod::lemma_div_is_ordered(t as int, i64::MAX as int, 86400);
        assert(i64::MIN as int / 86400 >= i64::MIN) by (nonlinear_arith);
        assert(i64::MAX as int / 86400 <= i64::MAX) by (nonlinear_arith);
    }
    match t.checked_div_euclid(86400) {
        Some(d) => d,
        None => 0,
    }
}

/// The sum of `burn_amount` over the block rows whose time falls on `day`.
pub open spec fn sum_burn_on_day(s: Seq<BlockRec>, day: int) -> int
    decreases s.len(),
{
    if s.len() == 0 {
        0
    } else {
        sum_burn_on_day(s.drop_last(), day) + if spec_day(s.last().time) == day {
            s.last().burn_amount
        } else {
            0
        }
    }
}

proof fn lemma_sum_burn_day_step(s: Seq<BlockRec>, day: int, i: int)
    requires
        0 <= i < s.len(),
    ensures
        sum_burn_on_day(s.subrange(0, i + 1), day) == sum_burn_on_day(s.subrange(0, i), day) + if spec_day(
            s[i].time,
        ) == day {
            s[i].burn_amount
        } else {
            0
        },
{
    assert(s.subrange(0, i + 1).drop_last() =~= s.subrange(0, i));
    assert(s.subrange(0, i + 1).last() == s[i]);
}

proof fn lemma_sum_burn_day_bound(s: Seq<BlockRec>, day: int, i: int)
    requires
        0 <= i <= s.len(),
        forall|j: int| 0 <= j < s.len() ==> (#[trigger] s[j]).burn_amount >= 0,
    ensures
        0 <= sum_burn_on_day(s.subrange(0, i), day) <= sum_burn(s.subrange(0, i)),
    decreases i,
{
    if i > 0 {
        lemma_sum_burn_day_step(s, day, i - 1);
        lemma_sum_burn_step(s, i - 1);
        lemma_sum_burn_day_bound(s, day, i - 1);
    } else {
        assert(s.subrange(0, 0) =~= Seq::<BlockRec>::empty());
    }
}

/// The timestamp differences the stats endpoint computes stay within the
/// machine's integer range.
pub open spec fn stats_times_fit(blocks: Seq<BlockRec>, now: int) -> bool {
    blocks.len() > 0 ==> {
        &&& i64::MIN <= now - blocks.last().time <= i64::MAX
        &&& (block_at(blocks, blocks.last().height - 1) is Some ==> i64::MIN <= blocks.last().time
            - block_at(blocks, blocks.last().height - 1).unwrap().time <= i64::MAX)
    }
}

/// Whether any stored block's producer timestamp falls on the day.
pub open spec fn spec_has_day(s: Seq<BlockRec>, day: int) -> bool {
    exists|i: int| 0 <= i < s.len() && spec_day((#[trigger] s[i]).time) == day
}

/// The first day of a trailing window of `span` days ending today,
/// clamped to the epoch: the chart series cover post-epoch days only.
pub open spec fn window_lo(today: int, span: int) -> int {
    if today - span >= 0 {
        today - span
    } else {
        0
    }
}

/// At most `n` points, oldest first.
pub open spec fn take_points(s: Seq<ChartPointV>, n: int) -> Seq<ChartPointV> {
    if n <= s.len() {
        s.take(n)
    } else {
        s
    }
}

/// The transaction chart series over days `d..=hi`: one point per day
/// that holds at least one block, labelled with the day of month,
/// valued with that day's transaction total.
pub open spec fn spec_tx_history(blocks: Seq<BlockRec>, d: int, hi: int) -> Seq<ChartPointV>
    decreases hi + 1 - d,
{
    if d > hi {
        Seq::empty()
    } else {
        let rest = spec_tx_history(blocks, d + 1, hi);
        if spec_has_day(blocks, d) {
            seq![
                ChartPointV { date: spec_day_label(d), value: sum_tx_counts_on_day(blocks, d) },
            ] + rest
        } else {
            rest
        }
    }
}

/// The burn chart series over days `d..=hi`: one point per day that
/// holds at least one block, labelled "Today" for the last day and
/// "month day" otherwise, valued with that day's burn total.
pub open spec fn spec_burn_history(blocks: Seq<BlockRec>, d: int, hi: int) -> Seq<ChartPointV>
    decreases hi + 1 - d,
{
    if d > hi {
        Seq::empty()
    } else {
        let rest = spec_burn_history(blocks, d + 1, hi);
        if spec_has_day(blocks, d) {
            seq![
                ChartPointV {
                    date: if d == hi {
                        "Today"@
                    } else {
                        spec_month_day_label(d)
                    },
                    value: sum_burn_on_day(blocks, d),
                },
            ] + rest
        } else {
            rest
        }
    }
}

/// Whether any block falls on the day.
fn has_day_exec(blocks: &Vec<StoredBlock>, day: i64) -> (r: bool)
    ensures
        r == spec_has_day(blocks.deep_view(), day as int),
{
    let n = blocks.len();
    let mut i: usize = 0;
    while i < n
        invariant
            n == blocks.len(),
            i <= n,
            forall|k: int|
                0 <= k < i ==> spec_day((#[trigger] blocks.deep_view()[k]).time) != day as int,
        decreases n - i,
    {
        if day_of(blocks[i].time) == day {
            assert(spec_day(blocks.deep_view()[i as int].time) == day as int);
            return true;
        }
        i = i + 1;
    }
    false
}

/// Sums the transaction counts of the blocks falling on the day.
fn sum_tx_on_day_exec(blocks: &Vec<StoredBlock>, day: i64) -> (r: u64)
    requires
        sum_tx_counts(blocks.deep_view()) <= u64::MAX,
    ensures
        r as int == sum_tx_counts_on_day(blocks.deep_view(), day as int),
{
    let n = blocks.len();
    let mut total: u64 = 0;
    let mut i: usize = 0;
    while i < n
        invariant
            n == blocks.len(),
            i <= n,
            total as int == sum_tx_counts_on_day(blocks.deep_view().subrange(0, i as int), day as int),
            sum_tx_counts(blocks.deep_view()) <= u64::MAX,
        decreases n - i,
    {
        proof {
            lemma_sum_day_step(blocks.deep_view(), day as int, i as int);
            lemma_sum_day_bound(blocks.deep_view(), day as int, i as int + 1);
            lemma_sum_tx_prefix_bound(blocks.deep_view(), i as int + 1);
        }
        if day_of(blocks[i].time) == day {
            total = total + blocks[i].tx_count as u64;
        }
        i = i + 1;
    }
    proof {
        assert(blocks.deep_view().subrange(0, n as int) =~= blocks.deep_view());
    }
    total
}

/// Sums the burn amounts of the blocks falling on the day.
fn sum_burn_on_day_exec(blocks: &Vec<StoredBlock>, day: i64) -> (r: u64)
    requires
        sum_burn(blocks.deep_view()) <= u64::MAX,
    ensures
        r as int == sum_burn_on_day(blocks.deep_view(), day as int),
{
    let n = blocks.len();
    let mut total: u64 = 0;
    let mut i: usize = 0;
    while i < n
        invariant
            n == blocks.len(),
            i <= n,
            total as int == sum_burn_on_day(blocks.deep_view().subrange(0, i as int), day as int),
            sum_burn(blocks.deep_view()) <= u64::MAX,
        decreases n - i,
    {
        proof {
            lemma_sum_burn_day_step(blocks.deep_view(), day as int, i as int);
            lemma_sum_burn_day_bound(blocks.deep_view(), day as int, i as int + 1);
            lemma_sum_burn_prefix_bound(blocks.deep_view(), i as int + 1);
        }
        if day_of(blocks[i].time) == day {
            total = total + blocks[i].burn_amount;
        }
        i = i + 1;
    }
    proof {
        assert(blocks.deep_view().subrange(0, n as int) =~= blocks.deep_view());
    }
    total
}

/// Height and producer timestamp of one block, for timing statistics.
#[derive(Debug)]
pub struct BlockTimingInfo {
    pub height: u64,
    pub timestamp: i64,
}

/// The aggregate queries the stats endpoint issues against the store.
pub struct StatsQueries;

impl StatsQueries {
    /// Timing of the latest indexed block; `None` on an empty store.
    pub fn get_latest_block_timing(store: &Store) -> (r: Option<BlockTimingInfo>)
        requires
            store.wf(),
        ensures
            match r {
                None => store@.blocks.len() == 0,
                Some(info) => store@.blocks.len() > 0 && info.height as int
                    == store@.blocks.last().height && info.timestamp as int
                    == store@.blocks.last().time,
            },
    {
        let blocks = store.blocks();
        let n = blocks.len();
        if n == 0 {
            None
        } else {
            let b = &blocks[n - 1];
            Some(BlockTimingInfo { height: b.height, timestamp: b.time })
        }
    }

    /// Timing of the block one height below the given one; `None` when
    /// that block is not stored.
    pub fn get_previous_block_timing(store: &Store, height: u64) -> (r: Option<BlockTimingInfo>)
        requires
            store.wf(),
        ensures
            match r {
                None => height == 0 || block_at(store@.blocks, height - 1) is None,
                Some(info) => height >= 1 && {
                    let b = block_at(store@.blocks, height - 1);
                    b is Some && info.height as int == b.unwrap().height && info.timestamp as int
                        == b.unwrap().time
                },
            },
    {
        if height == 0 {
            return None;
        }
        match store.get_block_by_height(height - 1) {
            Some(b) => Some(BlockTimingInfo { height: b.height, timestamp: b.time }),
            None => None,
        }
    }

    /// The total number of transactions across all stored blocks: the
    /// sum of the blocks' transaction counts.
    pub fn get_total_transactions(store: &Store) -> (r: u64)
        requires
            store.wf(),
            sum_tx_counts(store@.blocks) <= u64::MAX,
        ensures
            r as int == sum_tx_counts(store@.blocks),
    {
        let blocks = store.blocks();
        let n = blocks.len();
        let mut total: u64 = 0;
        let mut i: usize = 0;
        while i < n
            invariant
                n == blocks.len(),
                blocks.deep_view() == store@.blocks,
                i <= n,
                total as int == sum_tx_counts(store@.blocks.subrange(0, i as int)),
                sum_tx_counts(store@.blocks) <= u64::MAX,
            decreases n - i,
        {
            proof {
                lemma_sum_tx_step(store@.blocks, i as int);
                lemma_sum_tx_prefix_bound(store@.blocks, i as int + 1);
            }
            total = total + blocks[i].tx_count as u64;
            i = i + 1;
        }
        proof {
            assert(store@.blocks.subrange(0, n as int) =~= store@.blocks);
        }
        total
    }

    /// The number of transactions in blocks whose producer timestamp
    /// falls on the same calendar day as `now`.
    pub fn get_today_transactions(store: &Store, now: i64) -> (r: u64)
        requires
            store.wf(),
            sum_tx_counts(store@.blocks) <= u64::MAX,
        ensures
            r as int == sum_tx_counts_on_day(store@.blocks, spec_day(now as int)),
    {
        let today = day_of(now);
        let blocks = store.blocks();
        let n = blocks.len();
        let mut total: u64 = 0;
        let mut i: usize = 0;
        while i < n
            invariant
                n == blocks.len(),
                blocks.deep_view() == store@.blocks,
                i <= n,
                today as int == spec_day(now as int),
                total as int == sum_tx_counts_on_day(
                    store@.blocks.subrange(0, i as int),
                    today as int,
                ),
                sum_tx_counts(store@.blocks) <= u64::MAX,
            decreases n - i,
        {
            proof {
                lemma_sum_day_step(store@.blocks, today as int, i as int);
                lemma_sum_day_bound(store@.blocks, today as int, i as int + 1);
                lemma_sum_tx_prefix_bound(store@.blocks, i as int + 1);
            }
            if day_of(blocks[i].time) == today {
                total = total + blocks[i].tx_count as u64;
            }
            i = i + 1;
        }
        proof {
            assert(store@.blocks.subrange(0, n as int) =~= store@.blocks);
        }
        total
    }

    /// The total amount burned across all stored blocks: the sum of the
    /// blocks' burn amounts.
    pub fn get_total_burn(store: &Store) -> (r: u64)
        requires
            store.wf(),
            sum_burn(store@.blocks) <= u64::MAX,
        ensures
            r as int == sum_burn(store@.blocks),
    {
        let blocks = store.blocks();
        let n = blocks.len();
        let mut total: u64 = 0;
        let mut i: usize = 0;
        while i < n
            invariant
                n == blocks.len(),
                blocks.deep_view() == store@.blocks,
                i <= n,
                total as int == sum_burn(store@.blocks.subrange(0, i as int)),
                sum_burn(store@.blocks) <= u64::MAX,
            decreases n - i,
        {
            proof {
                lemma_sum_burn_step(store@.blocks, i as int);
                lemma_sum_burn_prefix_bound(store@.blocks, i as int + 1);
            }
            total = total + blocks[i].burn_amount;
            i = i + 1;
        }
        proof {
            assert(store@.blocks.subrange(0, n as int) =~= store@.blocks);
        }
        total
    }

    /// Per-day transaction totals for the trailing twenty-day window:
    /// one point per day that holds a block, oldest first, at most
    /// twenty points.
    pub fn get_transaction_history(store: &Store, now: i64) -> (r: Vec<ChartPoint>)
        requires
            store.wf(),
            sum_tx_counts(store@.blocks) <= i64::MAX,
        ensures
            r.deep_view() == take_points(
                spec_tx_history(
                    store@.blocks,
                    window_lo(spec_day(now as int), 20),
                    spec_day(now as int),
                ),
                20,
            ),
    {
        let today = day_of(now);
        let lo: i64 = if today >= 20 {
            today - 20
        } else {
            0
        };
        let blocks = store.blocks();
        let mut r: Vec<ChartPoint> = Vec::new();
        assert(r.deep_view() =~= Seq::<ChartPointV>::empty());
        let mut d: i64 = lo;
        while d <= today
            invariant
                blocks.deep_view() == store@.blocks,
                today as int == spec_day(now as int),
                lo as int == window_lo(today as int, 20),
                lo <= d,
                sum_tx_counts(store@.blocks) <= i64::MAX,
                spec_tx_history(store@.blocks, lo as int, today as int) =~= r.deep_view()
                    + spec_tx_history(store@.blocks, d as int, today as int),
            decreases today + 1 - d,
        {
            if has_day_exec(blocks, d) {
                let label = day_label(d);
                let v = sum_tx_on_day_exec(blocks, d);
                proof {
                    lemma_sum_day_bound(store@.blocks, d as int, store@.blocks.len() as int);
                    assert(store@.blocks.subrange(0, store@.blocks.len() as int)
                        =~= store@.blocks);
                }
                let ghost pre = r.deep_view();
                let pt = ChartPoint { date: label, value: v as i64 };
                let ghost ptv = pt@;
                r.push(pt);
                proof {
                    assert(r.deep_view() =~= pre.push(ptv));
                    assert(pre.push(ptv) =~= pre + seq![ptv]);
                }
            }
            d = d + 1;
        }
        proof {
            assert(spec_tx_history(store@.blocks, d as int, today as int)
                =~= Seq::<ChartPointV>::empty());
            assert(r.deep_view() =~= spec_tx_history(store@.blocks, lo as int, today as int));
        }
        let total = r.len();
        let ghost full = r.deep_view();
        if total > 20 {
            r.truncate(20);
            proof {
                assert(r.deep_view() =~= full.take(20));
            }
        } else {
            proof {
                assert(r.deep_view() =~= full);
            }
        }
        r
    }

    /// Per-day burn totals for the trailing thirty-day window: one point
    /// per day that holds a block, oldest first, at most three points;
    /// the current day is labelled "Today".
    pub fn get_burn_history(store: &Store, now: i64) -> (r: Vec<ChartPoint>)
        requires
            store.wf(),
            sum_burn(store@.blocks) <= i64::MAX,
        ensures
            r.deep_view() == take_points(
                spec_burn_history(
                    store@.blocks,
                    window_lo(spec_day(now as int), 30),
                    spec_day(now as int),
                ),
                3,
            ),
    {
        let today = day_of(now);
        let lo: i64 = if today >= 30 {
            today - 30
        } else {
            0
        };
        let blocks = store.blocks();
        let mut r: Vec<ChartPoint> = Vec::new();
        assert(r.deep_view() =~= Seq::<ChartPointV>::empty());
        let mut d: i64 = lo;
        while d <= today
            invariant
                blocks.deep_view() == store@.blocks,
                today as int == spec_day(now as int),
                lo as int == window_lo(today as int, 30),
                lo <= d,
                sum_burn(store@.blocks) <= i64::MAX,
                spec_burn_history(store@.blocks, lo as int, today as int) =~= r.deep_view()
                    + spec_burn_history(store@.blocks, d as int, today as int),
            decreases today + 1 - d,
        {
            if has_day_exec(blocks, d) {
                let label = if d == today {
                    String::from_str("Today")
                } else {
                    month_day_label(d)
                };
                let v = sum_burn_on_day_exec(blocks, d);
                proof {
                    lemma_sum_burn_day_bound(store@.blocks, d as int, store@.blocks.len() as int);
                    assert(store@.blocks.subrange(0, store@.blocks.len() as int)
                        =~= store@.blocks);
                }
                let ghost pre = r.deep_view();
                let pt = ChartPoint { date: label, value: v as i64 };
                let ghost ptv = pt@;
                r.push(pt);
                proof {
                    assert(r.deep_view() =~= pre.push(ptv));
                    assert(pre.push(ptv) =~= pre + seq![ptv]);
                }
            }
            d = d + 1;
        }
        proof {
            assert(spec_burn_history(store@.blocks, d as int, today as int)
                =~= Seq::<ChartPointV>::empty());
            assert(r.deep_view() =~= spec_burn_history(store@.blocks, lo as int, today as int));
        }
        let total = r.len();
        let ghost full = r.deep_view();
        if total > 3 {
            r.truncate(3);
            proof {
                assert(r.deep_view() =~= full.take(3));
            }
        } else {
            proof {
                assert(r.deep_view() =~= full);
            }
        }
        r
    }
}

/// Mathematical model of one chart point.
pub struct ChartPointV {
    pub date: Seq<char>,
    pub value: int,
}

/// One point of a historical series: a date label and a value.
#[derive(Debug)]
pub struct ChartPoint {
    /// Date label for the data point.
    pub date: String,
    /// Value for the data point.
    pub value: i64,
}

impl View for ChartPoint {
    type V = ChartPointV;

    open spec fn view(&self) -> ChartPointV {
        ChartPointV { date: self.date@, value: self.value as int }
    }
}

impl DeepView for ChartPoint {
    type V = ChartPointV;

    open spec fn deep_view(&self) -> ChartPointV {
        self@
    }
}

/// Timing of the chain tip as the stats endpoint reports it.
#[derive(Debug)]
pub struct CurrentBlockStats {
    /// Current blockchain height.
    pub height: u64,
    /// Seconds between the latest block and its predecessor, rendered.
    pub block_time: String,
    /// Seconds since the latest block arrived, rendered.
    pub received_new: String,
}

impl CurrentBlockStats {
    pub fn new(height: u64, block_time: String, received_new: String) -> (r: Self)
        ensures
            r.height == height,
            r.block_time == block_time,
            r.received_new == received_new,
    {
        Self { height, block_time, received_new }
    }
}

/// Transaction totals as the stats endpoint reports them.
#[derive(Debug)]
pub struct TransactionStats {
    /// Total number of transactions.
    pub count: u64,
    /// Number of transactions added today.
    pub new_today: u64,
    /// Historical transaction data for charting.
    pub history: Vec<ChartPoint>,
}

impl TransactionStats {
    pub fn new(count: u64, new_today: u64, history: Vec<ChartPoint>) -> (r: Self)
        ensures
            r.count == count,
            r.new_today == new_today,
            r.history == history,
    {
        Self { count, new_today, history }
    }
}

/// Burn totals as the stats endpoint reports them.
#[derive(Debug)]
pub struct BurnStats {
    /// Total amount burned, rendered with the chain's token suffix.
    pub amount: String,
    /// Historical burn data for charting.
    pub history: Vec<ChartPoint>,
}

impl BurnStats {
    pub fn new(amount: u64, history: Vec<ChartPoint>) -> (r: Self)
        ensures
            r.amount@ == spec_decimal(amount as nat) + " UM"@,
            r.history == history,
    {
        let mut s = u64_to_string(amount);
        s.append(" UM");
        Self { amount: s, history }
    }
}

/// The whole stats response.
#[derive(Debug)]
pub struct StatsResponse {
    /// Current block information.
    pub current_block: CurrentBlockStats,
    /// Transaction statistics.
    pub total_transactions: TransactionStats,
    /// Token burn statistics.
    pub total_burn: BurnStats,
}

impl StatsResponse {
    pub fn new(
        current_block: CurrentBlockStats,
        total_transactions: TransactionStats,
        total_burn: BurnStats,
    ) -> (r: Self)
        ensures
            r.current_block == current_block,
            r.total_transactions == total_transactions,
            r.total_burn == total_burn,
    {
        Self { current_block, total_transactions, total_burn }
    }
}

} // verus!
