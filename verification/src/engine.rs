//! The synchronization engine: how one fetched block becomes stored
//! rows, and how a backfill pass sweeps a height range in batches.
//!
//! Processing a height derives the block's summary fields (transaction
//! count, burn total, previous-block hash), upserts the block row, and
//! records one transaction row per contained transaction under a hash
//! derived from the block hash and the transaction's position. A failed
//! height is skipped, never retried within the pass: idempotent upserts
//! make a later pass heal the gap.

use vstd::prelude::*;

use crate::classify::TxClassifier;
use crate::payload::{spec_txs_of, BlockPayload, PayloadV};
use crate::records::{BlockRec, StoredBlock, TxRec};
use crate::store::{
    block_at, has_tx, insert_tx, upsert_seq, Store, StoreV,
};
use crate::text::{lemma_decimal_injective, spec_decimal, u64_to_string};

verus! {

/// The transaction identifier the engine derives for the transaction at
/// `index` of the block with hash `block_hash`.
pub open spec fn spec_tx_hash(block_hash: Seq<char>, index: nat) -> Seq<char> {
    block_hash + seq!['_'] + spec_decimal(index)
}

/// Within one block, derived transaction identifiers never collide.
pub proof fn lemma_tx_hash_injective(h: Seq<char>, i: nat, j: nat)
    requires
        spec_tx_hash(h, i) == spec_tx_hash(h, j),
    ensures
        i == j,
{
    let a = spec_tx_hash(h, i);
    let b = spec_tx_hash(h, j);
    assert(a.len() == h.len() + 1 + spec_decimal(i).len());
    assert(b.len() == h.len() + 1 + spec_decimal(j).len());
    assert(spec_decimal(i) =~= a.subrange(h.len() as int + 1, a.len() as int));
    assert(spec_decimal(j) =~= b.subrange(h.len() as int + 1, b.len() as int));
    lemma_decimal_injective(i, j);
}

/// Derives the stored identifier of one transaction.
pub fn derive_tx_hash(block_hash: &String, index: u64) -> (r: String)
    ensures
        r@ == spec_tx_hash(block_hash@, index as nat),
{
    let mut r = block_hash.clone();
    r.append("_");
    let digits = u64_to_string(index);
    r.append(digits.as_str());
    proof {
        reveal_strlit("_");
        assert(r@ =~= spec_tx_hash(block_hash@, index as nat));
    }
    r
}

/// The burn total a classifier derives from a block's transactions.
pub open spec fn spec_burn_total<C: TxClassifier>(c: &C, txs: Seq<Seq<char>>) -> nat
    decreases txs.len(),
{
    if txs.len() == 0 {
        0
    } else {
        spec_burn_total(c, txs.drop_last()) + c.classify_spec(txs.last()).burn
    }
}

/// One more transaction adds its burn contribution.
proof fn lemma_burn_step<C: TxClassifier>(c: &C, txs: Seq<Seq<char>>, i: int)
    requires
        0 <= i < txs.len(),
    ensures
        spec_burn_total(c, txs.subrange(0, i + 1)) == spec_burn_total(c, txs.subrange(0, i))
            + c.classify_spec(txs[i]).burn,
{
    assert(txs.subrange(0, i + 1).drop_last() =~= txs.subrange(0, i));
    assert(txs.subrange(0, i + 1).last() == txs[i]);
}

/// A prefix never burns more than the whole block.
proof fn lemma_burn_prefix_bound<C: TxClassifier>(c: &C, txs: Seq<Seq<char>>, i: int)
    requires
        0 <= i <= txs.len(),
    ensures
        spec_burn_total(c, txs.subrange(0, i)) <= spec_burn_total(c, txs),
    decreases txs.len() - i,
{
    if i == txs.len() {
        assert(txs.subrange(0, i) =~= txs);
    } else {
        lemma_burn_step(c, txs, i);
        lemma_burn_prefix_bound(c, txs, i + 1);
    }
}

/// The block row the engine derives for a fetched block.
pub open spec fn spec_block_row<C: TxClassifier>(c: &C, height: int, p: PayloadV, now: int) -> BlockRec {
    BlockRec {
        height: height,
        time: p.time,
        hash: p.hash,
        proposer_address: p.proposer_address,
        tx_count: spec_txs_of(p).len() as int,
        previous_block_hash: p.prev_hash,
        burn_amount: spec_burn_total(c, spec_txs_of(p)) as int,
        data: p.raw,
        created_at: now,
    }
}

/// The transaction row the engine derives for position `k` of a block.
/// The store assigns the row id on insertion.
pub open spec fn spec_tx_row<C: TxClassifier>(
    c: &C,
    height: int,
    time: int,
    block_hash: Seq<char>,
    txs: Seq<Seq<char>>,
    k: int,
    now: int,
) -> TxRec {
    TxRec {
        id: 0,
        tx_hash: spec_tx_hash(block_hash, k as nat),
        block_height: height,
        time: time,
        action_type: c.classify_spec(txs[k]).action_type,
        amount: c.classify_spec(txs[k]).amount,
        data: txs[k],
        created_at: now,
    }
}

/// The transaction rows after inserting positions `0..upto` in order.
pub open spec fn spec_insert_txs<C: TxClassifier>(
    c: &C,
    s: Seq<TxRec>,
    height: int,
    time: int,
    block_hash: Seq<char>,
    txs: Seq<Seq<char>>,
    now: int,
    upto: int,
) -> Seq<TxRec>
    decreases upto,
{
    if upto <= 0 {
        s
    } else {
        insert_tx(
            spec_insert_txs(c, s, height, time, block_hash, txs, now, upto - 1),
            spec_tx_row(c, height, time, block_hash, txs, upto - 1, now),
        )
    }
}

/// The store state after processing one fetched block at a height.
pub open spec fn spec_process<C: TxClassifier>(
    c: &C,
    s: StoreV,
    height: int,
    p: PayloadV,
    now: int,
) -> StoreV {
    StoreV {
        blocks: upsert_seq(s.blocks, spec_block_row(c, height, p, now)),
        txs: spec_insert_txs(
            c,
            s.txs,
            height,
            p.time,
            p.hash,
            spec_txs_of(p),
            now,
            spec_txs_of(p).len() as int,
        ),
    }
}

/// A payload the engine can process without arithmetic overflow: its
/// transaction count fits the stored counter and its burn total fits the
/// stored amount.
pub open spec fn payload_fits<C: TxClassifier>(c: &C, p: PayloadV) -> bool {
    &&& spec_txs_of(p).len() <= u32::MAX
    &&& spec_burn_total(c, spec_txs_of(p)) <= u64::MAX
}

/// Processes one fetched block: derives the summary fields, upserts the
/// block row, and records each contained transaction.
pub fn process_block<C: TxClassifier>(
    store: &mut Store,
    classifier: &C,
    height: u64,
    payload: &BlockPayload,
    now: i64,
)
    requires
        old(store).wf(),
        payload_fits(classifier, payload@),
    ensures
        final(store).wf(),
        final(store)@ == spec_process(classifier, old(store)@, height as int, payload@, now as int),
{
    let empty: Vec<String> = Vec::new();
    let txs: &Vec<String> = match &payload.data.txs {
        Some(v) => v,
        None => &empty,
    };
    proof {
        assert(empty.deep_view() =~= Seq::<Seq<char>>::empty());
        assert(txs.deep_view() == spec_txs_of(payload@));
    }
    let ghost gtxs = spec_txs_of(payload@);
    let n = txs.len();

    let mut burn: u64 = 0;
    let mut i: usize = 0;
    while i < n
        invariant
            n == txs.len(),
            txs.deep_view() == gtxs,
            i <= n,
            burn as nat == spec_burn_total(classifier, gtxs.subrange(0, i as int)),
            spec_burn_total(classifier, gtxs) <= u64::MAX,
        decreases n - i,
    {
        let c = classifier.classify(txs[i].as_str());
        proof {
            lemma_burn_step(classifier, gtxs, i as int);
            lemma_burn_prefix_bound(classifier, gtxs, i as int + 1);
        }
        burn = burn + c.burn;
        i = i + 1;
    }
    proof {
        assert(gtxs.subrange(0, n as int) =~= gtxs);
    }

    let row = StoredBlock {
        height,
        time: payload.time,
        hash: payload.block_id.hash.clone(),
        proposer_address: payload.proposer_address.clone(),
        tx_count: n as u32,
        previous_block_hash: match &payload.last_block_id {
            Some(id) => Some(id.hash.clone()),
            None => None,
        },
        burn_amount: burn,
        data: payload.raw.clone(),
        created_at: now,
    };
    let ghost rowv = row@;
    proof {
        assert(rowv == spec_block_row(classifier, height as int, payload@, now as int));
    }
    store.upsert_block(row);
    proof {
        crate::store::lemma_block_at_upsert(old(store)@.blocks, rowv);
        assert(block_at(store@.blocks, height as int) == Some(rowv));
    }

    let mut k: usize = 0;
    while k < n
        invariant
            n == txs.len(),
            txs.deep_view() == gtxs,
            gtxs == spec_txs_of(payload@),
            k <= n,
            store.wf(),
            store@.blocks == upsert_seq(old(store)@.blocks, rowv),
            rowv == spec_block_row(classifier, height as int, payload@, now as int),
            block_at(store@.blocks, height as int) == Some(rowv),
            store@.txs == spec_insert_txs(
                classifier,
                old(store)@.txs,
                height as int,
                payload@.time,
                payload@.hash,
                gtxs,
                now as int,
                k as int,
            ),
        decreases n - k,
    {
        let cl = classifier.classify(txs[k].as_str());
        let tx_hash = derive_tx_hash(&payload.block_id.hash, k as u64);
        let data_k = txs[k].clone();
        store.insert_transaction(
            tx_hash,
            height,
            payload.time,
            cl.action_type,
            cl.amount,
            data_k,
            now,
        );
        k = k + 1;
    }
}

/// Why a height could not be processed this pass: the node was
/// unreachable or timed out, its response did not decode, or it does not
/// have the height.
#[derive(Clone, Copy, Debug, PartialEq, Eq, Structural)]
pub enum ChainError {
    Transport,
    Decode,
    NotFound,
}

/// What one fetch attempt produced.
#[derive(Debug)]
pub enum FetchOutcome {
    /// The height's block, decoded.
    Block(BlockPayload),
    /// The height could not be fetched this pass.
    Failed(ChainError),
}

impl View for FetchOutcome {
    type V = Option<PayloadV>;

    open spec fn view(&self) -> Option<PayloadV> {
        match self {
            FetchOutcome::Block(p) => Some(p@),
            FetchOutcome::Failed(_) => None,
        }
    }
}

impl DeepView for FetchOutcome {
    type V = Option<PayloadV>;

    open spec fn deep_view(&self) -> Option<PayloadV> {
        self@
    }
}

/// The store state after one pass over heights `start..start + k`, where
/// `rs[j]` is what fetching height `start + j` produced: a fetched height
/// is processed, a failed one is skipped.
pub open spec fn run_pass<C: TxClassifier>(
    c: &C,
    s: StoreV,
    start: int,
    rs: Seq<Option<PayloadV>>,
    now: int,
    k: int,
) -> StoreV
    decreases k,
{
    if k <= 0 {
        s
    } else {
        let prev = run_pass(c, s, start, rs, now, k - 1);
        match rs[k - 1] {
            Some(p) => spec_process(c, prev, start + k - 1, p, now),
            None => prev,
        }
    }
}

/// Every payload of a pass fits the stored counters.
pub open spec fn responses_fit<C: TxClassifier>(c: &C, rs: Seq<Option<PayloadV>>) -> bool {
    forall|j: int|
        0 <= j < rs.len() ==> match #[trigger] rs[j] {
            Some(p) => payload_fits(c, p),
            None => true,
        }
}

/// How many batches a pass over `[a, b]` issues with batch size `k`:
/// the range's length divided by `k`, rounded up.
pub open spec fn spec_batch_count(a: int, b: int, k: int) -> int {
    (b - a + k) / k
}

/// The first height of batch `i`.
pub open spec fn spec_batch_lo(a: int, k: int, i: int) -> int {
    a + i * k
}

/// The last height of batch `i`: a full batch except when the range ends
/// first.
pub open spec fn spec_batch_hi(a: int, b: int, k: int, i: int) -> int {
    if a + i * k + (k - 1) <= b {
        a + i * k + (k - 1)
    } else {
        b
    }
}

/// Monotonic batch progress: a pass over `[a, b]` with batch size `k`
/// issues exactly `ceil((b - a + 1) / k)` batches; the first starts at
/// `a`, the last ends at `b`, consecutive batches are contiguous and
/// never overlap, and every batch except the final partial one covers
/// exactly `k` heights.
pub proof fn lemma_batches_partition(a: int, b: int, k: int)
    requires
        a <= b,
        k >= 1,
    ensures
        spec_batch_count(a, b, k) == ((b - a + 1) + (k - 1)) / k,
        spec_batch_count(a, b, k) >= 1,
        spec_batch_lo(a, k, 0) == a,
        spec_batch_hi(a, b, k, spec_batch_count(a, b, k) - 1) == b,
        forall|i: int|
            0 <= i < spec_batch_count(a, b, k) ==> spec_batch_lo(a, k, i) <= #[trigger] spec_batch_hi(a, b, k, i),
        forall|i: int|
            0 <= i < spec_batch_count(a, b, k) - 1 ==> #[trigger] spec_batch_hi(a, b, k, i)
                == spec_batch_lo(a, k, i) + (k - 1),
        forall|i: int|
            0 <= i < spec_batch_count(a, b, k) - 1 ==> #[trigger] spec_batch_lo(a, k, i + 1)
                == spec_batch_hi(a, b, k, i) + 1,
        forall|i: int|
            0 <= i < spec_batch_count(a, b, k) ==> #[trigger] spec_batch_hi(a, b, k, i)
                - spec_batch_lo(a, k, i) < k,
{
    let m = b - a + 1;
    let n = spec_batch_count(a, b, k);
    assert(n == (m + (k - 1)) / k);
    assert(n * k == (m + (k - 1)) / k * k);
    vstd::arithmetic::div_mod::lemma_fundamental_div_mod(m + (k - 1), k);
    vstd::arithmetic::div_mod::lemma_mod_bound(m + (k - 1), k);
    assert(m + (k - 1) == k * n + (m + (k - 1)) % k);
    assert(m <= n * k <= m + (k - 1)) by (nonlinear_arith)
        requires
            m + (k - 1) == k * n + (m + (k - 1)) % k,
            0 <= (m + (k - 1)) % k < k,
    ;
    assert(n >= 1) by (nonlinear_arith)
        requires
            m >= 1,
            k >= 1,
            m <= n * k,
    ;
    assert forall|i: int| 0 <= i < n implies spec_batch_lo(a, k, i) <= #[trigger] spec_batch_hi(
        a,
        b,
        k,
        i,
    ) by {
        assert(i * k <= (n - 1) * k <= n * k - k) by (nonlinear_arith)
            requires
                i <= n - 1,
                k >= 1,
        ;
        assert(a + i * k <= b);
    }
    assert forall|i: int| 0 <= i < n - 1 implies #[trigger] spec_batch_hi(a, b, k, i)
        == spec_batch_lo(a, k, i) + (k - 1) by {
        assert(i * k + k <= m - 1) by (nonlinear_arith)
            requires
                i <= n - 2,
                k >= 1,
                n * k <= m + (k - 1),
        ;
        assert(a + i * k + (k - 1) <= b);
    }
    assert forall|i: int| 0 <= i < n - 1 implies #[trigger] spec_batch_lo(a, k, i + 1)
        == spec_batch_hi(a, b, k, i) + 1 by {
        assert((i + 1) * k == i * k + k) by (nonlinear_arith);
    }
    assert forall|i: int| 0 <= i < n implies #[trigger] spec_batch_hi(a, b, k, i) - spec_batch_lo(
        a,
        k,
        i,
    ) < k by {
    }
    assert(spec_batch_hi(a, b, k, n - 1) == b) by {
        assert((n - 1) * k == n * k - k) by (nonlinear_arith);
        assert(a + (n - 1) * k + (k - 1) >= b);
    }
}

/// Runs one backfill pass over `[start, end]` in batches: each height is
/// attempted once in increasing order; a fetched height is processed and
/// a failed one is skipped, to be healed by a later pass.
pub fn backfill_range<C: TxClassifier>(
    store: &mut Store,
    classifier: &C,
    responses: &Vec<FetchOutcome>,
    start: u64,
    end: u64,
    batch_size: u64,
    now: i64,
)
    requires
        old(store).wf(),
        start <= end,
        end < u64::MAX,
        batch_size >= 1,
        responses.deep_view().len() == end - start + 1,
        responses_fit(classifier, responses.deep_view()),
    ensures
        final(store).wf(),
        final(store)@ == run_pass(
            classifier,
            old(store)@,
            start as int,
            responses.deep_view(),
            now as int,
            end - start + 1,
        ),
{
    let ghost rs = responses.deep_view();
    let mut current: u64 = start;
    let ghost mut batch_idx: int = 0;
    while current <= end
        invariant
            store.wf(),
            start <= current,
            current <= end + 1,
            end < u64::MAX,
            batch_size >= 1,
            rs == responses.deep_view(),
            rs.len() == end - start + 1,
            responses_fit(classifier, rs),
            store@ == run_pass(classifier, old(store)@, start as int, rs, now as int, current - start),
            batch_idx >= 0,
            current <= end ==> current as int == spec_batch_lo(start as int, batch_size as int, batch_idx),
        decreases end - current + 1,
    {
        let batch_end: u64 = if end - current >= batch_size - 1 {
            current + (batch_size - 1)
        } else {
            end
        };
        assert(batch_end as int == spec_batch_hi(start as int, end as int, batch_size as int, batch_idx));
        let mut h: u64 = current;
        while h <= batch_end
            invariant
                store.wf(),
                start <= current,
                current <= h,
                h <= batch_end + 1,
                batch_end <= end,
                end < u64::MAX,
                rs == responses.deep_view(),
                rs.len() == end - start + 1,
                responses_fit(classifier, rs),
                store@ == run_pass(classifier, old(store)@, start as int, rs, now as int, h - start),
            decreases batch_end - h + 1,
        {
            let rlen = responses.len();
            assert(rlen as int == rs.len());
            assert(h - start < rlen as u64);
            let idx = (h - start) as usize;
            assert(idx as int == h as int - start as int);
            match &responses[idx] {
                FetchOutcome::Block(p) => {
                    assert(rs[idx as int] == Some(p@));
                    process_block(store, classifier, h, p, now);
                },
                FetchOutcome::Failed(_) => {
                    assert(rs[idx as int] is None);
                },
            }
            proof {
                let k = h - start + 1;
                assert(run_pass(classifier, old(store)@, start as int, rs, now as int, k) == store@);
            }
            h = h + 1;
        }
        proof {
            assert((batch_idx + 1) * batch_size as int == batch_idx * batch_size as int
                + batch_size as int) by (nonlinear_arith);
            batch_idx = batch_idx + 1;
        }
        current = batch_end + 1;
    }
}

/// Backfill completeness under retry: a height whose fetch failed in one
/// pass and succeeded in the next holds the row derived from the second
/// pass's payload once that pass is done, whatever else either pass did.
pub proof fn lemma_run_pass_blocks<C: TxClassifier>(
    c: &C,
    s: StoreV,
    start: int,
    rs: Seq<Option<PayloadV>>,
    now: int,
    k: int,
)
    requires
        0 <= k <= rs.len(),
    ensures
        forall|j: int|
            0 <= j < k && rs[j] is Some ==> block_at(
                run_pass(c, s, start, rs, now, k).blocks,
                start + j,
            ) == Some(spec_block_row(c, start + j, rs[j].unwrap(), now)),
        forall|j: int|
            0 <= j < k && rs[j] is None ==> block_at(
                run_pass(c, s, start, rs, now, k).blocks,
                start + j,
            ) == block_at(s.blocks, start + j),
        forall|h: int|
            (h < start || h >= start + k) ==> block_at(run_pass(c, s, start, rs, now, k).blocks, h)
                == block_at(s.blocks, h),
    decreases k,
{
    if k > 0 {
        lemma_run_pass_blocks(c, s, start, rs, now, k - 1);
        let prev = run_pass(c, s, start, rs, now, k - 1);
        match rs[k - 1] {
            Some(p) => {
                crate::store::lemma_block_at_upsert(prev.blocks, spec_block_row(c, start + k - 1, p, now));
            },
            None => {},
        }
    }
}

/// The law of healing passes: given two successive backfill passes over
/// the same range, any height the first pass failed to fetch but the
/// second fetched is present and correct after the second pass.
pub proof fn lemma_backfill_retry<C: TxClassifier>(
    c: &C,
    s: StoreV,
    start: int,
    rs1: Seq<Option<PayloadV>>,
    rs2: Seq<Option<PayloadV>>,
    now1: int,
    now2: int,
    j: int,
)
    requires
        rs1.len() == rs2.len(),
        0 <= j < rs2.len(),
        rs2[j] is Some,
    ensures
        block_at(
            run_pass(
                c,
                run_pass(c, s, start, rs1, now1, rs1.len() as int),
                start,
                rs2,
                now2,
                rs2.len() as int,
            ).blocks,
            start + j,
        ) == Some(spec_block_row(c, start + j, rs2[j].unwrap(), now2)),
{
    let s1 = run_pass(c, s, start, rs1, now1, rs1.len() as int);
    lemma_run_pass_blocks(c, s1, start, rs2, now2, rs2.len() as int);
}

/// The rows processing appends for positions `0..upto`, with the ids the
/// store assigns when the table already holds `s_len` rows.
pub open spec fn spec_tx_rows<C: TxClassifier>(
    c: &C,
    s_len: int,
    height: int,
    time: int,
    block_hash: Seq<char>,
    txs: Seq<Seq<char>>,
    now: int,
    upto: int,
) -> Seq<TxRec> {
    Seq::new(
        upto as nat,
        |k: int|
            TxRec {
                id: s_len + k,
                tx_hash: spec_tx_hash(block_hash, k as nat),
                block_height: height,
                time: time,
                action_type: c.classify_spec(txs[k]).action_type,
                amount: c.classify_spec(txs[k]).amount,
                data: txs[k],
                created_at: now,
            },
    )
}

/// When none of the derived hashes is recorded yet, processing appends
/// exactly one row per transaction, in block order.
pub proof fn lemma_insert_txs_appends<C: TxClassifier>(
    c: &C,
    s: Seq<TxRec>,
    height: int,
    time: int,
    block_hash: Seq<char>,
    txs: Seq<Seq<char>>,
    now: int,
    upto: int,
)
    requires
        0 <= upto <= txs.len(),
        forall|k: int| 0 <= k < upto ==> !has_tx(s, #[trigger] spec_tx_hash(block_hash, k as nat)),
    ensures
        spec_insert_txs(c, s, height, time, block_hash, txs, now, upto) == s + spec_tx_rows(
            c,
            s.len() as int,
            height,
            time,
            block_hash,
            txs,
            now,
            upto,
        ),
    decreases upto,
{
    if upto <= 0 {
        assert(spec_insert_txs(c, s, height, time, block_hash, txs, now, 0) =~= s + spec_tx_rows(
            c,
            s.len() as int,
            height,
            time,
            block_hash,
            txs,
            now,
            0,
        ));
    } else {
        lemma_insert_txs_appends(c, s, height, time, block_hash, txs, now, upto - 1);
        let prev = spec_insert_txs(c, s, height, time, block_hash, txs, now, upto - 1);
        let rows = spec_tx_rows(c, s.len() as int, height, time, block_hash, txs, now, upto - 1);
        let newhash = spec_tx_hash(block_hash, (upto - 1) as nat);
        assert(!has_tx(prev, newhash)) by {
            if has_tx(prev, newhash) {
                let i = choose|i: int| 0 <= i < prev.len() && prev[i].tx_hash == newhash;
                if i < s.len() {
                    assert(has_tx(s, newhash));
                } else {
                    assert(prev[i] == rows[i - s.len()]);
                    lemma_tx_hash_injective(block_hash, (i - s.len()) as nat, (upto - 1) as nat);
                }
            }
        }
        assert(spec_insert_txs(c, s, height, time, block_hash, txs, now, upto) =~= s
            + spec_tx_rows(c, s.len() as int, height, time, block_hash, txs, now, upto));
    }
}

/// When every derived hash is already recorded, processing adds nothing.
pub proof fn lemma_insert_txs_noop<C: TxClassifier>(
    c: &C,
    s: Seq<TxRec>,
    height: int,
    time: int,
    block_hash: Seq<char>,
    txs: Seq<Seq<char>>,
    now: int,
    upto: int,
)
    requires
        forall|k: int| 0 <= k < upto ==> has_tx(s, #[trigger] spec_tx_hash(block_hash, k as nat)),
    ensures
        spec_insert_txs(c, s, height, time, block_hash, txs, now, upto) == s,
    decreases upto,
{
    if upto > 0 {
        lemma_insert_txs_noop(c, s, height, time, block_hash, txs, now, upto - 1);
    }
}

/// Filtering keeps nothing when nothing satisfies the predicate.
proof fn lemma_filter_none(s: Seq<TxRec>, pred: spec_fn(TxRec) -> bool)
    requires
        forall|i: int| 0 <= i < s.len() ==> !pred(#[trigger] s[i]),
    ensures
        s.filter(pred) =~= Seq::<TxRec>::empty(),
    decreases s.len(),
{
    reveal(Seq::filter);
    if s.len() > 0 {
        lemma_filter_none(s.drop_last(), pred);
    }
}

/// Filtering keeps everything when everything satisfies the predicate.
proof fn lemma_filter_all(s: Seq<TxRec>, pred: spec_fn(TxRec) -> bool)
    requires
        forall|i: int| 0 <= i < s.len() ==> pred(#[trigger] s[i]),
    ensures
        s.filter(pred) =~= s,
    decreases s.len(),
{
    reveal(Seq::filter);
    if s.len() > 0 {
        lemma_filter_all(s.drop_last(), pred);
        assert(s.drop_last().push(s.last()) =~= s);
    }
}

/// No two rows of the sequence share a transaction hash.
pub open spec fn distinct_hashes(s: Seq<TxRec>) -> bool {
    forall|i: int, j: int| 0 <= i < j < s.len() ==> s[i].tx_hash != s[j].tx_hash
}

/// No double insert: processing a block with `n` transactions into a
/// store that has no rows for its height and none of the derived hashes
/// leaves exactly `n` rows for that height, their hashes pairwise
/// distinct; and reprocessing the same payload, however often, changes
/// no transaction row.
pub proof fn lemma_no_double_insert<C: TxClassifier>(
    c: &C,
    s: StoreV,
    height: int,
    p: PayloadV,
    now: int,
    now2: int,
)
    requires
        forall|k: int|
            0 <= k < spec_txs_of(p).len() ==> !has_tx(s.txs, #[trigger] spec_tx_hash(p.hash, k as nat)),
        forall|i: int| 0 <= i < s.txs.len() ==> (#[trigger] s.txs[i]).block_height != height,
    ensures
        spec_process(c, s, height, p, now).txs.filter(|t: TxRec| t.block_height == height).len()
            == spec_txs_of(p).len(),
        distinct_hashes(
            spec_process(c, s, height, p, now).txs.filter(|t: TxRec| t.block_height == height),
        ),
        spec_process(c, spec_process(c, s, height, p, now), height, p, now2).txs == spec_process(
            c,
            s,
            height,
            p,
            now,
        ).txs,
{
    let txs = spec_txs_of(p);
    let n = txs.len() as int;
    let pred = |t: TxRec| t.block_height == height;
    lemma_insert_txs_appends(c, s.txs, height, p.time, p.hash, txs, now, n);
    let rows = spec_tx_rows(c, s.txs.len() as int, height, p.time, p.hash, txs, now, n);
    let s1 = spec_process(c, s, height, p, now);
    assert(s1.txs == s.txs + rows);
    Seq::filter_distributes_over_add(s.txs, rows, pred);
    lemma_filter_none(s.txs, pred);
    lemma_filter_all(rows, pred);
    assert(s1.txs.filter(pred) =~= rows);
    assert forall|i: int, j: int| 0 <= i < j < rows.len() implies rows[i].tx_hash
        != rows[j].tx_hash by {
        if rows[i].tx_hash == rows[j].tx_hash {
            lemma_tx_hash_injective(p.hash, i as nat, j as nat);
        }
    }
    assert forall|k: int| 0 <= k < n implies has_tx(
        s1.txs,
        #[trigger] spec_tx_hash(p.hash, k as nat),
    ) by {
        assert(s1.txs[s.txs.len() + k].tx_hash == spec_tx_hash(p.hash, k as nat));
    }
    lemma_insert_txs_noop(c, s1.txs, height, p.time, p.hash, txs, now2, n);
}

/// Configuration of the sync engine, constructed once at process start
/// and handed in; no component reads global state.
#[derive(Debug)]
pub struct SyncConfig {
    /// The first height known to be available from the node; the
    /// backfill start on an empty store.
    pub genesis_height: u64,
    /// Heights per backfill batch.
    pub batch_size: u64,
    /// Seconds to wait after a failed height before moving on.
    pub retry_delay_secs: u64,
    /// Seconds between status polls while following the tip.
    pub poll_interval_secs: u64,
    /// Whether to skip the initial backfill entirely.
    pub skip_initial_sync: bool,
}

impl Default for SyncConfig {
    /// The defaults the indexer ships with.
    fn default() -> (c: Self)
        ensures
            c.genesis_height == 2611800,
            c.batch_size == 100,
            c.retry_delay_secs == 5,
            c.poll_interval_secs == 1,
            !c.skip_initial_sync,
    {
        SyncConfig {
            genesis_height: 2611800,
            batch_size: 100,
            retry_delay_secs: 5,
            poll_interval_secs: 1,
            skip_initial_sync: false,
        }
    }
}

/// The height a backfill pass starts from: just past the highest indexed
/// block, or the configured genesis-equivalent height on an empty store.
pub open spec fn spec_backfill_start(latest_indexed: Option<u64>, genesis_height: u64) -> int {
    match latest_indexed {
        Some(h) => h + 1,
        None => genesis_height as int,
    }
}

/// Computes the backfill start height.
pub fn backfill_start(latest_indexed: Option<u64>, genesis_height: u64) -> (start: u64)
    requires
        latest_indexed is Some ==> latest_indexed.unwrap() < u64::MAX,
    ensures
        start as int == spec_backfill_start(latest_indexed, genesis_height),
{
    match latest_indexed {
        Some(h) => h + 1,
        None => genesis_height,
    }
}

/// Where the engine stands: catching up over a fixed range, or tracking
/// the tip. Following is the steady state, never left.
#[derive(Debug)]
pub enum Phase {
    /// Heights `next_height..=target` are still to be attempted.
    Backfilling { next_height: u64, target: u64 },
    /// Backfill is done; `last_processed` is the height last attempted
    /// from a status poll.
    Following { last_processed: Option<u64> },
}

/// What the engine asks its driver to do next.
#[derive(Debug)]
pub enum Action {
    /// Fetch and process the block at this height.
    FetchBlock { height: u64 },
    /// Poll the node's status.
    PollStatus,
}

/// The sync engine's control state. The driver outside the library
/// performs the fetches, stores and waits; every decision is made here.
#[derive(Debug)]
pub struct SyncEngine {
    pub config: SyncConfig,
    pub phase: Phase,
}

impl SyncEngine {
    /// Decides the starting phase from the highest indexed height and
    /// the chain tip: backfill the open range unless the store is
    /// already caught up or the initial sync is configured away.
    pub fn init(config: SyncConfig, latest_indexed: Option<u64>, chain_latest: u64) -> (e:
        SyncEngine)
        requires
            latest_indexed is Some ==> latest_indexed.unwrap() < u64::MAX,
        ensures
            e.config == config,
            ({
                let start = spec_backfill_start(latest_indexed, config.genesis_height);
                if config.skip_initial_sync || start > chain_latest {
                    e.phase == (Phase::Following { last_processed: None })
                } else {
                    e.phase == (Phase::Backfilling {
                        next_height: start as u64,
                        target: chain_latest,
                    })
                }
            }),
    {
        let start = backfill_start(latest_indexed, config.genesis_height);
        if config.skip_initial_sync || start > chain_latest {
            SyncEngine { config, phase: Phase::Following { last_processed: None } }
        } else {
            SyncEngine { config, phase: Phase::Backfilling { next_height: start, target: chain_latest } }
        }
    }

    /// What the engine wants done next.
    pub fn next_action(&self) -> (a: Action)
        ensures
            a == match self.phase {
                Phase::Backfilling { next_height, target } => Action::FetchBlock {
                    height: next_height,
                },
                Phase::Following { last_processed } => Action::PollStatus,
            },
    {
        match &self.phase {
            Phase::Backfilling { next_height, target } => Action::FetchBlock {
                height: *next_height,
            },
            Phase::Following { last_processed } => Action::PollStatus,
        }
    }

    /// Moves past an attempted backfill height, whether it was processed
    /// or failed: a failed height is skipped, to be healed by a later
    /// pass. Returns the seconds to wait before the next attempt — the
    /// retry delay after a failure, nothing after a success. When the
    /// target has been attempted, the engine turns to following the tip.
    pub fn on_backfill_attempt(&mut self, success: bool) -> (delay: u64)
        requires
            old(self).phase matches Phase::Backfilling { next_height, target } && next_height
                <= target,
        ensures
            final(self).config == old(self).config,
            delay == if success {
                0u64
            } else {
                old(self).config.retry_delay_secs
            },
            match old(self).phase {
                Phase::Backfilling { next_height, target } => final(self).phase == (if next_height
                    < target {
                    Phase::Backfilling { next_height: (next_height + 1) as u64, target }
                } else {
                    Phase::Following { last_processed: Some(target) }
                }),
                Phase::Following { .. } => false,
            },
    {
        let (next_height, target) = match &self.phase {
            Phase::Backfilling { next_height, target } => (*next_height, *target),
            Phase::Following { .. } => (0, 0),
        };
        if next_height < target {
            self.phase = Phase::Backfilling { next_height: next_height + 1, target };
        } else {
            self.phase = Phase::Following { last_processed: Some(target) };
        }
        if success {
            0
        } else {
            self.config.retry_delay_secs
        }
    }

    /// Tip-following decision on a polled status: when the reported
    /// height differs from the last one attempted, that height is to be
    /// fetched and becomes the last attempted, whether or not its fetch
    /// will succeed; an unchanged status asks for nothing.
    pub fn on_status(&mut self, latest_height: u64) -> (fetch: Option<u64>)
        requires
            old(self).phase is Following,
        ensures
            final(self).config == old(self).config,
            match old(self).phase {
                Phase::Following { last_processed } => {
                    if last_processed == Some(latest_height) {
                        fetch is None && final(self).phase == old(self).phase
                    } else {
                        fetch == Some(latest_height) && final(self).phase == (Phase::Following {
                            last_processed: Some(latest_height),
                        })
                    }
                },
                Phase::Backfilling { .. } => false,
            },
    {
        let unchanged = match &self.phase {
            Phase::Following { last_processed: Some(h) } => *h == latest_height,
            _ => false,
        };
        if unchanged {
            None
        } else {
            self.phase = Phase::Following { last_processed: Some(latest_height) };
            Some(latest_height)
        }
    }
}

/// The chain height a status report carries: `None` when the reported
/// height does not parse or is zero, which the engine treats as a failed
/// status rather than a height to sync to.
pub fn parse_status_height(latest_block_height: &str) -> (r: Option<u64>)
    ensures
        match r {
            Some(v) => latest_block_height@.len() > 0 && crate::text::spec_all_digits(
                latest_block_height@,
            ) && v as int == crate::text::spec_digits_val(latest_block_height@) && v != 0,
            None => !(latest_block_height@.len() > 0 && crate::text::spec_all_digits(
                latest_block_height@,
            ) && crate::text::spec_digits_val(latest_block_height@) <= u64::MAX
                && crate::text::spec_digits_val(latest_block_height@) != 0),
        },
{
    match crate::text::parse_u64(latest_block_height) {
        Some(v) => if v != 0 {
            Some(v)
        } else {
            None
        },
        None => None,
    }
}

} // verus!
