//! The verified persistence model.
//!
//! `Store` keeps blocks ordered by height, one row per height, and
//! transactions in insertion order, one row per hash. `upsert_block`
//! overwrites the whole row for a height (last-write-wins);
//! `insert_transaction` is a no-op when the hash is already present
//! (first-write-wins). The module proves the algebra the sync engine
//! relies on: a re-run upsert leaves exactly the most recent write, a
//! lookup after an upsert sees that write and nothing else changes.

use vstd::prelude::*;

use crate::records::{BlockRec, StoredBlock, Transaction, TxRec};

verus! {

/// The mathematical state of the store.
pub struct StoreV {
    pub blocks: Seq<BlockRec>,
    pub txs: Seq<TxRec>,
}

/// Heights strictly increase along the block sequence, so each height
/// holds at most one row.
pub open spec fn blocks_sorted(s: Seq<BlockRec>) -> bool {
    forall|i: int, j: int| 0 <= i < j < s.len() ==> s[i].height < s[j].height
}

/// Insert-or-replace keyed on height, keeping the sequence sorted.
pub open spec fn upsert_seq(s: Seq<BlockRec>, b: BlockRec) -> Seq<BlockRec>
    decreases s.len(),
{
    if s.len() == 0 {
        seq![b]
    } else if s[0].height < b.height {
        seq![s[0]] + upsert_seq(s.drop_first(), b)
    } else if s[0].height == b.height {
        seq![b] + s.drop_first()
    } else {
        seq![b] + s
    }
}

/// The row stored under a height, if any.
pub open spec fn block_at(s: Seq<BlockRec>, h: int) -> Option<BlockRec>
    decreases s.len(),
{
    if s.len() == 0 {
        None
    } else if s[0].height == h {
        Some(s[0])
    } else {
        block_at(s.drop_first(), h)
    }
}

/// Whether some row is stored under the height.
pub open spec fn has_block(s: Seq<BlockRec>, h: int) -> bool {
    block_at(s, h) is Some
}

/// Every row of an upsert result is either the new row or one of the old.
proof fn lemma_upsert_elems(s: Seq<BlockRec>, b: BlockRec)
    ensures
        forall|i: int|
            0 <= i < upsert_seq(s, b).len() ==> upsert_seq(s, b)[i] == b || s.contains(
                #[trigger] upsert_seq(s, b)[i],
            ),
    decreases s.len(),
{
    if s.len() == 0 {
    } else if s[0].height < b.height {
        lemma_upsert_elems(s.drop_first(), b);
        assert forall|i: int| 0 <= i < upsert_seq(s, b).len() implies upsert_seq(s, b)[i] == b
            || s.contains(#[trigger] upsert_seq(s, b)[i]) by {
            if i == 0 {
                assert(s.contains(s[0]));
            } else {
                let u = upsert_seq(s.drop_first(), b);
                assert(upsert_seq(s, b)[i] == u[i - 1]);
                if u[i - 1] != b {
                    let j = choose|j: int| 0 <= j < s.drop_first().len() && s.drop_first()[j] == u[i - 1];
                    assert(s[j + 1] == u[i - 1]);
                }
            }
        }
    } else if s[0].height == b.height {
        assert forall|i: int| 0 <= i < upsert_seq(s, b).len() implies upsert_seq(s, b)[i] == b
            || s.contains(#[trigger] upsert_seq(s, b)[i]) by {
            if i > 0 {
                assert(upsert_seq(s, b)[i] == s[i]);
            }
        }
    } else {
        assert forall|i: int| 0 <= i < upsert_seq(s, b).len() implies upsert_seq(s, b)[i] == b
            || s.contains(#[trigger] upsert_seq(s, b)[i]) by {
            if i > 0 {
                assert(upsert_seq(s, b)[i] == s[i - 1]);
            }
        }
    }
}

/// An upsert keeps the block sequence sorted.
pub proof fn lemma_upsert_sorted(s: Seq<BlockRec>, b: BlockRec)
    requires
        blocks_sorted(s),
    ensures
        blocks_sorted(upsert_seq(s, b)),
    decreases s.len(),
{
    if s.len() == 0 {
    } else if s[0].height < b.height {
        let d = s.drop_first();
        lemma_upsert_sorted(d, b);
        lemma_upsert_elems(d, b);
        let u = upsert_seq(d, b);
        assert forall|i: int, j: int| 0 <= i < j < upsert_seq(s, b).len() implies upsert_seq(
            s,
            b,
        )[i].height < upsert_seq(s, b)[j].height by {
            if i == 0 {
                assert(u[j - 1] == b || d.contains(u[j - 1]));
                if d.contains(u[j - 1]) {
                    let k = choose|k: int| 0 <= k < d.len() && d[k] == u[j - 1];
                    assert(s[k + 1] == u[j - 1]);
                }
            } else {
                assert(upsert_seq(s, b)[i] == u[i - 1] && upsert_seq(s, b)[j] == u[j - 1]);
            }
        }
    } else if s[0].height == b.height {
        assert forall|i: int, j: int| 0 <= i < j < upsert_seq(s, b).len() implies upsert_seq(
            s,
            b,
        )[i].height < upsert_seq(s, b)[j].height by {
            if i > 0 {
                assert(upsert_seq(s, b)[i] == s[i] && upsert_seq(s, b)[j] == s[j]);
            } else {
                assert(upsert_seq(s, b)[j] == s[j]);
            }
        }
    } else {
        assert forall|i: int, j: int| 0 <= i < j < upsert_seq(s, b).len() implies upsert_seq(
            s,
            b,
        )[i].height < upsert_seq(s, b)[j].height by {
            if i > 0 {
                assert(upsert_seq(s, b)[i] == s[i - 1] && upsert_seq(s, b)[j] == s[j - 1]);
            } else {
                assert(upsert_seq(s, b)[j] == s[j - 1]);
            }
        }
    }
}

/// After an upsert, the upserted height holds exactly the new row and
/// every other height is untouched.
pub proof fn lemma_block_at_upsert(s: Seq<BlockRec>, b: BlockRec)
    ensures
        forall|h: int| #![trigger block_at(upsert_seq(s, b), h)]
            block_at(upsert_seq(s, b), h) == if h == b.height {
                Some(b)
            } else {
                block_at(s, h)
            },
    decreases s.len(),
{
    if s.len() == 0 {
        assert forall|h: int| h != b.height implies #[trigger] block_at(upsert_seq(s, b), h)
            == block_at(s, h) by {
            let u = upsert_seq(s, b);
            assert(u.drop_first() =~= Seq::<BlockRec>::empty());
            assert(block_at(Seq::<BlockRec>::empty(), h) is None);
            assert(block_at(u, h) == block_at(u.drop_first(), h));
        }
    } else if s[0].height < b.height {
        lemma_block_at_upsert(s.drop_first(), b);
        let u = upsert_seq(s, b);
        assert(u.drop_first() =~= upsert_seq(s.drop_first(), b));
        assert forall|h: int| true implies #[trigger] block_at(u, h) == (if h == b.height {
            Some(b)
        } else {
            block_at(s, h)
        }) by {
            if s[0].height == h {
            } else {
                assert(block_at(u, h) == block_at(upsert_seq(s.drop_first(), b), h));
            }
        }
    } else if s[0].height == b.height {
        let u = upsert_seq(s, b);
        assert(u.drop_first() =~= s.drop_first());
        assert forall|h: int| h != b.height implies #[trigger] block_at(u, h) == block_at(s, h) by {
            assert(block_at(u, h) == block_at(s.drop_first(), h));
        }
    } else {
        let u = upsert_seq(s, b);
        assert(u.drop_first() =~= s);
    }
}

/// Last write wins: re-upserting the same height leaves only the most
/// recent row, whatever the earlier write held.
pub proof fn lemma_upsert_last_write_wins(s: Seq<BlockRec>, b1: BlockRec, b2: BlockRec)
    requires
        b1.height == b2.height,
    ensures
        upsert_seq(upsert_seq(s, b1), b2) == upsert_seq(s, b2),
    decreases s.len(),
{
    if s.len() == 0 {
        assert(upsert_seq(upsert_seq(s, b1), b2) =~= upsert_seq(s, b2));
    } else if s[0].height < b1.height {
        lemma_upsert_last_write_wins(s.drop_first(), b1, b2);
        let u1 = upsert_seq(s, b1);
        assert(u1[0] == s[0]);
        assert(u1.drop_first() =~= upsert_seq(s.drop_first(), b1));
        assert(upsert_seq(upsert_seq(s, b1), b2) =~= upsert_seq(s, b2));
    } else if s[0].height == b1.height {
        let u1 = upsert_seq(s, b1);
        assert(u1[0] == b1);
        assert(u1.drop_first() =~= s.drop_first());
        assert(upsert_seq(upsert_seq(s, b1), b2) =~= upsert_seq(s, b2));
    } else {
        let u1 = upsert_seq(s, b1);
        assert(u1[0] == b1);
        assert(u1.drop_first() =~= s);
        assert(upsert_seq(upsert_seq(s, b1), b2) =~= upsert_seq(s, b2));
    }
}

/// Lookup agrees with position: under a sorted sequence, a height found
/// at an index is the stored row, and a height at no index is absent.
pub proof fn lemma_block_at_indexed(s: Seq<BlockRec>, h: int)
    requires
        blocks_sorted(s),
    ensures
        forall|i: int| 0 <= i < s.len() && s[i].height == h ==> block_at(s, h) == Some(s[i]),
        (forall|i: int| 0 <= i < s.len() ==> (#[trigger] s[i]).height != h) ==> block_at(s, h)
            is None,
    decreases s.len(),
{
    if s.len() == 0 {
    } else if s[0].height == h {
    } else {
        lemma_block_at_indexed(s.drop_first(), h);
        assert forall|i: int| 0 <= i < s.len() && s[i].height == h implies block_at(s, h) == Some(
            s[i],
        ) by {
            assert(s.drop_first()[i - 1] == s[i]);
        }
        if forall|i: int| 0 <= i < s.len() ==> (#[trigger] s[i]).height != h {
            assert forall|i: int| 0 <= i < s.drop_first().len() implies (#[trigger] s.drop_first()[i]).height
                != h by {
                assert(s.drop_first()[i] == s[i + 1]);
            }
        }
    }
}

/// Splits an upsert at the insertion point: everything below the new
/// height stays, the new row lands at the boundary, and everything at or
/// above it follows (minus the replaced row, when the height was present).
pub proof fn lemma_upsert_split(s: Seq<BlockRec>, b: BlockRec, i: int)
    requires
        blocks_sorted(s),
        0 <= i <= s.len(),
        forall|k: int| 0 <= k < i ==> s[k].height < b.height,
        i < s.len() ==> s[i].height >= b.height,
    ensures
        i < s.len() && s[i].height == b.height ==> upsert_seq(s, b) == s.subrange(0, i) + seq![b]
            + s.subrange(i + 1, s.len() as int),
        !(i < s.len() && s[i].height == b.height) ==> upsert_seq(s, b) == s.subrange(0, i)
            + seq![b] + s.subrange(i, s.len() as int),
    decreases i,
{
    if i == 0 {
        if s.len() == 0 {
            assert(upsert_seq(s, b) =~= s.subrange(0, 0) + seq![b] + s.subrange(0, 0));
        } else if s[0].height == b.height {
            assert(upsert_seq(s, b) =~= s.subrange(0, 0) + seq![b] + s.subrange(1, s.len() as int));
        } else {
            assert(upsert_seq(s, b) =~= s.subrange(0, 0) + seq![b] + s.subrange(0, s.len() as int));
        }
    } else {
        let d = s.drop_first();
        assert(forall|k: int| 0 <= k < i - 1 ==> #[trigger] d[k].height == s[k + 1].height);
        lemma_upsert_split(d, b, i - 1);
        assert(upsert_seq(s, b) == seq![s[0]] + upsert_seq(d, b));
        if i < s.len() && s[i].height == b.height {
            assert(d[i - 1].height == b.height);
            assert(upsert_seq(d, b) == d.subrange(0, i - 1) + seq![b] + d.subrange(
                i as int,
                d.len() as int,
            ));
            assert(upsert_seq(s, b) =~= s.subrange(0, i) + seq![b] + s.subrange(
                i + 1,
                s.len() as int,
            ));
        } else {
            assert(upsert_seq(d, b) == d.subrange(0, i - 1) + seq![b] + d.subrange(
                i - 1,
                d.len() as int,
            ));
            assert(upsert_seq(s, b) =~= s.subrange(0, i) + seq![b] + s.subrange(
                i as int,
                s.len() as int,
            ));
        }
    }
}

/// Whether a transaction with the hash is already recorded.
pub open spec fn has_tx(s: Seq<TxRec>, hash: Seq<char>) -> bool {
    exists|i: int| 0 <= i < s.len() && (#[trigger] s[i]).tx_hash == hash
}

/// Insert-if-absent keyed on the hash; the store assigns the next row id.
pub open spec fn insert_tx(s: Seq<TxRec>, t: TxRec) -> Seq<TxRec> {
    if has_tx(s, t.tx_hash) {
        s
    } else {
        s.push(
            TxRec {
                id: s.len() as int,
                tx_hash: t.tx_hash,
                block_height: t.block_height,
                time: t.time,
                action_type: t.action_type,
                amount: t.amount,
                data: t.data,
                created_at: t.created_at,
            },
        )
    }
}

/// First write wins: re-inserting a hash already recorded changes nothing,
/// whatever the later write holds.
pub proof fn lemma_insert_tx_first_write_wins(s: Seq<TxRec>, t1: TxRec, t2: TxRec)
    requires
        t1.tx_hash == t2.tx_hash,
    ensures
        insert_tx(insert_tx(s, t1), t2) == insert_tx(s, t1),
{
    let s1 = insert_tx(s, t1);
    if has_tx(s, t1.tx_hash) {
        assert(has_tx(s1, t2.tx_hash));
    } else {
        assert(s1[s.len() as int].tx_hash == t2.tx_hash);
        assert(has_tx(s1, t2.tx_hash));
    }
}

/// The transactions owned by one height, in insertion order.
pub open spec fn txs_of_height(txs: Seq<TxRec>, h: int) -> Seq<TxRec> {
    txs.filter(|t: TxRec| t.block_height == h)
}

/// The stored transactions ordered as the list endpoint returns them:
/// by owning height, highest first, and within one height in insertion
/// order. Only heights up to position `j` of the block sequence are
/// considered, highest first.
pub open spec fn txs_desc_upto(blocks: Seq<BlockRec>, txs: Seq<TxRec>, j: int) -> Seq<TxRec>
    decreases j,
{
    if j <= 0 {
        Seq::empty()
    } else {
        txs_of_height(txs, blocks[j - 1].height) + txs_desc_upto(blocks, txs, j - 1)
    }
}

/// The full descending ordering of the stored transactions.
pub open spec fn txs_desc(blocks: Seq<BlockRec>, txs: Seq<TxRec>) -> Seq<TxRec> {
    txs_desc_upto(blocks, txs, blocks.len() as int)
}

/// The verified store: blocks keyed by height, transactions keyed by hash.
pub struct Store {
    blocks: Vec<StoredBlock>,
    txs: Vec<Transaction>,
}

impl View for Store {
    type V = StoreV;

    closed spec fn view(&self) -> StoreV {
        StoreV { blocks: self.blocks.deep_view(), txs: self.txs.deep_view() }
    }
}

impl Store {
    /// Well-formedness: heights strictly sorted; transaction ids follow
    /// insertion order; hashes are unique; every transaction's owning
    /// block is present.
    pub open spec fn wf(&self) -> bool {
        &&& blocks_sorted(self@.blocks)
        &&& forall|i: int| 0 <= i < self@.blocks.len() ==> (#[trigger] self@.blocks[i]).height >= 0
        &&& forall|i: int| 0 <= i < self@.txs.len() ==> (#[trigger] self@.txs[i]).id == i
        &&& forall|i: int, j: int|
            0 <= i < j < self@.txs.len() ==> self@.txs[i].tx_hash != self@.txs[j].tx_hash
        &&& forall|i: int|
            0 <= i < self@.txs.len() ==> has_block(
                self@.blocks,
                (#[trigger] self@.txs[i]).block_height,
            )
    }

    /// An empty store.
    pub fn new() -> (s: Store)
        ensures
            s.wf(),
            s@.blocks =~= Seq::<BlockRec>::empty(),
            s@.txs =~= Seq::<TxRec>::empty(),
    {
        let s = Store { blocks: Vec::new(), txs: Vec::new() };
        assert(s@.blocks =~= Seq::<BlockRec>::empty());
        assert(s@.txs =~= Seq::<TxRec>::empty());
        s
    }

    /// The stored blocks, lowest height first.
    pub fn blocks(&self) -> (r: &Vec<StoredBlock>)
        ensures
            r.deep_view() == self@.blocks,
    {
        &self.blocks
    }

    /// The stored transactions, in insertion order.
    pub fn transactions(&self) -> (r: &Vec<Transaction>)
        ensures
            r.deep_view() == self@.txs,
    {
        &self.txs
    }

    /// Stores a block, replacing any row already held for its height.
    pub fn upsert_block(&mut self, b: StoredBlock)
        requires
            old(self).wf(),
        ensures
            final(self).wf(),
            final(self)@.blocks == upsert_seq(old(self)@.blocks, b@),
            final(self)@.txs == old(self)@.txs,
    {
        let ghost s0 = self@.blocks;
        let h = b.height;
        let n = self.blocks.len();
        let mut i: usize = 0;
        while i < n && self.blocks[i].height < h
            invariant
                n == self.blocks.len(),
                i <= n,
                self@.blocks == s0,
                forall|k: int| 0 <= k < i ==> s0[k].height < h as int,
            decreases n - i,
        {
            i = i + 1;
        }
        let ghost ip = i as int;
        if i < n && self.blocks[i].height == h {
            self.blocks.set(i, b);
            proof {
                lemma_upsert_split(s0, b@, ip);
                assert(self@.blocks =~= s0.subrange(0, ip) + seq![b@] + s0.subrange(
                    ip + 1,
                    s0.len() as int,
                ));
            }
        } else {
            self.blocks.insert(i, b);
            proof {
                lemma_upsert_split(s0, b@, ip);
                assert(self@.blocks =~= s0.subrange(0, ip) + seq![b@] + s0.subrange(
                    ip,
                    s0.len() as int,
                ));
            }
        }
        proof {
            lemma_upsert_sorted(s0, b@);
            lemma_block_at_upsert(s0, b@);
            lemma_upsert_elems(s0, b@);
            assert(forall|k: int|
                0 <= k < self@.txs.len() ==> has_block(
                    self@.blocks,
                    (#[trigger] self@.txs[k]).block_height,
                ));
            assert forall|k: int| 0 <= k < self@.blocks.len() implies (#[trigger] self@.blocks[k]).height
                >= 0 by {
                if self@.blocks[k] != b@ {
                    let j = choose|j: int| 0 <= j < s0.len() && s0[j] == self@.blocks[k];
                }
            }
        }
    }

    /// The highest indexed height; `None` signals an empty store.
    pub fn latest_indexed_height(&self) -> (r: Option<u64>)
        requires
            self.wf(),
        ensures
            match r {
                None => self@.blocks.len() == 0,
                Some(h) => self@.blocks.len() > 0 && h as int == self@.blocks.last().height,
            },
    {
        let n = self.blocks.len();
        if n == 0 {
            None
        } else {
            Some(self.blocks[n - 1].height)
        }
    }

    /// The row stored under a height, if any.
    pub fn get_block_by_height(&self, height: u64) -> (r: Option<&StoredBlock>)
        requires
            self.wf(),
        ensures
            match r {
                Some(b) => block_at(self@.blocks, height as int) == Some(b@),
                None => block_at(self@.blocks, height as int) is None,
            },
    {
        proof {
            lemma_block_at_indexed(self@.blocks, height as int);
        }
        let n = self.blocks.len();
        let mut i: usize = 0;
        while i < n
            invariant
                self.wf(),
                n == self.blocks.len(),
                i <= n,
                forall|k: int| 0 <= k < i ==> (#[trigger] self@.blocks[k]).height != height as int,
            decreases n - i,
        {
            if self.blocks[i].height == height {
                proof {
                    lemma_block_at_indexed(self@.blocks, height as int);
                    assert(self@.blocks[i as int].height == height as int);
                }
                return Some(&self.blocks[i]);
            }
            i = i + 1;
        }
        proof {
            lemma_block_at_indexed(self@.blocks, height as int);
        }
        None
    }

    /// Up to `limit` of the most recent blocks, highest first.
    pub fn get_latest_blocks(&self, limit: usize) -> (r: Vec<StoredBlock>)
        requires
            self.wf(),
        ensures
            r.deep_view().len() == if limit as int <= self@.blocks.len() {
                limit as int
            } else {
                self@.blocks.len() as int
            },
            forall|i: int|
                0 <= i < r.deep_view().len() ==> r.deep_view()[i] == self@.blocks[self@.blocks.len()
                    - 1 - i],
    {
        let n = self.blocks.len();
        let mut r: Vec<StoredBlock> = Vec::new();
        assert(r.deep_view() =~= Seq::<BlockRec>::empty());
        let mut i: usize = 0;
        while i < limit && i < n
            invariant
                n == self.blocks.len(),
                i <= n,
                i <= limit,
                r.deep_view().len() == i as int,
                forall|k: int|
                    0 <= k < i ==> r.deep_view()[k] == self@.blocks[self@.blocks.len() - 1 - k],
            decreases n - i,
        {
            let b = self.blocks[n - 1 - i].clone();
            let ghost pre = r.deep_view();
            let ghost bv = b@;
            r.push(b);
            proof {
                assert(r.deep_view() =~= pre.push(bv));
            }
            i = i + 1;
        }
        r
    }

    /// Records a transaction unless its hash is already present; the
    /// owning block must already be stored.
    pub fn insert_transaction(
        &mut self,
        tx_hash: String,
        block_height: u64,
        time: i64,
        action_type: String,
        amount: Option<u64>,
        data: String,
        created_at: i64,
    )
        requires
            old(self).wf(),
            has_block(old(self)@.blocks, block_height as int),
        ensures
            final(self).wf(),
            final(self)@.blocks == old(self)@.blocks,
            final(self)@.txs == insert_tx(
                old(self)@.txs,
                TxRec {
                    id: 0,
                    tx_hash: tx_hash@,
                    block_height: block_height as int,
                    time: time as int,
                    action_type: action_type@,
                    amount: crate::records::opt_int(amount),
                    data: data@,
                    created_at: created_at as int,
                },
            ),
    {
        let n = self.txs.len();
        let mut i: usize = 0;
        while i < n
            invariant
                self.wf(),
                *self == *old(self),
                n == self.txs.len(),
                i <= n,
                forall|k: int| 0 <= k < i ==> (#[trigger] self@.txs[k]).tx_hash != tx_hash@,
            decreases n - i,
        {
            if self.txs[i].tx_hash == tx_hash {
                assert(self@.txs[i as int].tx_hash == tx_hash@);
                assert(has_tx(self@.txs, tx_hash@));
                return ;
            }
            i = i + 1;
        }
        assert(!has_tx(self@.txs, tx_hash@));
        let ghost g_hash = tx_hash@;
        let ghost g_action = action_type@;
        let ghost g_data = data@;
        let id = self.txs.len() as u64;
        let t = Transaction {
            id,
            tx_hash,
            block_height,
            time,
            action_type,
            amount,
            data,
            created_at,
        };
        self.txs.push(t);
        proof {
            assert(self@.txs =~= insert_tx(
                old(self)@.txs,
                TxRec {
                    id: 0,
                    tx_hash: g_hash,
                    block_height: block_height as int,
                    time: time as int,
                    action_type: g_action,
                    amount: crate::records::opt_int(amount),
                    data: g_data,
                    created_at: created_at as int,
                },
            ));
        }
    }

    /// All transactions of one block, in insertion order.
    pub fn get_transactions_by_block_height(&self, height: u64) -> (r: Vec<Transaction>)
        requires
            self.wf(),
        ensures
            r.deep_view() == txs_of_height(self@.txs, height as int),
    {
        let n = self.txs.len();
        let mut r: Vec<Transaction> = Vec::new();
        assert(r.deep_view() =~= Seq::<TxRec>::empty());
        let mut i: usize = 0;
        while i < n
            invariant
                n == self.txs.len(),
                i <= n,
                r.deep_view() =~= self@.txs.subrange(0, i as int).filter(
                    |t: TxRec| t.block_height == height as int,
                ),
            decreases n - i,
        {
            proof {
                let pre = self@.txs.subrange(0, i as int);
                pre.lemma_filter_push(self@.txs[i as int], |t: TxRec| t.block_height == height as int);
                assert(self@.txs.subrange(0, i as int + 1) =~= pre.push(self@.txs[i as int]));
            }
            if self.txs[i].block_height == height {
                r.push(self.txs[i].clone());
            }
            i = i + 1;
        }
        proof {
            assert(self@.txs.subrange(0, n as int) =~= self@.txs);
        }
        r
    }

    /// Up to `limit` of the most recent transactions: ordered by owning
    /// height, highest first, in insertion order within one height.
    pub fn get_latest_transactions(&self, limit: usize) -> (r: Vec<Transaction>)
        requires
            self.wf(),
        ensures
            r.deep_view() == txs_desc(self@.blocks, self@.txs).take(
                if limit as int <= txs_desc(self@.blocks, self@.txs).len() {
                    limit as int
                } else {
                    txs_desc(self@.blocks, self@.txs).len() as int
                },
            ),
    {
        let n = self.blocks.len();
        let mut acc: Vec<Transaction> = Vec::new();
        assert(acc.deep_view() =~= Seq::<TxRec>::empty());
        let mut j: usize = n;
        while j > 0
            invariant
                self.wf(),
                n == self.blocks.len(),
                j <= n,
                txs_desc(self@.blocks, self@.txs) =~= acc.deep_view() + txs_desc_upto(
                    self@.blocks,
                    self@.txs,
                    j as int,
                ),
            decreases j,
        {
            let height = self.blocks[j - 1].height;
            let mut group = self.get_transactions_by_block_height(height);
            let ghost pre = acc.deep_view();
            let ghost gv = group.deep_view();
            acc.append(&mut group);
            proof {
                assert(acc.deep_view() =~= pre + gv);
                assert(self@.blocks[j - 1].height == height as int);
            }
            j = j - 1;
        }
        proof {
            assert(txs_desc_upto(self@.blocks, self@.txs, 0) =~= Seq::<TxRec>::empty());
            assert(txs_desc(self@.blocks, self@.txs) =~= acc.deep_view());
        }
        let total = acc.len();
        let ghost full = acc.deep_view();
        if total > limit {
            acc.truncate(limit);
            proof {
                assert(acc.deep_view() =~= full.take(limit as int));
            }
        } else {
            proof {
                assert(acc.deep_view() =~= full.take(total as int));
            }
        }
        acc
    }
}

} // verus!
