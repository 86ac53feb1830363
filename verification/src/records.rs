//! The stored data model: blocks and transactions as the indexer
//! persists them, and the summary shapes the query service returns.
//!
//! A block is identified by its height; re-ingesting a height replaces
//! the whole row (last-write-wins). A transaction is identified by its
//! hash and is immutable once recorded (first-write-wins). Timestamps
//! are seconds since the Unix epoch; the raw payloads are opaque blobs
//! kept write-only for forward compatibility.

use vstd::prelude::*;

verus! {

/// Mathematical model of one stored block row.
pub struct BlockRec {
    pub height: int,
    pub time: int,
    pub hash: Seq<char>,
    pub proposer_address: Seq<char>,
    pub tx_count: int,
    pub previous_block_hash: Option<Seq<char>>,
    pub burn_amount: int,
    pub data: Seq<char>,
    pub created_at: int,
}

/// One stored block row.
#[derive(Debug)]
pub struct StoredBlock {
    /// Block height in the blockchain; the row's identity.
    pub height: u64,
    /// Producer-assigned timestamp of the block, seconds since the epoch.
    pub time: i64,
    /// Unique block hash identifier.
    pub hash: String,
    /// Address of the validator who proposed the block.
    pub proposer_address: String,
    /// Number of transactions included in the block.
    pub tx_count: u32,
    /// Hash of the previous block; absent only for the first block.
    pub previous_block_hash: Option<String>,
    /// Total amount burned in this block, in base units.
    pub burn_amount: u64,
    /// Full raw block payload, kept as an opaque blob.
    pub data: String,
    /// When the indexer ingested the row, seconds since the epoch.
    pub created_at: i64,
}

impl View for StoredBlock {
    type V = BlockRec;

    open spec fn view(&self) -> BlockRec {
        BlockRec {
            height: self.height as int,
            time: self.time as int,
            hash: self.hash@,
            proposer_address: self.proposer_address@,
            tx_count: self.tx_count as int,
            previous_block_hash: match self.previous_block_hash {
                Some(h) => Some(h@),
                None => None,
            },
            burn_amount: self.burn_amount as int,
            data: self.data@,
            created_at: self.created_at as int,
        }
    }
}

impl DeepView for StoredBlock {
    type V = BlockRec;

    open spec fn deep_view(&self) -> BlockRec {
        self@
    }
}

impl Clone for StoredBlock {
    fn clone(&self) -> (res: Self)
        ensures
            res == *self,
    {
        StoredBlock {
            height: self.height,
            time: self.time,
            hash: self.hash.clone(),
            proposer_address: self.proposer_address.clone(),
            tx_count: self.tx_count,
            previous_block_hash: match &self.previous_block_hash {
                Some(h) => Some(h.clone()),
                None => None,
            },
            burn_amount: self.burn_amount,
            data: self.data.clone(),
            created_at: self.created_at,
        }
    }
}

/// The mathematical value of an optional amount.
pub open spec fn opt_int(o: Option<u64>) -> Option<int> {
    match o {
        Some(a) => Some(a as int),
        None => None,
    }
}

/// Mathematical model of one stored transaction row.
pub struct TxRec {
    pub id: int,
    pub tx_hash: Seq<char>,
    pub block_height: int,
    pub time: int,
    pub action_type: Seq<char>,
    pub amount: Option<int>,
    pub data: Seq<char>,
    pub created_at: int,
}

/// One stored transaction row.
#[derive(Debug)]
pub struct Transaction {
    /// Row id, assigned in insertion order by the store.
    pub id: u64,
    /// Unique transaction hash; the row's identity.
    pub tx_hash: String,
    /// Height of the owning block.
    pub block_height: u64,
    /// Timestamp inherited from the owning block, seconds since the epoch.
    pub time: i64,
    /// Coarse classification label of the transaction's action.
    pub action_type: String,
    /// Amount associated with the action, if the classifier found one.
    pub amount: Option<u64>,
    /// Raw transaction payload.
    pub data: String,
    /// When the indexer ingested the row, seconds since the epoch.
    pub created_at: i64,
}

impl View for Transaction {
    type V = TxRec;

    open spec fn view(&self) -> TxRec {
        TxRec {
            id: self.id as int,
            tx_hash: self.tx_hash@,
            block_height: self.block_height as int,
            time: self.time as int,
            action_type: self.action_type@,
            amount: match self.amount {
                Some(a) => Some(a as int),
                None => None,
            },
            data: self.data@,
            created_at: self.created_at as int,
        }
    }
}

impl DeepView for Transaction {
    type V = TxRec;

    open spec fn deep_view(&self) -> TxRec {
        self@
    }
}

impl Clone for Transaction {
    fn clone(&self) -> (res: Self)
        ensures
            res == *self,
    {
        Transaction {
            id: self.id,
            tx_hash: self.tx_hash.clone(),
            block_height: self.block_height,
            time: self.time,
            action_type: self.action_type.clone(),
            amount: self.amount,
            data: self.data.clone(),
            created_at: self.created_at,
        }
    }
}

/// Mathematical model of a block summary.
pub struct BlockSummaryRec {
    pub height: int,
    pub time: int,
    pub tx_count: int,
}

/// The summary of a block as the list endpoint returns it.
#[derive(Clone, Copy, PartialEq, Eq, Structural, Debug)]
pub struct BlockSummary {
    pub height: u64,
    pub time: i64,
    pub tx_count: u32,
}

impl View for BlockSummary {
    type V = BlockSummaryRec;

    open spec fn view(&self) -> BlockSummaryRec {
        BlockSummaryRec { height: self.height as int, time: self.time as int, tx_count: self.tx_count as int }
    }
}

impl DeepView for BlockSummary {
    type V = BlockSummaryRec;

    open spec fn deep_view(&self) -> BlockSummaryRec {
        self@
    }
}

/// The summary a block row reduces to.
pub open spec fn spec_block_summary(b: BlockRec) -> BlockSummaryRec {
    BlockSummaryRec { height: b.height, time: b.time, tx_count: b.tx_count }
}

impl StoredBlock {
    /// Reduces the row to the shape the list endpoint returns.
    pub fn to_summary(&self) -> (s: BlockSummary)
        ensures
            s@ == spec_block_summary(self@),
    {
        BlockSummary { height: self.height, time: self.time, tx_count: self.tx_count }
    }
}

/// A page of block summaries with its length.
#[derive(Debug)]
pub struct BlockList {
    pub blocks: Vec<BlockSummary>,
    pub total_count: u64,
}

impl BlockList {
    pub fn new(blocks: Vec<BlockSummary>) -> (l: Self)
        ensures
            l.blocks@ == blocks@,
            l.total_count == blocks@.len(),
    {
        let total_count = blocks.len() as u64;
        Self { blocks, total_count }
    }
}

/// Mathematical model of a transaction summary.
pub struct TxSummaryRec {
    pub tx_hash: Seq<char>,
    pub block_height: int,
    pub action_type: Seq<char>,
    pub amount: Option<int>,
}

/// The summary of a transaction as the list endpoints return it.
#[derive(Debug)]
pub struct TransactionSummary {
    pub tx_hash: String,
    pub block_height: u64,
    pub action_type: String,
    pub amount: Option<u64>,
}

impl View for TransactionSummary {
    type V = TxSummaryRec;

    open spec fn view(&self) -> TxSummaryRec {
        TxSummaryRec {
            tx_hash: self.tx_hash@,
            block_height: self.block_height as int,
            action_type: self.action_type@,
            amount: match self.amount {
                Some(a) => Some(a as int),
                None => None,
            },
        }
    }
}

impl DeepView for TransactionSummary {
    type V = TxSummaryRec;

    open spec fn deep_view(&self) -> TxSummaryRec {
        self@
    }
}

/// The summary a transaction row reduces to.
pub open spec fn spec_tx_summary(t: TxRec) -> TxSummaryRec {
    TxSummaryRec {
        tx_hash: t.tx_hash,
        block_height: t.block_height,
        action_type: t.action_type,
        amount: t.amount,
    }
}

impl Transaction {
    /// Reduces the row to the shape the list endpoints return.
    pub fn to_summary(&self) -> (s: TransactionSummary)
        ensures
            s@ == spec_tx_summary(self@),
    {
        TransactionSummary {
            tx_hash: self.tx_hash.clone(),
            block_height: self.block_height,
            action_type: self.action_type.clone(),
            amount: self.amount,
        }
    }
}

/// A page of transaction summaries with its length.
#[derive(Debug)]
pub struct TransactionList {
    pub transactions: Vec<TransactionSummary>,
    pub total_count: u64,
}

impl TransactionList {
    pub fn new(transactions: Vec<TransactionSummary>) -> (l: Self)
        ensures
            l.transactions@ == transactions@,
            l.total_count == transactions@.len(),
    {
        let total_count = transactions.len() as u64;
        Self { transactions, total_count }
    }
}

} // verus!
