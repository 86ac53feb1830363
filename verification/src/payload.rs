//! What the chain node hands the engine for one block, already decoded
//! into plain values. The transport (polling HTTP or streaming gRPC) and
//! the wire decoding live outside the library; the engine only sees this
//! shape.

use vstd::prelude::*;

verus! {

/// Unique identifier of a block on the chain.
#[derive(Debug)]
pub struct BlockId {
    /// The block's hash.
    pub hash: String,
}

impl View for BlockId {
    type V = Seq<char>;

    open spec fn view(&self) -> Seq<char> {
        self.hash@
    }
}

/// The block's own content: its transactions, absent when the block
/// carries none.
#[derive(Debug)]
pub struct BlockData {
    /// Raw transaction payloads, in block order.
    pub txs: Option<Vec<String>>,
}

impl View for BlockData {
    type V = Option<Seq<Seq<char>>>;

    open spec fn view(&self) -> Option<Seq<Seq<char>>> {
        match self.txs {
            Some(ref v) => Some(v.deep_view()),
            None => None,
        }
    }
}

/// Mathematical model of one fetched block.
pub struct PayloadV {
    pub time: int,
    pub hash: Seq<char>,
    pub proposer_address: Seq<char>,
    pub prev_hash: Option<Seq<char>>,
    pub txs: Option<Seq<Seq<char>>>,
    pub raw: Seq<char>,
}

/// One fetched block, decoded to plain values.
#[derive(Debug)]
pub struct BlockPayload {
    /// Producer-assigned block timestamp, seconds since the epoch.
    pub time: i64,
    /// Identifier of this block.
    pub block_id: BlockId,
    /// Address of the validator who proposed the block.
    pub proposer_address: String,
    /// Identifier of the previous block; absent only at the chain start.
    pub last_block_id: Option<BlockId>,
    /// The block's transactions.
    pub data: BlockData,
    /// The raw response body, kept as an opaque blob.
    pub raw: String,
}

impl View for BlockPayload {
    type V = PayloadV;

    open spec fn view(&self) -> PayloadV {
        PayloadV {
            time: self.time as int,
            hash: self.block_id@,
            proposer_address: self.proposer_address@,
            prev_hash: match self.last_block_id {
                Some(ref id) => Some(id@),
                None => None,
            },
            txs: self.data@,
            raw: self.raw@,
        }
    }
}

/// The transactions of a payload, empty when the block carries none.
pub open spec fn spec_txs_of(p: PayloadV) -> Seq<Seq<char>> {
    match p.txs {
        Some(t) => t,
        None => Seq::empty(),
    }
}

} // verus!
