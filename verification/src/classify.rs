//! Transaction classification: the pluggable step that derives an action
//! label, an optional amount and a burn contribution from a raw
//! transaction payload. Chain-specific decoding is an extension point;
//! the default implementation is the deliberate placeholder the indexer
//! ships with.

use vstd::prelude::*;

use crate::text::{spec_contains, str_contains};

verus! {

/// Mathematical result of classifying one transaction.
pub struct TxClass {
    pub action_type: Seq<char>,
    pub amount: Option<int>,
    pub burn: nat,
}

/// Result of classifying one transaction.
#[derive(Debug)]
pub struct TxClassification {
    /// Coarse label of the action the transaction performs.
    pub action_type: String,
    /// Amount associated with the action, if one was found.
    pub amount: Option<u64>,
    /// The transaction's contribution to the block's burn total.
    pub burn: u64,
}

impl View for TxClassification {
    type V = TxClass;

    open spec fn view(&self) -> TxClass {
        TxClass {
            action_type: self.action_type@,
            amount: crate::records::opt_int(self.amount),
            burn: self.burn as nat,
        }
    }
}

/// A strategy for decoding raw transaction payloads. The sync engine is
/// written against this trait so a chain-specific decoder can replace
/// the placeholder without touching the engine's control flow.
pub trait TxClassifier: Sized {
    /// What the strategy derives from a payload, as a function of the
    /// payload's characters alone.
    spec fn classify_spec(&self, data: Seq<char>) -> TxClass;

    /// Classifies one raw transaction payload.
    fn classify(&self, data: &str) -> (c: TxClassification)
        ensures
            c@ == self.classify_spec(data@),
    ;
}

/// The placeholder strategy: it labels a payload mentioning "spend" as a
/// spend with a fixed amount, labels everything else as unsupported, and
/// never finds a burn. Real decoding is an unimplemented extension point.
#[derive(Debug)]
pub struct NoopClassifier;

impl TxClassifier for NoopClassifier {
    open spec fn classify_spec(&self, data: Seq<char>) -> TxClass {
        if spec_contains(data, "spend"@) {
            TxClass { action_type: "spend"@, amount: Some(3), burn: 0 }
        } else {
            TxClass { action_type: "not yet supported act..."@, amount: None, burn: 0 }
        }
    }

    fn classify(&self, data: &str) -> (c: TxClassification) {
        if str_contains(data, "spend") {
            TxClassification {
                action_type: String::from_str("spend"),
                amount: Some(3),
                burn: 0,
            }
        } else {
            TxClassification {
                action_type: String::from_str("not yet supported act..."),
                amount: None,
                burn: 0,
            }
        }
    }
}

} // verus!
