//! Transaction records consumed by the ledger.

use vstd::prelude::*;

verus! {

/// The kind of a transaction record.
///
/// `Deposit` and `Withdrawal` carry a non-negative fixed-point amount,
/// stored as a count of minor units. `Dispute`, `Resolve` and `Chargeback`
/// carry no amount of their own: they reference a prior monetary
/// transaction by its id.
#[derive(Clone, Copy, Debug, PartialEq, Eq, Structural)]
pub enum TransactionKind {
    Deposit { amount: u64 },
    Withdrawal { amount: u64 },
    Dispute,
    Resolve,
    Chargeback,
}

/// One immutable transaction record.
///
/// `transaction_id` identifies a monetary transaction within the stream;
/// a dispute, resolve or chargeback must match both `client` and
/// `transaction_id` of its target. Equality is structural over all fields,
/// so byte-identical records are indistinguishable and collapse to a single
/// logical event before replay.
#[derive(Clone, Copy, Debug, PartialEq, Eq, Structural)]
pub struct Transaction {
    pub transaction_id: u64,
    pub client: u16,
    pub kind: TransactionKind,
}

} // verus!
