//! The mathematical model of the ledger.
//!
//! A batch of transactions is interpreted per client: the client's records
//! are collected in input order, duplicate records are collapsed to their
//! first occurrence, the monetary records define a signed-amount map and
//! its running sum, and the dispute, resolve and chargeback records are
//! replayed in order against the balances. The executable code in
//! `account` is specified against these functions.

use vstd::prelude::*;

use crate::transaction::{Transaction, TransactionKind};

verus! {

/// Whether a record moves money by itself: a deposit or a withdrawal.
pub open spec fn is_monetary(k: TransactionKind) -> bool {
    k is Deposit || k is Withdrawal
}

/// The signed contribution of a monetary record: a deposit counts
/// positively, a withdrawal negatively. Other kinds contribute nothing.
pub open spec fn signed_amount(k: TransactionKind) -> int {
    match k {
        TransactionKind::Deposit { amount } => amount as int,
        TransactionKind::Withdrawal { amount } => -(amount as int),
        _ => 0,
    }
}

/// The records of one client, in input order.
pub open spec fn of_client(s: Seq<Transaction>, c: u16) -> Seq<Transaction>
    decreases s.len(),
{
    if s.len() == 0 {
        Seq::empty()
    } else {
        let p = of_client(s.drop_last(), c);
        if s.last().client == c {
            p.push(s.last())
        } else {
            p
        }
    }
}

/// The sequence with every repeated record removed, keeping the first
/// occurrence of each and the relative order of what stays. Structurally
/// identical records are one logical event.
pub open spec fn dedup(s: Seq<Transaction>) -> Seq<Transaction>
    decreases s.len(),
{
    if s.len() == 0 {
        Seq::empty()
    } else {
        let p = dedup(s.drop_last());
        if s.drop_last().contains(s.last()) {
            p
        } else {
            p.push(s.last())
        }
    }
}

/// The distinct clients of a batch, in order of first appearance.
pub open spec fn clients(s: Seq<Transaction>) -> Seq<u16>
    decreases s.len(),
{
    if s.len() == 0 {
        Seq::empty()
    } else {
        let p = clients(s.drop_last());
        if p.contains(s.last().client) {
            p
        } else {
            p.push(s.last().client)
        }
    }
}

/// The signed-amount map of a client's records together with the sum of
/// its entries. A later monetary record with an already-mapped id replaces
/// the earlier entry, as an insertion into a map does.
pub struct LedgerView {
    pub amounts: Map<u64, int>,
    pub total: int,
}

/// The signed-amount map and its running sum after the records of `s`.
pub open spec fn ledger(s: Seq<Transaction>) -> LedgerView
    decreases s.len(),
{
    if s.len() == 0 {
        LedgerView { amounts: Map::empty(), total: 0 }
    } else {
        let p = ledger(s.drop_last());
        let t = s.last();
        if is_monetary(t.kind) {
            let prev = if p.amounts.dom().contains(t.transaction_id) {
                p.amounts[t.transaction_id]
            } else {
                0
            };
            LedgerView {
                amounts: p.amounts.insert(t.transaction_id, signed_amount(t.kind)),
                total: p.total - prev + signed_amount(t.kind),
            }
        } else {
            p
        }
    }
}

/// The signed amount recorded for `id`, or zero when the id is unknown, so
/// that a reference to a missing transaction is a no-op.
pub open spec fn amount_in(m: Map<u64, int>, id: u64) -> int {
    if m.dom().contains(id) {
        m[id]
    } else {
        0
    }
}

/// The running balances of one client during replay.
pub struct ReplayState {
    pub available: int,
    pub held: int,
    pub total: int,
    pub locked: bool,
}

/// The balances before any dispute lifecycle event: everything the client
/// owns is available.
pub open spec fn init_state(total: int) -> ReplayState {
    ReplayState { available: total, held: 0, total, locked: false }
}

/// One replay step. `a` is the signed amount the event refers to, looked
/// up by its transaction id (zero when the id is unknown).
///
/// A dispute of a deposit moves the amount from available to held. A
/// dispute of a withdrawal recovers the withdrawn value: available, held
/// and total all grow by it. A resolve reverses the matching dispute's
/// effect on held, restoring available in the deposit case and leaving
/// available and total as the dispute left them in the withdrawal case. A
/// chargeback locks the account and moves no funds by itself. Monetary
/// records change nothing during replay.
pub open spec fn apply(st: ReplayState, k: TransactionKind, a: int) -> ReplayState {
    match k {
        TransactionKind::Dispute => if a < 0 {
            ReplayState {
                available: st.available - a,
                held: st.held - a,
                total: st.total - a,
                locked: st.locked,
            }
        } else {
            ReplayState {
                available: st.available - a,
                held: st.held + a,
                total: st.total,
                locked: st.locked,
            }
        },
        TransactionKind::Resolve => if a < 0 {
            ReplayState {
                available: st.available,
                held: st.held + a,
                total: st.total,
                locked: st.locked,
            }
        } else {
            ReplayState {
                available: st.available + a,
                held: st.held - a,
                total: st.total,
                locked: st.locked,
            }
        },
        TransactionKind::Chargeback => ReplayState {
            available: st.available,
            held: st.held,
            total: st.total,
            locked: true,
        },
        _ => st,
    }
}

/// The balances after replaying the records of `s` in order against the
/// signed-amount map `m`, starting from `st`.
pub open spec fn replay(s: Seq<Transaction>, m: Map<u64, int>, st: ReplayState) -> ReplayState
    decreases s.len(),
{
    if s.len() == 0 {
        st
    } else {
        apply(
            replay(s.drop_last(), m, st),
            s.last().kind,
            amount_in(m, s.last().transaction_id),
        )
    }
}

/// The sum of a client's signed amounts: deposits minus withdrawals.
pub open spec fn client_total(txs: Seq<Transaction>, c: u16) -> int {
    ledger(dedup(of_client(txs, c))).total
}

/// The final balances of one client of the batch `txs`.
pub open spec fn client_state(txs: Seq<Transaction>, c: u16) -> ReplayState {
    let s = dedup(of_client(txs, c));
    let lv = ledger(s);
    replay(s, lv.amounts, init_state(lv.total))
}

/// Whether a mathematical value is representable in the 128-bit signed
/// machine integers the executable code computes with.
pub open spec fn in_i128(v: int) -> bool {
    i128::MIN <= v <= i128::MAX
}

/// Whether every balance of a replay state is representable.
pub open spec fn state_in_i128(st: ReplayState) -> bool {
    in_i128(st.available) && in_i128(st.held) && in_i128(st.total)
}

/// Whether every intermediate value met while settling the record
/// sequence `s` of one client is representable: the running sum of signed
/// amounts after each prefix, and the balances after each replay prefix.
/// This is the machine limit under which the engine runs; it excludes
/// nothing else.
pub open spec fn ledger_fits(s: Seq<Transaction>) -> bool {
    &&& forall|i: int| 0 <= i <= s.len() ==> in_i128(#[trigger] ledger(s.take(i)).total)
    &&& forall|i: int|
        0 <= i <= s.len() ==> state_in_i128(
            #[trigger] replay(s.take(i), ledger(s).amounts, init_state(ledger(s).total)),
        )
}

/// Whether the whole batch stays within machine limits: the records of
/// every client, collapsed to distinct records, settle without leaving
/// the 128-bit range.
pub open spec fn all_clients_fit(txs: Seq<Transaction>) -> bool {
    forall|c: u16| clients(txs).contains(c) ==> ledger_fits(dedup(of_client(txs, c)))
}

} // verus!
