//! General laws of the ledger, stated and proved against the model.

use vstd::prelude::*;

use crate::account::{account_matches, Account};
use crate::model::{
    all_clients_fit, amount_in, apply, client_state, clients, dedup, in_i128, init_state,
    is_monetary, ledger, ledger_fits, of_client, replay, state_in_i128, ReplayState,
};
use crate::transaction::{Transaction, TransactionKind};

verus! {

/// The value disputed out of withdrawals while replaying `s`: the summed
/// magnitude of the (negative) amounts that dispute records reference.
pub open spec fn withdrawal_dispute_volume(s: Seq<Transaction>, m: Map<u64, int>) -> int
    decreases s.len(),
{
    if s.len() == 0 {
        0
    } else {
        let p = withdrawal_dispute_volume(s.drop_last(), m);
        let a = amount_in(m, s.last().transaction_id);
        if s.last().kind is Dispute && a < 0 {
            p - a
        } else {
            p
        }
    }
}

/// The value resolved back out of withdrawal disputes while replaying `s`.
pub open spec fn withdrawal_resolve_volume(s: Seq<Transaction>, m: Map<u64, int>) -> int
    decreases s.len(),
{
    if s.len() == 0 {
        0
    } else {
        let p = withdrawal_resolve_volume(s.drop_last(), m);
        let a = amount_in(m, s.last().transaction_id);
        if s.last().kind is Resolve && a < 0 {
            p - a
        } else {
            p
        }
    }
}

/// Funds conservation. Replay changes the gap between `available + held`
/// and `total` by exactly the disputed-withdrawal volume minus the
/// resolved-withdrawal volume: a dispute of a withdrawal grows available,
/// held and total together, and only its resolve closes the gap again.
/// Every other event keeps `available + held == total` in step.
pub proof fn lemma_funds_conservation(s: Seq<Transaction>, m: Map<u64, int>, st: ReplayState)
    ensures
        replay(s, m, st).available + replay(s, m, st).held - replay(s, m, st).total
            == st.available + st.held - st.total + withdrawal_dispute_volume(s, m)
            - withdrawal_resolve_volume(s, m),
    decreases s.len(),
{
    if s.len() > 0 {
        lemma_funds_conservation(s.drop_last(), m, st);
    }
}

/// Balance invariant: for a client whose replay disputes and resolves the
/// same volume of withdrawals — in particular, one whose dispute lifecycle
/// only ever references deposits or unknown ids — the returned snapshot
/// satisfies `total == available + held`.
pub proof fn lemma_balance_invariant(txs: Seq<Transaction>, c: u16)
    requires
        ({
            let s = dedup(of_client(txs, c));
            let m = ledger(s).amounts;
            withdrawal_dispute_volume(s, m) == withdrawal_resolve_volume(s, m)
        }),
    ensures
        client_state(txs, c).total == client_state(txs, c).available + client_state(txs, c).held,
{
    let s = dedup(of_client(txs, c));
    let lv = ledger(s);
    lemma_funds_conservation(s, lv.amounts, init_state(lv.total));
}

proof fn lemma_volumes_zero_without_negative_amounts(s: Seq<Transaction>, m: Map<u64, int>)
    requires
        forall|id: u64| m.dom().contains(id) ==> #[trigger] m[id] >= 0,
    ensures
        withdrawal_dispute_volume(s, m) == 0,
        withdrawal_resolve_volume(s, m) == 0,
    decreases s.len(),
{
    if s.len() > 0 {
        lemma_volumes_zero_without_negative_amounts(s.drop_last(), m);
    }
}

/// Balance invariant, in its most common shape: a client none of whose
/// recorded signed amounts is negative — no withdrawal can ever be
/// disputed — always ends with `total == available + held`.
pub proof fn lemma_balance_invariant_without_withdrawal_disputes(txs: Seq<Transaction>, c: u16)
    requires
        forall|id: u64|
            ledger(dedup(of_client(txs, c))).amounts.dom().contains(id) ==> #[trigger] ledger(
                dedup(of_client(txs, c)),
            ).amounts[id] >= 0,
    ensures
        client_state(txs, c).total == client_state(txs, c).available + client_state(txs, c).held,
{
    let s = dedup(of_client(txs, c));
    lemma_volumes_zero_without_negative_amounts(s, ledger(s).amounts);
    lemma_balance_invariant(txs, c);
}

/// Resolve undoes Dispute. Disputing and then resolving a transaction
/// whose signed amount is non-negative — a deposit, or an unknown id whose
/// amount reads as zero — restores available and held to their pre-dispute
/// values, and total is unchanged throughout. (Disputing a withdrawal is
/// different: it grows total, and its resolve leaves that growth in
/// place.)
pub proof fn lemma_dispute_then_resolve_restores(st: ReplayState, a: int)
    requires
        a >= 0,
    ensures
        apply(apply(st, TransactionKind::Dispute, a), TransactionKind::Resolve, a) == st,
        apply(st, TransactionKind::Dispute, a).total == st.total,
{
}

/// The replay-level reading of the round trip: appending a dispute and
/// then a resolve of the same transaction — one whose signed amount is
/// non-negative — to a client's history leaves the final balances exactly
/// as they were.
pub proof fn lemma_dispute_resolve_roundtrip(
    s: Seq<Transaction>,
    m: Map<u64, int>,
    st: ReplayState,
    d: Transaction,
    r: Transaction,
)
    requires
        d.kind is Dispute,
        r.kind is Resolve,
        r.transaction_id == d.transaction_id,
        amount_in(m, d.transaction_id) >= 0,
    ensures
        replay(s.push(d).push(r), m, st) == replay(s, m, st),
{
    reveal_with_fuel(replay, 3);
    assert(s.push(d).push(r).drop_last() =~= s.push(d));
    assert(s.push(d).push(r).last() == r);
    assert(s.push(d).drop_last() =~= s);
    assert(s.push(d).last() == d);
    lemma_dispute_then_resolve_restores(replay(s, m, st), amount_in(m, d.transaction_id));
}

/// The balance invariant over a returned snapshot: whatever snapshot the
/// batch yields for a client whose replay disputes and resolves the same
/// volume of withdrawals satisfies `total == available + held`.
pub proof fn lemma_snapshot_balance_invariant(a: Account, txs: Seq<Transaction>, c: u16)
    requires
        account_matches(a, txs, c),
        ({
            let s = dedup(of_client(txs, c));
            let m = ledger(s).amounts;
            withdrawal_dispute_volume(s, m) == withdrawal_resolve_volume(s, m)
        }),
    ensures
        a.total == a.available + a.held,
{
    lemma_balance_invariant(txs, c);
}

/// Unknown references are no-ops. A dispute, resolve or chargeback whose
/// transaction id is not in the signed-amount map reads an amount of zero
/// and moves no funds; a dispute or resolve leaves the state untouched
/// entirely, while a chargeback still sets the lock.
pub proof fn lemma_unknown_reference_noop(
    st: ReplayState,
    k: TransactionKind,
    m: Map<u64, int>,
    id: u64,
)
    requires
        !m.dom().contains(id),
        !is_monetary(k),
    ensures
        apply(st, k, amount_in(m, id)).available == st.available,
        apply(st, k, amount_in(m, id)).held == st.held,
        apply(st, k, amount_in(m, id)).total == st.total,
        (k is Dispute || k is Resolve) ==> apply(st, k, amount_in(m, id)) == st,
{
}

proof fn lemma_of_client_len(s: Seq<Transaction>, c: u16)
    ensures
        of_client(s, c).len() <= s.len(),
    decreases s.len(),
{
    if s.len() > 0 {
        lemma_of_client_len(s.drop_last(), c);
    }
}

proof fn lemma_dedup_len(s: Seq<Transaction>)
    ensures
        dedup(s).len() <= s.len(),
    decreases s.len(),
{
    if s.len() > 0 {
        lemma_dedup_len(s.drop_last());
    }
}

/// Every amount of a signed-amount map is the signed value of one
/// monetary record, so its magnitude is below `u64::MAX`.
spec fn map_bounded(m: Map<u64, int>) -> bool {
    forall|id: u64|
        m.dom().contains(id) ==> -(u64::MAX as int) <= #[trigger] m[id] <= u64::MAX as int
}

proof fn lemma_ledger_bounded(s: Seq<Transaction>)
    ensures
        map_bounded(ledger(s).amounts),
        -2 * s.len() * (u64::MAX as int) <= ledger(s).total <= 2 * s.len() * (u64::MAX as int),
    decreases s.len(),
{
    if s.len() > 0 {
        lemma_ledger_bounded(s.drop_last());
    }
}

/// Each replay step moves each balance by at most the magnitude of one
/// recorded amount, so a replay of `s` drifts at most `s.len()` amounts
/// away from where it started.
proof fn lemma_replay_bounded(s: Seq<Transaction>, m: Map<u64, int>, st: ReplayState, b: int)
    requires
        map_bounded(m),
        -b <= st.available <= b,
        -b <= st.held <= b,
        -b <= st.total <= b,
    ensures
        ({
            let e = replay(s, m, st);
            let drift = b + s.len() * (u64::MAX as int);
            &&& -drift <= e.available <= drift
            &&& -drift <= e.held <= drift
            &&& -drift <= e.total <= drift
        }),
    decreases s.len(),
{
    if s.len() > 0 {
        lemma_replay_bounded(s.drop_last(), m, st, b);
    }
}

/// No realistic batch can overflow the engine's 128-bit arithmetic: any
/// batch of at most `0x1_0000_0000` records satisfies the machine-limit
/// precondition of `Account::from_transactions`, whatever its amounts.
pub proof fn lemma_bounded_batch_fits(txs: Seq<Transaction>)
    requires
        txs.len() <= 0x1_0000_0000,
    ensures
        all_clients_fit(txs),
{
    assert forall|c: u16| clients(txs).contains(c) implies ledger_fits(
        #[trigger] dedup(of_client(txs, c)),
    ) by {
        let s = dedup(of_client(txs, c));
        lemma_of_client_len(txs, c);
        lemma_dedup_len(of_client(txs, c));
        let um = u64::MAX as int;
        let b = 2 * (s.len() as int) * um;
        lemma_ledger_bounded(s);
        assert forall|i: int| 0 <= i <= s.len() implies in_i128(
            #[trigger] ledger(s.take(i)).total,
        ) by {
            lemma_ledger_bounded(s.take(i));
        };
        assert forall|i: int| 0 <= i <= s.len() implies state_in_i128(
            #[trigger] replay(s.take(i), ledger(s).amounts, init_state(ledger(s).total)),
        ) by {
            lemma_replay_bounded(s.take(i), ledger(s).amounts, init_state(ledger(s).total), b);
        };
    };
}

/// The replay-level reading of the unknown-reference law: appending a
/// dispute or resolve of an unknown id to a client's history leaves the
/// final balances exactly as they were.
pub proof fn lemma_unknown_reference_skip(
    s: Seq<Transaction>,
    m: Map<u64, int>,
    st: ReplayState,
    t: Transaction,
)
    requires
        !m.dom().contains(t.transaction_id),
        t.kind is Dispute || t.kind is Resolve,
    ensures
        replay(s.push(t), m, st) == replay(s, m, st),
{
    assert(s.push(t).drop_last() =~= s);
    assert(s.push(t).last() == t);
}

} // verus!
