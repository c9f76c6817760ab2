//! The account ledger: replaying transactions into account snapshots.

use vstd::prelude::*;

use crate::error::Error;
use crate::model::{
    all_clients_fit, amount_in, client_state, client_total, clients, dedup, in_i128, init_state,
    ledger, ledger_fits, of_client, replay, signed_amount, state_in_i128,
};
use crate::transaction::{Transaction, TransactionKind};

verus! {

/// The final snapshot of one client's account, constructed once at the end
/// of replaying that client's full transaction history.
///
/// The monetary fields are fixed-point decimals stored as counts of minor
/// units, signed because a replayed history can hold more than it keeps
/// available.
#[derive(Clone, Copy, Debug, PartialEq, Eq, Structural)]
pub struct Account {
    pub client: u16,
    pub available: i128,
    pub held: i128,
    pub total: i128,
    pub locked: bool,
}

/// Whether `a` is the snapshot that the batch `txs` yields for client `c`.
pub open spec fn account_matches(a: Account, txs: Seq<Transaction>, c: u16) -> bool {
    let st = client_state(txs, c);
    &&& a.client == c
    &&& a.available as int == st.available
    &&& a.held as int == st.held
    &&& a.total as int == st.total
    &&& a.locked == st.locked
}

/// One entry of the per-client signed-amount table: the signed amount
/// recorded under a monetary transaction id.
#[derive(Clone, Copy)]
struct Entry {
    id: u64,
    amount: i128,
}

/// The map an entry table denotes: each id to its recorded signed amount.
spec fn entries_map(es: Seq<Entry>) -> Map<u64, int>
    decreases es.len(),
{
    if es.len() == 0 {
        Map::empty()
    } else {
        entries_map(es.drop_last()).insert(es.last().id, es.last().amount as int)
    }
}

/// No id occurs twice in the table.
spec fn distinct_ids(es: Seq<Entry>) -> bool {
    forall|p: int, q: int| 0 <= p < q < es.len() ==> es[p].id != es[q].id
}

/// Every recorded amount is the signed value of one monetary record, so
/// its magnitude is at most `u64::MAX`.
spec fn amounts_bounded(es: Seq<Entry>) -> bool {
    forall|p: int|
        0 <= p < es.len() ==> -(u64::MAX as int) <= (#[trigger] es[p]).amount as int
            <= u64::MAX as int
}

proof fn lemma_push_parts<A>(s: Seq<A>, t: A)
    ensures
        s.push(t).drop_last() == s,
        s.push(t).last() == t,
{
    assert(s.push(t).drop_last() =~= s);
}

proof fn lemma_take_succ<A>(s: Seq<A>, i: int)
    requires
        0 <= i < s.len(),
    ensures
        s.take(i + 1) == s.take(i).push(s[i]),
{
    assert(s.take(i + 1) =~= s.take(i).push(s[i]));
}

/// Collapsing duplicates neither adds nor loses records.
proof fn lemma_dedup_contains(s: Seq<Transaction>, t: Transaction)
    ensures
        dedup(s).contains(t) == s.contains(t),
    decreases s.len(),
{
    if s.len() > 0 {
        let p = s.drop_last();
        lemma_dedup_contains(p, t);
        if s.contains(t) {
            let i = choose|i: int| 0 <= i < s.len() && s[i] == t;
            if i < s.len() - 1 {
                assert(p[i] == t);
                assert(p.contains(t));
            } else {
                assert(s.last() == t);
            }
            if p.contains(t) {
                assert(dedup(p).contains(t));
                if !p.contains(s.last()) {
                    let j = choose|j: int| 0 <= j < dedup(p).len() && dedup(p)[j] == t;
                    assert(dedup(p).push(s.last())[j] == t);
                }
            } else {
                assert(s.last() == t);
                assert(dedup(s) == dedup(p).push(s.last()));
                assert(dedup(s).last() == t);
            }
        }
        if dedup(s).contains(t) {
            if p.contains(s.last()) {
                assert(dedup(p).contains(t));
                assert(p.contains(t));
                let i = choose|i: int| 0 <= i < p.len() && p[i] == t;
                assert(s[i] == t);
            } else {
                let j = choose|j: int| 0 <= j < dedup(s).len() && dedup(s)[j] == t;
                if j < dedup(s).len() - 1 {
                    assert(dedup(p)[j] == t);
                    assert(dedup(p).contains(t));
                    assert(p.contains(t));
                    let i = choose|i: int| 0 <= i < p.len() && p[i] == t;
                    assert(s[i] == t);
                } else {
                    assert(s.last() == t);
                    assert(s[s.len() - 1] == t);
                }
            }
            assert(s.contains(t));
        }
    }
}

/// An id recorded by no entry is outside the table's map.
proof fn lemma_entries_map_absent(es: Seq<Entry>, id: u64)
    requires
        forall|j: int| 0 <= j < es.len() ==> es[j].id != id,
    ensures
        !entries_map(es).dom().contains(id),
    decreases es.len(),
{
    if es.len() > 0 {
        assert(es[es.len() - 1].id != id);
        lemma_entries_map_absent(es.drop_last(), id);
    }
}

/// In a duplicate-free table the map sends each entry's id to its amount.
proof fn lemma_entries_map_get(es: Seq<Entry>, i: int)
    requires
        distinct_ids(es),
        0 <= i < es.len(),
    ensures
        entries_map(es).dom().contains(es[i].id),
        entries_map(es)[es[i].id] == es[i].amount as int,
    decreases es.len(),
{
    if i < es.len() - 1 {
        assert(es.drop_last()[i] == es[i]);
        lemma_entries_map_get(es.drop_last(), i);
        assert(es[i].id != es[es.len() - 1].id);
    }
}

/// Rewriting one entry's amount rewrites that id's image in the map.
proof fn lemma_entries_map_update(es: Seq<Entry>, i: int, a: i128)
    requires
        distinct_ids(es),
        0 <= i < es.len(),
    ensures
        entries_map(es.update(i, Entry { id: es[i].id, amount: a })) == entries_map(es).insert(
            es[i].id,
            a as int,
        ),
    decreases es.len(),
{
    let id = es[i].id;
    let es2 = es.update(i, Entry { id, amount: a });
    if i == es.len() - 1 {
        assert(es2.drop_last() =~= es.drop_last());
        assert(es2.last() == Entry { id, amount: a });
        assert(entries_map(es2) =~= entries_map(es).insert(id, a as int));
    } else {
        assert(es2.drop_last() =~= es.drop_last().update(i, Entry { id, amount: a }));
        assert(es.drop_last()[i] == es[i]);
        lemma_entries_map_update(es.drop_last(), i, a);
        assert(es2.last() == es.last());
        assert(es[i].id != es[es.len() - 1].id);
        assert(entries_map(es2) =~= entries_map(es).insert(id, a as int));
    }
}

/// Whether some entry records `id`, and where.
fn find_entry(es: &Vec<Entry>, id: u64) -> (r: Option<usize>)
    ensures
        match r {
            Some(i) => i < es@.len() && es@[i as int].id == id,
            None => forall|j: int| 0 <= j < es@.len() ==> es@[j].id != id,
        },
{
    let mut i: usize = 0;
    while i < es.len()
        invariant
            0 <= i <= es@.len(),
            forall|j: int| 0 <= j < i ==> es@[j].id != id,
        decreases es@.len() - i,
    {
        if es[i].id == id {
            return Some(i);
        }
        i = i + 1;
    }
    None
}

/// The signed amount recorded for `id`, or zero when the id is unknown.
fn lookup_amount(es: &Vec<Entry>, id: u64) -> (a: i128)
    requires
        distinct_ids(es@),
    ensures
        a as int == amount_in(entries_map(es@), id),
{
    match find_entry(es, id) {
        Some(i) => {
            proof {
                lemma_entries_map_get(es@, i as int);
            }
            es[i].amount
        },
        None => {
            proof {
                lemma_entries_map_absent(es@, id);
            }
            0
        },
    }
}

impl Account {
    /// Settle one client: sum the signed amounts of its duplicate-free
    /// records, fail when the sum is negative, otherwise replay the
    /// dispute lifecycle records and return the snapshot.
    fn process_client_transactions(client: u16, txns: Vec<Transaction>) -> (r: Result<
        Account,
        Error,
    >)
        requires
            ledger_fits(txns@),
        ensures
            ({
                let lv = ledger(txns@);
                let st = replay(txns@, lv.amounts, init_state(lv.total));
                match r {
                    Ok(a) => {
                        &&& lv.total >= 0
                        &&& a.client == client
                        &&& a.available as int == st.available
                        &&& a.held as int == st.held
                        &&& a.total as int == st.total
                        &&& a.locked == st.locked
                    },
                    Err(e) => {
                        &&& lv.total < 0
                        &&& e == (Error::NoAvailableFundsToWithdraw { client })
                    },
                }
            }),
{
        let n = txns.len();
        let mut entries: Vec<Entry> = Vec::new();
        let mut total: i128 = 0;
        for i in 0..n
            invariant
                n == txns@.len(),
                ledger_fits(txns@),
                distinct_ids(entries@),
                amounts_bounded(entries@),
                entries_map(entries@) == ledger(txns@.take(i as int)).amounts,
                total as int == ledger(txns@.take(i as int)).total,
        {
            let t = txns[i];
            proof {
                lemma_take_succ(txns@, i as int);
                lemma_push_parts(txns@.take(i as int), txns@[i as int]);
                assert(in_i128(ledger(txns@.take(i as int + 1)).total));
            }
            let a: i128;
            let monetary: bool;
            match t.kind {
                TransactionKind::Deposit { amount } => {
                    a = amount as i128;
                    monetary = true;
                },
                TransactionKind::Withdrawal { amount } => {
                    a = -(amount as i128);
                    monetary = true;
                },
                _ => {
                    a = 0;
                    monetary = false;
                },
            }
            if monetary {
                assert(a as int == signed_amount(t.kind));
                match find_entry(&entries, t.transaction_id) {
                    Some(idx) => {
                        let prev = entries[idx].amount;
                        proof {
                            lemma_entries_map_get(entries@, idx as int);
                            lemma_entries_map_update(entries@, idx as int, a);
                        }
                        let delta = a - prev;
                        entries.set(idx, Entry { id: t.transaction_id, amount: a });
                        total = total + delta;
                    },
                    None => {
                        proof {
                            lemma_entries_map_absent(entries@, t.transaction_id);
                            lemma_push_parts(entries@, Entry { id: t.transaction_id, amount: a });
                        }
                        entries.push(Entry { id: t.transaction_id, amount: a });
                        total = total + a;
                    },
                }
            }
        }
        proof {
            assert(txns@.take(n as int) =~= txns@);
        }
        if total < 0 {
            return Err(Error::NoAvailableFundsToWithdraw { client });
        }
        let ghost m = ledger(txns@).amounts;
        let mut available: i128 = total;
        let mut held: i128 = 0;
        let mut tot: i128 = total;
        let mut locked: bool = false;
        proof {
            assert(txns@.take(0) =~= Seq::<Transaction>::empty());
        }
        for j in 0..n
            invariant
                n == txns@.len(),
                ledger_fits(txns@),
                distinct_ids(entries@),
                entries_map(entries@) == m,
                m == ledger(txns@).amounts,
                total as int == ledger(txns@).total,
                ({
                    let st = replay(txns@.take(j as int), m, init_state(ledger(txns@).total));
                    &&& available as int == st.available
                    &&& held as int == st.held
                    &&& tot as int == st.total
                    &&& locked == st.locked
                }),
        {
            let t = txns[j];
            proof {
                lemma_take_succ(txns@, j as int);
                lemma_push_parts(txns@.take(j as int), txns@[j as int]);
                assert(state_in_i128(
                    replay(txns@.take(j as int + 1), m, init_state(ledger(txns@).total)),
                ));
            }
            match t.kind {
                TransactionKind::Dispute => {
                    let a = lookup_amount(&entries, t.transaction_id);
                    if a < 0 {
                        available = available - a;
                        held = held - a;
                        tot = tot - a;
                    } else {
                        available = available - a;
                        held = held + a;
                    }
                },
                TransactionKind::Resolve => {
                    let a = lookup_amount(&entries, t.transaction_id);
                    if a < 0 {
                        held = held + a;
                    } else {
                        available = available + a;
                        held = held - a;
                    }
                },
                TransactionKind::Chargeback => {
                    locked = true;
                },
                _ => {},
            }
        }
        proof {
            assert(txns@.take(n as int) =~= txns@);
        }
        Ok(Account { client, available, held, total: tot, locked })
    }

    /// Settle a whole batch: one snapshot per distinct client, in order of
    /// first appearance, or the error of the first client, in that order,
    /// whose summed deposits minus withdrawals is negative.
    pub fn from_transactions(txs: Vec<Transaction>) -> (r: Result<Vec<Account>, Error>)
        requires
            all_clients_fit(txs@),
        ensures
            match r {
                Ok(accounts) => {
                    &&& accounts@.len() == clients(txs@).len()
                    &&& forall|k: int|
                        0 <= k < accounts@.len() ==> account_matches(
                            #[trigger] accounts@[k],
                            txs@,
                            clients(txs@)[k],
                        )
                    &&& forall|k: int|
                        0 <= k < clients(txs@).len() ==> client_total(
                            txs@,
                            #[trigger] clients(txs@)[k],
                        ) >= 0
                },
                Err(e) => exists|k: int|
                    {
                        &&& 0 <= k < clients(txs@).len()
                        &&& client_total(txs@, #[trigger] clients(txs@)[k]) < 0
                        &&& e == (Error::NoAvailableFundsToWithdraw { client: clients(txs@)[k] })
                        &&& forall|j: int| 0 <= j < k ==> client_total(txs@, clients(txs@)[j]) >= 0
                    },
            },
    {
        let n = txs.len();
        let mut cl: Vec<u16> = Vec::new();
        for i in 0..n
            invariant
                n == txs@.len(),
                cl@ == clients(txs@.take(i as int)),
        {
            let t = txs[i];
            proof {
                lemma_take_succ(txs@, i as int);
                lemma_push_parts(txs@.take(i as int), txs@[i as int]);
            }
            if !contains_client(&cl, t.client) {
                cl.push(t.client);
            }
        }
        proof {
            assert(txs@.take(n as int) =~= txs@);
        }
        let m = cl.len();
        let mut accounts: Vec<Account> = Vec::new();
        for k in 0..m
            invariant
                n == txs@.len(),
                m == cl@.len(),
                cl@ == clients(txs@),
                all_clients_fit(txs@),
                accounts@.len() == k,
                forall|j: int|
                    0 <= j < k ==> account_matches(#[trigger] accounts@[j], txs@, cl@[j]),
                forall|j: int| 0 <= j < k ==> client_total(txs@, #[trigger] cl@[j]) >= 0,
        {
            let c = cl[k];
            let mut d: Vec<Transaction> = Vec::new();
            for i in 0..n
                invariant
                    n == txs@.len(),
                    d@ == dedup(of_client(txs@.take(i as int), c)),
            {
                let t = txs[i];
                proof {
                    lemma_take_succ(txs@, i as int);
                    lemma_push_parts(txs@.take(i as int), txs@[i as int]);
                    if t.client == c {
                        lemma_push_parts(of_client(txs@.take(i as int), c), t);
                        lemma_dedup_contains(of_client(txs@.take(i as int), c), t);
                    }
                }
                if t.client == c {
                    if !contains_tx(&d, &t) {
                        d.push(t);
                    }
                }
            }
            proof {
                assert(txs@.take(n as int) =~= txs@);
                assert(clients(txs@)[k as int] == c);
                assert(clients(txs@).contains(c));
                assert(ledger_fits(d@));
            }
            match Account::process_client_transactions(c, d) {
                Ok(a) => {
                    accounts.push(a);
                },
                Err(e) => {
                    return Err(e);
                },
            }
        }
        Ok(accounts)
    }
}

/// Whether the client list already holds `c`.
fn contains_client(v: &Vec<u16>, c: u16) -> (r: bool)
    ensures
        r == v@.contains(c),
{
    let mut i: usize = 0;
    while i < v.len()
        invariant
            0 <= i <= v@.len(),
            forall|j: int| 0 <= j < i ==> v@[j] != c,
        decreases v@.len() - i,
    {
        if v[i] == c {
            return true;
        }
        i = i + 1;
    }
    false
}

/// Whether the gathered records already hold one equal to `t`.
fn contains_tx(v: &Vec<Transaction>, t: &Transaction) -> (r: bool)
    ensures
        r == v@.contains(*t),
{
    let mut i: usize = 0;
    while i < v.len()
        invariant
            0 <= i <= v@.len(),
            forall|j: int| 0 <= j < i ==> v@[j] != *t,
        decreases v@.len() - i,
    {
        let x = v[i];
        if x == *t {
            return true;
        }
        i = i + 1;
    }
    false
}

} // verus!
