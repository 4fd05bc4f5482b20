//! The event processor: the state machine that applies one event to the
//! client record and the transaction record that the event names.
use crate::ledger::{client_ok, fresh_client, lookup, record_ok, store_ok, Client, Ledger};
use crate::transactions::{Transaction, TransactionStatus, TransactionType, TransactionWithStatus};
use vstd::prelude::*;

verus! {

/// Whether `x` can be held in an `i64`.
pub open spec fn fits(x: int) -> bool {
    i64::MIN <= x <= i64::MAX
}

/// The record of client `id`, or the record that an event would create.
pub open spec fn current(cl: Option<Client>, id: u16) -> Client {
    match cl {
        Some(c) => c,
        None => fresh_client(id),
    }
}

/// `c` with new balances.
pub open spec fn rebalanced(c: Client, available: int, held: int, total: int) -> Client {
    Client {
        id: c.id,
        available: available as i64,
        held: held as i64,
        total: total as i64,
        locked: c.locked,
    }
}

/// What event `e` does to the one client record and the one transaction
/// record that it names: `cl` is the record of client `e.client_id` and
/// `rec` that of transaction `e.tx_id`, where they exist. The result holds
/// the new value of each, or `None` where that record is left as it was.
/// An event whose result would not fit in an `i64` is ignored.
pub open spec fn effect(cl: Option<Client>, rec: Option<TransactionWithStatus>, e: Transaction) -> (
    Option<Client>,
    Option<TransactionWithStatus>,
) {
    let kept = (None, None);
    match e.tx_type {
        TransactionType::Deposit => {
            if rec is None && e.amount is Some && e.amount->0 >= 0 {
                let a = e.amount->0;
                let c = current(cl, e.client_id);
                if fits(c.available + a) && fits(c.total + a) {
                    (
                        Some(rebalanced(c, c.available + a, c.held as int, c.total + a)),
                        Some(TransactionWithStatus { tx: e, status: TransactionStatus::Good }),
                    )
                } else {
                    kept
                }
            } else {
                kept
            }
        },
        TransactionType::Withdrawal => {
            if rec is None && e.amount is Some && e.amount->0 >= 0 {
                let a = e.amount->0;
                let c = current(cl, e.client_id);
                if c.available >= a && fits(c.total - a) {
                    (
                        Some(rebalanced(c, c.available - a, c.held as int, c.total - a)),
                        Some(TransactionWithStatus { tx: e, status: TransactionStatus::Good }),
                    )
                } else if cl is None {
                    (Some(c), None)
                } else {
                    kept
                }
            } else {
                kept
            }
        },
        TransactionType::Dispute => {
            if cl is Some && rec is Some && rec->0.status == TransactionStatus::Good
                && rec->0.tx.amount is Some {
                let c = cl->0;
                let a = rec->0.tx.amount->0;
                if fits(c.available - a) && fits(c.held + a) {
                    (
                        Some(rebalanced(c, c.available - a, c.held + a, c.total as int)),
                        Some(TransactionWithStatus { tx: rec->0.tx, status: TransactionStatus::Disputed }),
                    )
                } else {
                    kept
                }
            } else {
                kept
            }
        },
        TransactionType::Resolve => {
            if cl is Some && rec is Some && rec->0.status == TransactionStatus::Disputed
                && rec->0.tx.amount is Some {
                let c = cl->0;
                let a = rec->0.tx.amount->0;
                if c.held >= a && fits(c.available + a) && fits(c.held - a) {
                    (
                        Some(rebalanced(c, c.available + a, c.held - a, c.total as int)),
                        Some(TransactionWithStatus { tx: rec->0.tx, status: TransactionStatus::Good }),
                    )
                } else {
                    kept
                }
            } else {
                kept
            }
        },
        TransactionType::Chargeback => {
            if cl is Some && rec is Some && rec->0.status == TransactionStatus::Disputed
                && rec->0.tx.amount is Some {
                let c = cl->0;
                let a = rec->0.tx.amount->0;
                if c.held >= a && fits(c.held - a) && fits(c.total - a) {
                    let d = rebalanced(c, c.available as int, c.held - a, c.total - a);
                    (
                        Some(Client { locked: true, ..d }),
                        Some(
                            TransactionWithStatus {
                                tx: rec->0.tx,
                                status: TransactionStatus::Chargeback,
                            },
                        ),
                    )
                } else {
                    kept
                }
            } else {
                kept
            }
        },
    }
}

/// `m` with `v` stored under `k`, where there is a `v`.
pub open spec fn update<K, V>(m: Map<K, V>, k: K, v: Option<V>) -> Map<K, V> {
    match v {
        Some(x) => m.insert(k, x),
        None => m,
    }
}

/// The client and transaction records after event `e` is applied to them.
pub open spec fn apply_event(
    clients: Map<u16, Client>,
    txs: Map<u32, TransactionWithStatus>,
    e: Transaction,
) -> (Map<u16, Client>, Map<u32, TransactionWithStatus>) {
    let (nc, nr) = effect(lookup(clients, e.client_id), lookup(txs, e.tx_id), e);
    (update(clients, e.client_id, nc), update(txs, e.tx_id, nr))
}

/// The client and transaction records after the events of `es` are applied
/// to them in order.
pub open spec fn apply_events(
    clients: Map<u16, Client>,
    txs: Map<u32, TransactionWithStatus>,
    es: Seq<Transaction>,
) -> (Map<u16, Client>, Map<u32, TransactionWithStatus>)
    decreases es.len(),
{
    if es.len() == 0 {
        (clients, txs)
    } else {
        let (c, t) = apply_events(clients, txs, es.drop_last());
        apply_event(c, t, es.last())
    }
}

/// The record of client `id` that an event starts from: the existing one,
/// or a fresh one.
fn current_client(cl: Option<Client>, id: u16) -> (r: Client)
    ensures
        r == current(cl, id),
{
    match cl {
        Some(c) => c,
        None => Client::new(id),
    }
}

/// Decides what event `e` does to the record `cl` of client `e.client_id`
/// and the record `rec` of transaction `e.tx_id`: the new value of each, or
/// `None` where it stays as it was.
pub fn transition(cl: Option<Client>, rec: Option<TransactionWithStatus>, e: Transaction) -> (r: (
    Option<Client>,
    Option<TransactionWithStatus>,
))
    ensures
        r == effect(cl, rec, e),
{
    match e.tx_type {
        TransactionType::Deposit => {
            if rec.is_some() {
                return (None, None);
            }
            let a = match e.amount {
                Some(a) => a,
                None => return (None, None),
            };
            if a < 0 {
                return (None, None);
            }
            let c = current_client(cl, e.client_id);
            match (c.available.checked_add(a), c.total.checked_add(a)) {
                (Some(available), Some(total)) => (
                    Some(Client { id: c.id, available, held: c.held, total, locked: c.locked }),
                    Some(TransactionWithStatus { tx: e, status: TransactionStatus::Good }),
                ),
                _ => (None, None),
            }
        },
        TransactionType::Withdrawal => {
            if rec.is_some() {
                return (None, None);
            }
            let a = match e.amount {
                Some(a) => a,
                None => return (None, None),
            };
            if a < 0 {
                return (None, None);
            }
            let c = current_client(cl, e.client_id);
            if c.available >= a {
                if let Some(total) = c.total.checked_sub(a) {
                    return (
                        Some(
                            Client {
                                id: c.id,
                                available: c.available - a,
                                held: c.held,
                                total,
                                locked: c.locked,
                            },
                        ),
                        Some(TransactionWithStatus { tx: e, status: TransactionStatus::Good }),
                    );
                }
            }
            if cl.is_none() {
                (Some(c), None)
            } else {
                (None, None)
            }
        },
        TransactionType::Dispute => {
            let (c, r, a) = match (cl, rec) {
                (Some(c), Some(r)) => match (r.status, r.tx.amount) {
                    (TransactionStatus::Good, Some(a)) => (c, r, a),
                    _ => return (None, None),
                },
                _ => return (None, None),
            };
            match (c.available.checked_sub(a), c.held.checked_add(a)) {
                (Some(available), Some(held)) => (
                    Some(Client { id: c.id, available, held, total: c.total, locked: c.locked }),
                    Some(TransactionWithStatus { tx: r.tx, status: TransactionStatus::Disputed }),
                ),
                _ => (None, None),
            }
        },
        TransactionType::Resolve => {
            let (c, r, a) = match (cl, rec) {
                (Some(c), Some(r)) => match (r.status, r.tx.amount) {
                    (TransactionStatus::Disputed, Some(a)) => (c, r, a),
                    _ => return (None, None),
                },
                _ => return (None, None),
            };
            if c.held < a {
                return (None, None);
            }
            match (c.available.checked_add(a), c.held.checked_sub(a)) {
                (Some(available), Some(held)) => (
                    Some(Client { id: c.id, available, held, total: c.total, locked: c.locked }),
                    Some(TransactionWithStatus { tx: r.tx, status: TransactionStatus::Good }),
                ),
                _ => (None, None),
            }
        },
        TransactionType::Chargeback => {
            let (c, r, a) = match (cl, rec) {
                (Some(c), Some(r)) => match (r.status, r.tx.amount) {
                    (TransactionStatus::Disputed, Some(a)) => (c, r, a),
                    _ => return (None, None),
                },
                _ => return (None, None),
            };
            if c.held < a {
                return (None, None);
            }
            match (c.held.checked_sub(a), c.total.checked_sub(a)) {
                (Some(held), Some(total)) => (
                    Some(Client { id: c.id, available: c.available, held, total, locked: true }),
                    Some(TransactionWithStatus { tx: r.tx, status: TransactionStatus::Chargeback }),
                ),
                _ => (None, None),
            }
        },
    }
}

/// Applies event `tx` to the store: looks up the client and the transaction
/// that it names, decides the transition, and writes back what changed.
/// Events that break a rule of the ledger leave the store as it was.
pub fn handle_transaction(tx: Transaction, ledger: &mut Ledger)
    requires
        old(ledger).wf(),
    ensures
        final(ledger).wf(),
        (final(ledger).client_map(), final(ledger).tx_map()) == apply_event(
            old(ledger).client_map(),
            old(ledger).tx_map(),
            tx,
        ),
{
    proof {
        lemma_event_keeps_store_ok(ledger.client_map(), ledger.tx_map(), tx);
    }
    let cl = ledger.client(tx.client_id);
    let rec = ledger.transaction(tx.tx_id);
    let (nc, nr) = transition(cl, rec, tx);
    if let Some(c) = nc {
        ledger.put_client(c);
    }
    if let Some(r) = nr {
        ledger.put_transaction(r);
    }
}

/// Applies the events of `txs` to the store, one after another in order.
pub fn handle_transactions(txs: &Vec<Transaction>, ledger: &mut Ledger)
    requires
        old(ledger).wf(),
    ensures
        final(ledger).wf(),
        (final(ledger).client_map(), final(ledger).tx_map()) == apply_events(
            old(ledger).client_map(),
            old(ledger).tx_map(),
            txs@,
        ),
{
    let ghost c0 = ledger.client_map();
    let ghost t0 = ledger.tx_map();
    let mut n: usize = 0;
    while n < txs.len()
        invariant
            n <= txs@.len(),
            ledger.wf(),
            (ledger.client_map(), ledger.tx_map()) == apply_events(c0, t0, txs@.subrange(0, n as int)),
        decreases txs@.len() - n,
    {
        assert(txs@.subrange(0, n as int + 1).drop_last() == txs@.subrange(0, n as int));
        handle_transaction(txs[n], ledger);
        n = n + 1;
    }
    assert(txs@.subrange(0, n as int) == txs@);
}

/// The balance invariant: applying any event to a well-formed store leaves
/// it well-formed, so every client's total is its available plus its held
/// funds, held funds are never negative, and every transaction record is an
/// accepted deposit or withdrawal of a non-negative amount.
pub proof fn lemma_event_keeps_store_ok(
    clients: Map<u16, Client>,
    txs: Map<u32, TransactionWithStatus>,
    e: Transaction,
)
    requires
        store_ok(clients, txs),
    ensures
        store_ok(apply_event(clients, txs, e).0, apply_event(clients, txs, e).1),
{
    let (c1, t1) = apply_event(clients, txs, e);
    assert forall|k: u16| #[trigger] c1.contains_key(k) implies client_ok(k, c1[k]) by {
        if k != e.client_id {
            assert(clients.contains_key(k));
        }
    }
    assert forall|k: u32| #[trigger] t1.contains_key(k) implies record_ok(k, t1[k]) by {
        if k != e.tx_id {
            assert(txs.contains_key(k));
        }
    }
}

/// The balance invariant over a whole stream of events.
pub proof fn lemma_events_keep_store_ok(
    clients: Map<u16, Client>,
    txs: Map<u32, TransactionWithStatus>,
    es: Seq<Transaction>,
)
    requires
        store_ok(clients, txs),
    ensures
        store_ok(apply_events(clients, txs, es).0, apply_events(clients, txs, es).1),
    decreases es.len(),
{
    if es.len() > 0 {
        lemma_events_keep_store_ok(clients, txs, es.drop_last());
        let (c, t) = apply_events(clients, txs, es.drop_last());
        lemma_event_keeps_store_ok(c, t, es.last());
    }
}

/// A transaction id is recorded at most once: a deposit or withdrawal whose
/// id is already recorded changes nothing, whatever its kind or amount.
pub proof fn lemma_duplicate_id_is_ignored(
    clients: Map<u16, Client>,
    txs: Map<u32, TransactionWithStatus>,
    e: Transaction,
)
    requires
        txs.contains_key(e.tx_id),
        e.tx_type == TransactionType::Deposit || e.tx_type == TransactionType::Withdrawal,
    ensures
        apply_event(clients, txs, e) == (clients, txs),
{
}

/// A recorded transaction stays recorded, with the same event, whatever
/// event comes next; only its status can change.
pub proof fn lemma_record_persists(
    clients: Map<u16, Client>,
    txs: Map<u32, TransactionWithStatus>,
    e: Transaction,
    k: u32,
)
    requires
        txs.contains_key(k),
    ensures
        apply_event(clients, txs, e).1.contains_key(k),
        apply_event(clients, txs, e).1[k].tx == txs[k].tx,
{
}

/// A dispute that takes effect, followed by a resolve of the same
/// transaction by the same client, gives back the store as it was before
/// the dispute: the client's balances and the transaction's status `Good`.
pub proof fn lemma_dispute_then_resolve_restores(
    clients: Map<u16, Client>,
    txs: Map<u32, TransactionWithStatus>,
    client_id: u16,
    tx_id: u32,
)
    requires
        store_ok(clients, txs),
        txs.contains_key(tx_id),
        txs[tx_id].status == TransactionStatus::Good,
        apply_event(
            clients,
            txs,
            (Transaction { tx_type: TransactionType::Dispute, client_id, tx_id, amount: None }),
        ).1[tx_id].status == TransactionStatus::Disputed,
    ensures
        ({
            let (c1, t1) = apply_event(
                clients,
                txs,
                (Transaction { tx_type: TransactionType::Dispute, client_id, tx_id, amount: None }),
            );
            apply_event(
                c1,
                t1,
                (Transaction { tx_type: TransactionType::Resolve, client_id, tx_id, amount: None }),
            ) == (clients, txs)
        }),
{
    let d = Transaction { tx_type: TransactionType::Dispute, client_id, tx_id, amount: None };
    let r = Transaction { tx_type: TransactionType::Resolve, client_id, tx_id, amount: None };
    let (c1, t1) = apply_event(clients, txs, d);
    let (c2, t2) = apply_event(c1, t1, r);
    assert(clients.contains_key(client_id));
    assert(c2 =~= clients);
    assert(t2 =~= txs);
}

/// A chargeback is terminal: once a transaction is charged back, no event
/// changes its record, and a later resolve or chargeback of it changes
/// nothing at all.
pub proof fn lemma_charged_back_is_terminal(
    clients: Map<u16, Client>,
    txs: Map<u32, TransactionWithStatus>,
    e: Transaction,
    k: u32,
)
    requires
        txs.contains_key(k),
        txs[k].status == TransactionStatus::Chargeback,
    ensures
        apply_event(clients, txs, e).1[k] == txs[k],
        e.tx_id == k && (e.tx_type == TransactionType::Resolve || e.tx_type
            == TransactionType::Chargeback) ==> apply_event(clients, txs, e) == (clients, txs),
{
}

/// A chargeback that takes effect locks the client that it names.
pub proof fn lemma_chargeback_locks(
    clients: Map<u16, Client>,
    txs: Map<u32, TransactionWithStatus>,
    e: Transaction,
)
    requires
        e.tx_type == TransactionType::Chargeback,
        apply_event(clients, txs, e).1 != txs,
    ensures
        apply_event(clients, txs, e).0.contains_key(e.client_id),
        apply_event(clients, txs, e).0[e.client_id].locked,
{
}

/// A locked client stays locked, whatever events come after.
pub proof fn lemma_locked_stays_locked(
    clients: Map<u16, Client>,
    txs: Map<u32, TransactionWithStatus>,
    es: Seq<Transaction>,
    id: u16,
)
    requires
        clients.contains_key(id),
        clients[id].locked,
    ensures
        apply_events(clients, txs, es).0.contains_key(id),
        apply_events(clients, txs, es).0[id].locked,
    decreases es.len(),
{
    if es.len() > 0 {
        lemma_locked_stays_locked(clients, txs, es.drop_last(), id);
    }
}

/// A withdrawal of more than the available funds is refused: no transaction
/// is recorded and no balance changes. A client that it names for the first
/// time is still created, with zero balances.
pub proof fn lemma_overdrawing_withdrawal_is_refused(
    clients: Map<u16, Client>,
    txs: Map<u32, TransactionWithStatus>,
    e: Transaction,
)
    requires
        e.tx_type == TransactionType::Withdrawal,
        e.amount is Some,
        e.amount->0 > current(lookup(clients, e.client_id), e.client_id).available,
    ensures
        apply_event(clients, txs, e).1 == txs,
        clients.contains_key(e.client_id) ==> apply_event(clients, txs, e).0 == clients,
        !clients.contains_key(e.client_id) ==> apply_event(clients, txs, e).0 == clients
            || apply_event(clients, txs, e).0 == clients.insert(
            e.client_id,
            fresh_client(e.client_id),
        ),
{
}

/// Events of two different clients on two different transaction ids give
/// the same store in either order.
pub proof fn lemma_other_client_events_commute(
    clients: Map<u16, Client>,
    txs: Map<u32, TransactionWithStatus>,
    a: Transaction,
    b: Transaction,
)
    requires
        a.client_id != b.client_id,
        a.tx_id != b.tx_id,
    ensures
        ({
            let (ca, ta) = apply_event(clients, txs, a);
            let (cb, tb) = apply_event(clients, txs, b);
            apply_event(ca, ta, b) == apply_event(cb, tb, a)
        }),
{
    let (ca, ta) = apply_event(clients, txs, a);
    let (cb, tb) = apply_event(clients, txs, b);
    assert(lookup(ca, b.client_id) == lookup(clients, b.client_id));
    assert(lookup(ta, b.tx_id) == lookup(txs, b.tx_id));
    assert(lookup(cb, a.client_id) == lookup(clients, a.client_id));
    assert(lookup(tb, a.tx_id) == lookup(txs, a.tx_id));
    let (cab, tab) = apply_event(ca, ta, b);
    let (cba, tba) = apply_event(cb, tb, a);
    assert(cab =~= cba);
    assert(tab =~= tba);
}

} // verus!
