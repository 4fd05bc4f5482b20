//! The ledger store: client balance records keyed by client id, and
//! accepted transactions keyed by transaction id, each held in a
//! `dashmap::DashMap`.
use crate::transactions::{Transaction, TransactionStatus, TransactionType, TransactionWithStatus};
use dashmap::DashMap;
use vstd::prelude::*;

verus! {

/// The balances of one client. Amounts count ten-thousandths of a unit.
#[derive(Copy, Clone, Debug)]
pub struct Client {
    pub id: u16,
    pub available: i64,
    pub held: i64,
    pub total: i64,
    pub locked: bool,
}

impl Client {
    /// A client with zero balances that is not locked.
    pub fn new(id: u16) -> (r: Self)
        ensures
            r == fresh_client(id),
    {
        Client { id, available: 0, held: 0, total: 0, locked: false }
    }
}

impl Default for Client {
    fn default() -> (r: Self)
        ensures
            r == fresh_client(0),
    {
        Client::new(0)
    }
}

/// The record that the first event naming client `id` creates.
pub open spec fn fresh_client(id: u16) -> Client {
    Client { id, available: 0, held: 0, total: 0, locked: false }
}

/// The value of `m` at `k`, if any.
pub open spec fn lookup<K, V>(m: Map<K, V>, k: K) -> Option<V> {
    if m.contains_key(k) {
        Some(m[k])
    } else {
        None
    }
}

/// A client record as the store keeps it under key `k`: its total is the
/// sum of its available and held funds, and held funds are never negative.
pub open spec fn client_ok(k: u16, c: Client) -> bool {
    &&& c.id == k
    &&& c.total == c.available + c.held
    &&& c.held >= 0
}

/// A transaction record as the store keeps it under key `k`: an accepted
/// deposit or withdrawal of a non-negative amount.
pub open spec fn record_ok(k: u32, r: TransactionWithStatus) -> bool {
    &&& r.tx.tx_id == k
    &&& (r.tx.tx_type == TransactionType::Deposit || r.tx.tx_type == TransactionType::Withdrawal)
    &&& r.tx.amount is Some
    &&& r.tx.amount->0 >= 0
}

/// Well-formedness of the two maps of the store.
pub open spec fn store_ok(clients: Map<u16, Client>, txs: Map<u32, TransactionWithStatus>) -> bool {
    &&& forall|k: u16| #[trigger] clients.contains_key(k) ==> client_ok(k, clients[k])
    &&& forall|k: u32| #[trigger] txs.contains_key(k) ==> record_ok(k, txs[k])
}

/// `dashmap::DashMap`, a hash map with locking per shard, seen from here as
/// an opaque value whose entries `client_entries` and `record_entries` name.
#[verifier::external_type_specification]
#[verifier::external_body]
#[verifier::reject_recursive_types(K)]
#[verifier::reject_recursive_types(V)]
#[verifier::reject_recursive_types(S)]
pub struct ExDashMap<K, V, S>(DashMap<K, V, S>);

/// The entries of a map of client records.
pub uninterp spec fn client_entries(m: DashMap<u16, Client>) -> Map<u16, Client>;

/// The entries of a map of transaction records.
pub uninterp spec fn record_entries(m: DashMap<u32, TransactionWithStatus>) -> Map<
    u32,
    TransactionWithStatus,
>;

/// Relies on `DashMap::new`: a new map holds no entry.
#[verifier::external_body]
fn new_client_map() -> (r: DashMap<u16, Client>)
    ensures
        client_entries(r) =~= Map::empty(),
{
    DashMap::new()
}

/// Relies on `DashMap::get`: the value stored under `k`, if any.
#[verifier::external_body]
fn client_map_get(m: &DashMap<u16, Client>, k: u16) -> (r: Option<Client>)
    ensures
        r == lookup(client_entries(*m), k),
{
    m.get(&k).map(|e| *e.value())
}

/// Relies on `DashMap::insert`: `v` is stored under `k`, replacing any
/// earlier value, and no other entry changes.
#[verifier::external_body]
fn client_map_insert(m: &mut DashMap<u16, Client>, k: u16, v: Client)
    ensures
        client_entries(*final(m)) == client_entries(*old(m)).insert(k, v),
{
    m.insert(k, v);
}

/// Relies on `DashMap::iter`: it visits every entry of the map exactly once,
/// in an order that the caller cannot rely on.
#[verifier::external_body]
fn client_map_entries(m: &DashMap<u16, Client>) -> (r: Vec<(u16, Client)>)
    ensures
        forall|i: int|
            0 <= i < r@.len() ==> #[trigger] client_entries(*m).contains_key(r@[i].0)
                && client_entries(*m)[r@[i].0] == r@[i].1,
        forall|i: int, j: int| 0 <= i < j < r@.len() ==> r@[i].0 != r@[j].0,
        forall|k: u16|
            client_entries(*m).contains_key(k) ==> exists|i: int|
                0 <= i < r@.len() && #[trigger] r@[i].0 == k,
{
    m.iter().map(|e| (*e.key(), *e.value())).collect()
}

/// Relies on `DashMap::new`: a new map holds no entry.
#[verifier::external_body]
fn new_record_map() -> (r: DashMap<u32, TransactionWithStatus>)
    ensures
        record_entries(r) =~= Map::empty(),
{
    DashMap::new()
}

/// Relies on `DashMap::get`: the value stored under `k`, if any.
#[verifier::external_body]
fn record_map_get(m: &DashMap<u32, TransactionWithStatus>, k: u32) -> (r: Option<
    TransactionWithStatus,
>)
    ensures
        r == lookup(record_entries(*m), k),
{
    m.get(&k).map(|e| *e.value())
}

/// Relies on `DashMap::insert`: `v` is stored under `k`, replacing any
/// earlier value, and no other entry changes.
#[verifier::external_body]
fn record_map_insert(m: &mut DashMap<u32, TransactionWithStatus>, k: u32, v: TransactionWithStatus)
    ensures
        record_entries(*final(m)) == record_entries(*old(m)).insert(k, v),
{
    m.insert(k, v);
}

/// The store of client and transaction records.
pub struct Ledger {
    clients: DashMap<u16, Client>,
    transactions: DashMap<u32, TransactionWithStatus>,
}

impl Ledger {
    /// The client records, by client id.
    pub closed spec fn client_map(&self) -> Map<u16, Client> {
        client_entries(self.clients)
    }

    /// The transaction records, by transaction id.
    pub closed spec fn tx_map(&self) -> Map<u32, TransactionWithStatus> {
        record_entries(self.transactions)
    }

    pub open spec fn wf(&self) -> bool {
        store_ok(self.client_map(), self.tx_map())
    }

    /// An empty store.
    pub fn new() -> (r: Self)
        ensures
            r.wf(),
            r.client_map() == Map::<u16, Client>::empty(),
            r.tx_map() == Map::<u32, TransactionWithStatus>::empty(),
    {
        Ledger { clients: new_client_map(), transactions: new_record_map() }
    }

    /// The record of client `id`, if that client exists.
    pub fn client(&self, id: u16) -> (r: Option<Client>)
        ensures
            r == lookup(self.client_map(), id),
    {
        client_map_get(&self.clients, id)
    }

    /// The record of transaction `id`, if it was accepted.
    pub fn transaction(&self, id: u32) -> (r: Option<TransactionWithStatus>)
        ensures
            r == lookup(self.tx_map(), id),
    {
        record_map_get(&self.transactions, id)
    }

    /// Every client record, each once, in no particular order.
    pub fn clients(&self) -> (r: Vec<Client>)
        requires
            self.wf(),
        ensures
            forall|i: int|
                0 <= i < r@.len() ==> #[trigger] self.client_map().contains_key(r@[i].id)
                    && self.client_map()[r@[i].id] == r@[i],
            forall|i: int, j: int| 0 <= i < j < r@.len() ==> r@[i].id != r@[j].id,
            forall|k: u16|
                self.client_map().contains_key(k) ==> exists|i: int|
                    0 <= i < r@.len() && #[trigger] r@[i].id == k,
    {
        let entries = client_map_entries(&self.clients);
        assert forall|i: int| 0 <= i < entries@.len() implies #[trigger] entries@[i].1.id
            == entries@[i].0 by {
            assert(client_entries(self.clients).contains_key(entries@[i].0));
        }
        let mut r: Vec<Client> = Vec::new();
        let mut n: usize = 0;
        while n < entries.len()
            invariant
                n <= entries@.len(),
                forall|i: int| 0 <= i < entries@.len() ==> #[trigger] entries@[i].1.id == entries@[i].0,
                r@.len() == n,
                forall|i: int| 0 <= i < n ==> #[trigger] r@[i] == entries@[i].1,
                forall|i: int| 0 <= i < n ==> r@[i].id == entries@[i].0,
            decreases entries@.len() - n,
        {
            r.push(entries[n].1);
            n = n + 1;
        }
        assert forall|i: int| 0 <= i < r@.len() implies #[trigger] self.client_map().contains_key(
            r@[i].id,
        ) && self.client_map()[r@[i].id] == r@[i] by {
            assert(client_entries(self.clients).contains_key(entries@[i].0));
        }
        assert forall|k: u16| self.client_map().contains_key(k) implies exists|i: int|
            0 <= i < r@.len() && #[trigger] r@[i].id == k by {
            let i = choose|i: int| 0 <= i < entries@.len() && #[trigger] entries@[i].0 == k;
            assert(r@[i].id == k);
        }
        r
    }

    /// The record of client `id`, created with zero balances if that client
    /// did not exist yet.
    pub fn client_or_new(&mut self, id: u16) -> (r: Client)
        requires
            old(self).wf(),
        ensures
            final(self).wf(),
            r == final(self).client_map()[id],
            final(self).client_map() == (if old(self).client_map().contains_key(id) {
                old(self).client_map()
            } else {
                old(self).client_map().insert(id, fresh_client(id))
            }),
            final(self).tx_map() == old(self).tx_map(),
    {
        match self.client(id) {
            Some(c) => c,
            None => {
                let c = Client::new(id);
                self.put_client(c);
                c
            },
        }
    }

    /// Records `tx` with status `Good`, unless a transaction with its id is
    /// already recorded.
    pub fn insert_new_transaction(&mut self, tx: Transaction)
        requires
            old(self).wf(),
            record_ok(tx.tx_id, TransactionWithStatus { tx, status: TransactionStatus::Good }),
        ensures
            final(self).wf(),
            final(self).tx_map() == (if old(self).tx_map().contains_key(tx.tx_id) {
                old(self).tx_map()
            } else {
                old(self).tx_map().insert(
                    tx.tx_id,
                    TransactionWithStatus { tx, status: TransactionStatus::Good },
                )
            }),
            final(self).client_map() == old(self).client_map(),
    {
        if self.transaction(tx.tx_id).is_none() {
            self.put_transaction(TransactionWithStatus { tx, status: TransactionStatus::Good });
        }
    }

    /// Stores `c` as the record of client `c.id`.
    pub(crate) fn put_client(&mut self, c: Client)
        ensures
            final(self).client_map() == old(self).client_map().insert(c.id, c),
            final(self).tx_map() == old(self).tx_map(),
    {
        client_map_insert(&mut self.clients, c.id, c);
    }

    /// Stores `r` as the record of transaction `r.tx.tx_id`.
    pub(crate) fn put_transaction(&mut self, r: TransactionWithStatus)
        ensures
            final(self).tx_map() == old(self).tx_map().insert(r.tx.tx_id, r),
            final(self).client_map() == old(self).client_map(),
    {
        record_map_insert(&mut self.transactions, r.tx.tx_id, r);
    }
}

} // verus!
