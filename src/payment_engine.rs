//! The dispatcher: owns every account, routes each record to its client's
//! account (opening it on first sight) and reports the final figures.
use crate::account::{
    error_for, fresh, next, summary_of, Account, AccountModel, AccountSummary,
};
use crate::error::EngineError;
use crate::transaction::{Transaction, TransactionModel};
use std::collections::HashMap;
use vstd::prelude::*;

verus! {

broadcast use vstd::std_specs::hash::group_hash_axioms;

/// The account that a client has in `m`, or a fresh one.
pub open spec fn account_or_fresh(m: Map<u16, AccountModel>, client: u16) -> AccountModel {
    if m.contains_key(client) {
        m[client]
    } else {
        fresh(client)
    }
}

/// The accounts after routing one record, or `None` where it fails.
pub open spec fn route_spec(m: Map<u16, AccountModel>, t: TransactionModel) -> Option<Map<u16, AccountModel>> {
    match next(account_or_fresh(m, t.client), t) {
        Some(b) => Some(m.insert(t.client, b)),
        None => None,
    }
}

/// The accounts after routing records in order, or `None` where one fails.
pub open spec fn run_spec(m: Map<u16, AccountModel>, ts: Seq<TransactionModel>) -> Option<Map<u16, AccountModel>>
    decreases ts.len(),
{
    if ts.len() == 0 {
        Some(m)
    } else {
        match run_spec(m, ts.drop_last()) {
            Some(m1) => route_spec(m1, ts.last()),
            None => None,
        }
    }
}

/// The contents of a sequence of records.
pub open spec fn views(ts: Seq<Transaction>) -> Seq<TransactionModel> {
    ts.map_values(|t: Transaction| t@)
}

/// Whether record `i` of `ts` is the first to fail when `ts` is routed from
/// `m`, and fails with `e`.
pub open spec fn failing_record(m: Map<u16, AccountModel>, ts: Seq<TransactionModel>, i: int, e: EngineError) -> bool {
    &&& run_spec(m, ts.take(i)) is Some
    &&& route_spec(run_spec(m, ts.take(i))->0, ts[i]) is None
    &&& error_for(ts[i], e)
}

/// The accounts after a run from `m` stopped at the failing record `i`: as
/// routed up to it, with the failing client's account present and unchanged.
pub open spec fn stopped_at(m: Map<u16, AccountModel>, ts: Seq<TransactionModel>, i: int) -> Map<u16, AccountModel> {
    let m1 = run_spec(m, ts.take(i))->0;
    m1.insert(ts[i].client, account_or_fresh(m1, ts[i].client))
}

/// Whether no record of `ts` is addressed to `client`.
pub open spec fn untouched(ts: Seq<TransactionModel>, client: u16) -> bool {
    forall|i: int| 0 <= i < ts.len() ==> (#[trigger] ts[i]).client != client
}

/// The sole owner of all accounts, keyed by client id.
pub struct PaymentsEngine {
    accounts: HashMap<u16, Account>,
    /// Client ids in order of first appearance.
    clients: Vec<u16>,
}

impl PaymentsEngine {
    /// The state of every account, by client id.
    pub closed spec fn model(&self) -> Map<u16, AccountModel> {
        self.accounts@.map_values(|a: Account| a@)
    }

    /// The order in which clients first appeared.
    pub closed spec fn client_order(&self) -> Seq<u16> {
        self.clients@
    }

    pub closed spec fn wf(&self) -> bool {
        &&& forall|c: u16| #[trigger] self.accounts@.contains_key(c) ==> self.accounts@[c].wf()
            && self.accounts@[c]@.client == c
        &&& self.clients@.no_duplicates()
        &&& forall|c: u16| #[trigger] self.accounts@.contains_key(c) <==> self.clients@.contains(c)
    }

    /// The model of every account is well formed and keyed by its client.
    pub proof fn lemma_wf_model(&self)
        requires
            self.wf(),
        ensures
            forall|c: u16| #[trigger] self.model().contains_key(c) ==> self.model()[c].wf()
                && self.model()[c].client == c,
            forall|c: u16| #[trigger] self.model().contains_key(c) <==> self.client_order().contains(c),
            self.client_order().no_duplicates(),
    {
    }

    /// An engine with no accounts.
    pub fn new() -> (r: PaymentsEngine)
        ensures
            r.wf(),
            r.model() == Map::<u16, AccountModel>::empty(),
    {
        let r = PaymentsEngine { accounts: HashMap::new(), clients: Vec::new() };
        assert(r.model() =~= Map::<u16, AccountModel>::empty());
        r
    }

    /// Routes one record to its client's account, opening the account on
    /// first sight, and applies it there. An error of the account's is
    /// handed back; the run is then meant to stop.
    pub fn route(&mut self, transaction: Transaction) -> (r: Result<(), EngineError>)
        requires
            old(self).wf(),
        ensures
            final(self).wf(),
            r is Ok <==> route_spec(old(self).model(), transaction@) is Some,
            match r {
                Ok(()) => final(self).model() == route_spec(old(self).model(), transaction@)->0,
                Err(e) => error_for(transaction@, e) && final(self).model() == old(self).model().insert(
                    transaction.client,
                    account_or_fresh(old(self).model(), transaction.client),
                ),
            },
    {
        let client = transaction.client;
        let ghost t = transaction@;
        let ghost m0 = self.model();
        let ghost cl0 = self.clients@;
        let mut account = match self.accounts.remove(&client) {
            Some(a) => a,
            None => {
                self.clients.push(client);
                Account::new(client)
            },
        };
        assert(account@ == account_or_fresh(m0, client));
        let r = account.apply_transaction(transaction);
        proof {
            if r is Ok {
                assert(account@.client == client);
            }
        }
        self.accounts.insert(client, account);
        assert(self.model() =~= m0.insert(client, account@));
        proof {
            assert forall|c: u16| #[trigger] self.accounts@.contains_key(c) <==> self.clients@.contains(c) by {
                if !old(self).accounts@.contains_key(client) {
                    vstd::seq_lib::lemma_seq_contains_after_push(cl0, client, c);
                }
                if c == client {
                    assert(self.clients@.contains(client)) by {
                        if !old(self).accounts@.contains_key(client) {
                            assert(self.clients@.last() == client);
                        }
                    }
                }
            }
            if r is Ok {
                assert(account@.client == client) by {
                    assert(next(account_or_fresh(m0, client), t) is Some);
                }
            }
        }
        r
    }

    /// Routes records in order, stopping at the first that fails.
    pub fn process_transactions(&mut self, transactions: Vec<Transaction>) -> (r: Result<(), EngineError>)
        requires
            old(self).wf(),
        ensures
            final(self).wf(),
            r is Ok <==> run_spec(old(self).model(), views(transactions@)) is Some,
            r is Ok ==> final(self).model() == run_spec(
                old(self).model(),
                views(transactions@),
            )->0,
            r is Err ==> exists|i: int|
                #![trigger views(transactions@)[i]]
                0 <= i < transactions@.len() && failing_record(
                    old(self).model(),
                    views(transactions@),
                    i,
                    r->Err_0,
                ) && final(self).model() == stopped_at(old(self).model(), views(transactions@), i),
            forall|c: u16| #[trigger] old(self).model().contains_key(c) ==> final(self).model().contains_key(c),
            forall|c: u16| #[trigger] untouched(views(transactions@), c) ==> {
                &&& final(self).model().contains_key(c) == old(self).model().contains_key(c)
                &&& old(self).model().contains_key(c) ==> final(self).model()[c] == old(self).model()[c]
            },
    {
        let ghost ts = views(transactions@);
        let ghost m0 = self.model();
        let mut queue = transactions;
        let ghost orig = queue@;
        let n = queue.len();
        let mut i: usize = 0;
        while i < n
            invariant
                self.wf(),
                n == ts.len(),
                n == orig.len(),
                ts == views(orig),
                ts == views(transactions@),
                m0 == old(self).model(),
                0 <= i <= n,
                queue@ == orig.skip(i as int),
                run_spec(m0, ts.take(i as int)) == Some(self.model()),
                forall|c: u16| #[trigger] m0.contains_key(c) ==> self.model().contains_key(c),
                forall|c: u16| #[trigger] untouched(ts.take(i as int), c) ==> {
                    &&& self.model().contains_key(c) == m0.contains_key(c)
                    &&& m0.contains_key(c) ==> self.model()[c] == m0[c]
                },
            decreases n - i,
        {
            let t = queue.remove(0);
            assert(t@ == ts[i as int]);
            assert(ts.take(i + 1).drop_last() =~= ts.take(i as int));
            let ghost before = self.model();
            let r = self.route(t);
            proof {
                assert forall|c: u16| #[trigger] untouched(ts.take(i + 1), c) implies untouched(ts.take(i as int), c)
                    && c != t@.client by {
                    assert(ts.take(i + 1)[i as int] == ts[i as int]);
                    assert forall|q: int| 0 <= q < i implies (#[trigger] ts.take(i as int)[q]).client != c by {
                        assert(ts.take(i as int)[q] == ts.take(i + 1)[q]);
                    }
                }
            }
            if r.is_err() {
                assert(failing_record(m0, ts, i as int, r->Err_0));
                assert(self.model() == stopped_at(m0, ts, i as int));
                assert forall|c: u16| #[trigger] untouched(ts, c) implies untouched(ts.take(i + 1), c) by {
                    assert forall|q: int| 0 <= q < i + 1 implies (#[trigger] ts.take(i + 1)[q]).client != c by {
                        assert(ts.take(i + 1)[q] == ts[q]);
                    }
                }
                assert(run_spec(m0, ts.take(i + 1)) is None);
                assert forall|j: int| i + 1 <= j <= n implies #[trigger] run_spec(m0, ts.take(j)) is None by {
                    self.lemma_run_stays_failed(m0, ts, i + 1, j);
                }
                assert(run_spec(m0, ts.take(n as int)) is None);
                assert(ts.take(n as int) =~= ts);
                return r;
            }
            i += 1;
            assert(queue@ =~= orig.skip(i as int));
        }
        assert(ts.take(n as int) =~= ts);
        assert forall|c: u16| #[trigger] untouched(ts, c) implies untouched(ts.take(n as int), c) by {}
        Ok(())
    }

    proof fn lemma_run_stays_failed(&self, m0: Map<u16, AccountModel>, ts: Seq<TransactionModel>, i: int, j: int)
        requires
            0 <= i <= j <= ts.len(),
            run_spec(m0, ts.take(i)) is None,
        ensures
            run_spec(m0, ts.take(j)) is None,
        decreases j - i,
    {
        if j > i {
            self.lemma_run_stays_failed(m0, ts, i, j - 1);
            assert(ts.take(j).drop_last() =~= ts.take(j - 1));
        }
    }

    /// The figures of every account, in order of the clients' first records.
    pub fn snapshot(&self) -> (r: Vec<AccountSummary>)
        requires
            self.wf(),
        ensures
            r@.len() == self.client_order().len(),
            forall|i: int| 0 <= i < r@.len() ==> #[trigger] r@[i] == summary_of(
                self.model()[self.client_order()[i]],
            ),
    {
        let mut r: Vec<AccountSummary> = Vec::new();
        let mut i: usize = 0;
        while i < self.clients.len()
            invariant
                self.wf(),
                0 <= i <= self.clients@.len(),
                r@.len() == i,
                forall|k: int| 0 <= k < i ==> #[trigger] r@[k] == summary_of(
                    self.model()[self.client_order()[k]],
                ),
            decreases self.clients@.len() - i,
        {
            let c = self.clients[i];
            assert(self.clients@.contains(c));
            match self.accounts.get(&c) {
                Some(a) => {
                    r.push(a.summary());
                },
                None => {
                    assert(false);
                },
            }
            i += 1;
        }
        r
    }
}

} // verus!
