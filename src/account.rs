//! A client's account: balances, the ledger of accepted transactions, the
//! open disputes, and the freeze that a chargeback brings.
use crate::error::EngineError;
use crate::transaction::{kind_of, parse_kind, Transaction, TransactionKind, TransactionModel};
use std::collections::{HashMap, HashSet};
use vstd::prelude::*;

verus! {

broadcast use vstd::std_specs::hash::group_hash_axioms;

/// Largest magnitude, in units, that `available` or `held` may reach.
pub const BALANCE_LIMIT: i128 = 1_000_000_000_000_000_000_000_000_000_000;

/// Whether a balance lies in the representable range.
pub open spec fn in_bounds(x: int) -> bool {
    -BALANCE_LIMIT <= x <= BALANCE_LIMIT
}

/// The mathematical state of an account.
pub struct AccountModel {
    pub client: u16,
    pub available: int,
    pub held: int,
    pub locked: bool,
    /// Amount of each accepted deposit or withdrawal, by transaction id.
    pub history: Map<u32, u64>,
    /// Transactions currently under dispute.
    pub disputed: Set<u32>,
}

impl AccountModel {
    /// Total funds, derived from the two balances.
    pub open spec fn total(self) -> int {
        self.available + self.held
    }

    pub open spec fn wf(self) -> bool {
        &&& in_bounds(self.available)
        &&& in_bounds(self.held)
        &&& self.disputed.subset_of(self.history.dom())
        &&& self.history.dom().finite()
    }
}

/// A new account of `client`: empty, open, with no history.
pub open spec fn fresh(client: u16) -> AccountModel {
    AccountModel {
        client,
        available: 0,
        held: 0,
        locked: false,
        history: Map::empty(),
        disputed: Set::empty(),
    }
}

/// The state after a balance change, or `None` where a balance would leave
/// the representable range.
pub open spec fn with_balances(a: AccountModel, available: int, held: int) -> Option<AccountModel> {
    if in_bounds(available) && in_bounds(held) {
        Some(AccountModel { available, held, ..a })
    } else {
        None
    }
}

/// The effect of one transaction on an account: `Some` of the next state, or
/// `None` where the record is malformed or out of range (see `error_for`).
/// Business rejections leave the state as it was.
///
/// A dispute of a withdrawal moves its amount from available to held just as
/// a dispute of a deposit does, although the withdrawal already lowered
/// available: the penalty is counted twice. This is an open question of the
/// ledger's rules, kept as it stands until those rules say otherwise.
pub open spec fn next(a: AccountModel, t: TransactionModel) -> Option<AccountModel> {
    if a.locked {
        Some(a)
    } else {
        match kind_of(t.kind) {
            None => None,
            Some(TransactionKind::Deposit) => match t.amount {
                None => None,
                Some(x) => match with_balances(a, a.available + x, a.held) {
                    Some(b) => Some(AccountModel { history: a.history.insert(t.tx, x), ..b }),
                    None => None,
                },
            },
            Some(TransactionKind::Withdrawal) => match t.amount {
                None => None,
                Some(x) => if a.available - x >= 0 {
                    Some(
                        AccountModel {
                            available: a.available - x,
                            history: a.history.insert(t.tx, x),
                            ..a
                        },
                    )
                } else {
                    Some(a)
                },
            },
            Some(TransactionKind::Dispute) => if a.history.contains_key(t.tx) && !a.disputed.contains(
                t.tx,
            ) {
                let x = a.history[t.tx];
                match with_balances(a, a.available - x, a.held + x) {
                    Some(b) => Some(AccountModel { disputed: a.disputed.insert(t.tx), ..b }),
                    None => None,
                }
            } else {
                Some(a)
            },
            Some(TransactionKind::Resolve) => if a.history.contains_key(t.tx) && a.disputed.contains(
                t.tx,
            ) {
                let x = a.history[t.tx];
                match with_balances(a, a.available + x, a.held - x) {
                    Some(b) => Some(AccountModel { disputed: a.disputed.remove(t.tx), ..b }),
                    None => None,
                }
            } else {
                Some(a)
            },
            Some(TransactionKind::Chargeback) => if a.history.contains_key(t.tx)
                && a.disputed.contains(t.tx) {
                let x = a.history[t.tx];
                match with_balances(a, a.available, a.held - x) {
                    Some(b) => Some(
                        AccountModel { disputed: a.disputed.remove(t.tx), locked: true, ..b },
                    ),
                    None => None,
                }
            } else {
                Some(a)
            },
        }
    }
}

/// The error that a failing transaction reports.
pub open spec fn error_for(t: TransactionModel, e: EngineError) -> bool {
    match kind_of(t.kind) {
        None => e is InvalidRawTransactionType && e->InvalidRawTransactionType_0@ == t.kind,
        Some(TransactionKind::Deposit) => if t.amount is None {
            e is NoAmountInDeposit
        } else {
            e is AmountOutOfRange
        },
        Some(TransactionKind::Withdrawal) => if t.amount is None {
            e is NoAmountInWitdrawal
        } else {
            e is AmountOutOfRange
        },
        _ => e is AmountOutOfRange,
    }
}

/// The state after applying records in order, or `None` where one fails.
pub open spec fn apply_all(a: AccountModel, ts: Seq<TransactionModel>) -> Option<AccountModel>
    decreases ts.len(),
{
    if ts.len() == 0 {
        Some(a)
    } else {
        match apply_all(a, ts.drop_last()) {
            Some(b) => next(b, ts.last()),
            None => None,
        }
    }
}

/// Whether a record is a deposit or a withdrawal.
pub open spec fn moves_money(t: TransactionModel) -> bool {
    kind_of(t.kind) == Some(TransactionKind::Deposit) || kind_of(t.kind) == Some(
        TransactionKind::Withdrawal,
    )
}

/// Applying a record keeps an account well formed.
pub proof fn lemma_next_wf(a: AccountModel, t: TransactionModel)
    requires
        a.wf(),
    ensures
        next(a, t) is Some ==> next(a, t)->0.wf(),
{
}

/// On a fresh account fed only deposits and withdrawals, after every step
/// nothing is held, the total is available plus held, and nothing available
/// is negative.
pub proof fn lemma_deposits_and_withdrawals_keep_total(client: u16, ts: Seq<TransactionModel>)
    requires
        forall|i: int| 0 <= i < ts.len() ==> moves_money(#[trigger] ts[i]),
    ensures
        apply_all(fresh(client), ts) is Some ==> ({
            let b = apply_all(fresh(client), ts)->0;
            &&& b.held == 0
            &&& b.total() == b.available + b.held
            &&& b.available >= 0
            &&& !b.locked
        }),
    decreases ts.len(),
{
    if ts.len() > 0 {
        let init = ts.drop_last();
        assert forall|i: int| 0 <= i < init.len() implies moves_money(#[trigger] init[i]) by {
            assert(init[i] == ts[i]);
        }
        lemma_deposits_and_withdrawals_keep_total(client, init);
        assert(moves_money(ts[ts.len() - 1]));
    }
}

/// Any record but a dispute leaves `available` non-negative where it was.
pub proof fn lemma_available_stays_non_negative(a: AccountModel, t: TransactionModel)
    requires
        a.available >= 0,
        kind_of(t.kind) != Some(TransactionKind::Dispute),
    ensures
        next(a, t) is Some ==> next(a, t)->0.available >= 0,
{
}

/// A dispute applied twice in a row has the effect of applying it once.
pub proof fn lemma_dispute_idempotent(a: AccountModel, t: TransactionModel)
    requires
        kind_of(t.kind) == Some(TransactionKind::Dispute),
    ensures
        next(a, t) is Some ==> next(next(a, t)->0, t) == next(a, t),
{
}

/// A resolve or chargeback of a transaction that is not under dispute
/// changes nothing.
pub proof fn lemma_undisputed_settlement_is_noop(a: AccountModel, t: TransactionModel)
    requires
        kind_of(t.kind) == Some(TransactionKind::Resolve) || kind_of(t.kind) == Some(
            TransactionKind::Chargeback,
        ),
        !a.disputed.contains(t.tx),
    ensures
        next(a, t) == Some(a),
{
}

/// A locked account absorbs any sequence of records unchanged.
pub proof fn lemma_locked_absorbs_all(a: AccountModel, ts: Seq<TransactionModel>)
    requires
        a.locked,
    ensures
        apply_all(a, ts) == Some(a),
    decreases ts.len(),
{
    if ts.len() > 0 {
        lemma_locked_absorbs_all(a, ts.drop_last());
    }
}

/// A chargeback that takes effect locks the account, and every record
/// applied afterwards leaves it unchanged.
pub proof fn lemma_chargeback_locks(a: AccountModel, t: TransactionModel, ts: Seq<TransactionModel>)
    requires
        kind_of(t.kind) == Some(TransactionKind::Chargeback),
        a.history.contains_key(t.tx),
        a.disputed.contains(t.tx),
        next(a, t) is Some,
    ensures
        next(a, t)->0.locked,
        apply_all(next(a, t)->0, ts) == next(a, t),
{
    lemma_locked_absorbs_all(next(a, t)->0, ts);
}

/// One client's balances, ledger and disputes.
#[derive(Debug)]
pub struct Account {
    client: u16,
    available: i128,
    held: i128,
    locked: bool,
    transaction_history: HashMap<u32, u64>,
    transactions_in_dispute: HashSet<u32>,
}

impl View for Account {
    type V = AccountModel;

    closed spec fn view(&self) -> AccountModel {
        AccountModel {
            client: self.client,
            available: self.available as int,
            held: self.held as int,
            locked: self.locked,
            history: self.transaction_history@,
            disputed: self.transactions_in_dispute@,
        }
    }
}

/// The reported figures of one account, in units of `10^-8`.
#[derive(Debug, Clone, Copy, PartialEq, Eq)]
pub struct AccountSummary {
    pub client: u16,
    pub available: i128,
    pub held: i128,
    pub total: i128,
    pub locked: bool,
}

/// The summary that an account state reports.
pub open spec fn summary_of(a: AccountModel) -> AccountSummary {
    AccountSummary {
        client: a.client,
        available: a.available as i128,
        held: a.held as i128,
        total: a.total() as i128,
        locked: a.locked,
    }
}

impl Account {
    pub open spec fn wf(&self) -> bool {
        self@.wf()
    }

    /// A new, empty account for `client`.
    pub fn new(client: u16) -> (r: Account)
        ensures
            r@ == fresh(client),
            r.wf(),
    {
        let r = Account {
            client,
            available: 0,
            held: 0,
            locked: false,
            transaction_history: HashMap::with_capacity(1),
            transactions_in_dispute: HashSet::new(),
        };
        assert(r@.history =~= Map::empty());
        assert(r@.disputed =~= Set::empty());
        r
    }

    pub fn client(&self) -> (r: u16)
        ensures
            r == self@.client,
    {
        self.client
    }

    pub fn available(&self) -> (r: i128)
        ensures
            r == self@.available,
    {
        self.available
    }

    pub fn held(&self) -> (r: i128)
        ensures
            r == self@.held,
    {
        self.held
    }

    /// Total funds: available plus held.
    pub fn total(&self) -> (r: i128)
        requires
            self.wf(),
        ensures
            r == self@.total(),
    {
        self.available + self.held
    }

    pub fn locked(&self) -> (r: bool)
        ensures
            r == self@.locked,
    {
        self.locked
    }

    /// Number of accepted deposits and withdrawals on record.
    pub fn history_len(&self) -> (r: usize)
        requires
            self.wf(),
        ensures
            r == self@.history.len(),
    {
        self.transaction_history.len()
    }

    /// Number of transactions currently under dispute.
    pub fn disputes_len(&self) -> (r: usize)
        requires
            self.wf(),
        ensures
            r == self@.disputed.len(),
    {
        self.transactions_in_dispute.len()
    }

    /// The account's figures for a report.
    pub fn summary(&self) -> (r: AccountSummary)
        requires
            self.wf(),
        ensures
            r == summary_of(self@),
    {
        AccountSummary {
            client: self.client,
            available: self.available,
            held: self.held,
            total: self.total(),
            locked: self.locked,
        }
    }

    /// Applies one record. A locked account absorbs every record. A record
    /// of unknown kind, a deposit or withdrawal without amount, or a change
    /// that leaves the representable range fails and changes nothing;
    /// business rejections succeed and change nothing.
    pub fn apply_transaction(&mut self, transaction: Transaction) -> (r: Result<(), EngineError>)
        requires
            old(self).wf(),
        ensures
            final(self).wf(),
            r is Ok <==> next(old(self)@, transaction@) is Some,
            match r {
                Ok(()) => final(self)@ == next(old(self)@, transaction@)->0,
                Err(e) => final(self)@ == old(self)@ && error_for(transaction@, e),
            },
    {
        if self.locked {
            return Ok(());
        }
        let Transaction { kind, client: _, tx, amount } = transaction;
        match parse_kind(kind.as_str()) {
            Some(TransactionKind::Withdrawal) => match amount {
                Some(amount) => {
                    if self.withdrawal(amount) {
                        self.transaction_history.insert(tx, amount);
                    }
                    Ok(())
                },
                None => Err(EngineError::NoAmountInWitdrawal),
            },
            Some(TransactionKind::Deposit) => match amount {
                Some(amount) => {
                    let r = self.deposit(amount);
                    if r.is_ok() {
                        self.transaction_history.insert(tx, amount);
                    }
                    r
                },
                None => Err(EngineError::NoAmountInDeposit),
            },
            Some(TransactionKind::Dispute) => self.dispute(tx),
            Some(TransactionKind::Resolve) => self.resolve(tx),
            Some(TransactionKind::Chargeback) => self.chargeback(tx),
            None => Err(EngineError::InvalidRawTransactionType(kind)),
        }
    }

    fn deposit(&mut self, amount: u64) -> (r: Result<(), EngineError>)
        requires
            old(self).wf(),
        ensures
            match with_balances(old(self)@, old(self)@.available + amount, old(self)@.held) {
                Some(b) => r is Ok && final(self)@ == b,
                None => r == Err::<(), EngineError>(EngineError::AmountOutOfRange) && final(self)@ == old(self)@,
            },
    {
        if self.available > BALANCE_LIMIT - amount as i128 {
            return Err(EngineError::AmountOutOfRange);
        }
        self.available = self.available + amount as i128;
        Ok(())
    }

    /// Takes `amount` out of `available` where that leaves it non-negative;
    /// says whether it did.
    fn withdrawal(&mut self, amount: u64) -> (r: bool)
        requires
            old(self).wf(),
        ensures
            r == (old(self)@.available - amount >= 0),
            r ==> final(self)@ == (AccountModel { available: old(self)@.available - amount, ..old(self)@ }),
            !r ==> final(self)@ == old(self)@,
    {
        if self.available - amount as i128 >= 0 {
            self.available = self.available - amount as i128;
            true
        } else {
            false
        }
    }

    fn lookup_transaction_history(&self, transaction_id: u32) -> (r: Option<u64>)
        ensures
            r == (if self@.history.contains_key(transaction_id) {
                Some(self@.history[transaction_id])
            } else {
                None::<u64>
            }),
    {
        match self.transaction_history.get(&transaction_id) {
            Some(x) => Some(*x),
            None => None,
        }
    }

    /// Adds `to_available` and `to_held` to the two balances, or fails where
    /// either would leave the representable range.
    fn move_funds(&mut self, to_held: i128, to_available: i128) -> (r: Result<(), EngineError>)
        requires
            old(self).wf(),
            -BALANCE_LIMIT <= to_held <= BALANCE_LIMIT,
            -BALANCE_LIMIT <= to_available <= BALANCE_LIMIT,
        ensures
            match with_balances(old(self)@, old(self)@.available + to_available, old(self)@.held + to_held) {
                Some(b) => r is Ok && final(self)@ == b,
                None => r == Err::<(), EngineError>(EngineError::AmountOutOfRange) && final(self)@ == old(self)@,
            },
    {
        let available = self.available + to_available;
        let held = self.held + to_held;
        if available < -BALANCE_LIMIT || available > BALANCE_LIMIT || held < -BALANCE_LIMIT
            || held > BALANCE_LIMIT {
            return Err(EngineError::AmountOutOfRange);
        }
        self.available = available;
        self.held = held;
        Ok(())
    }

    fn dispute(&mut self, transaction_id: u32) -> (r: Result<(), EngineError>)
        requires
            old(self).wf(),
            !old(self)@.locked,
        ensures
            final(self).wf(),
            ({
                let t = (TransactionModel { kind: seq!['d', 'i', 's', 'p', 'u', 't', 'e'], client: 0, tx: transaction_id, amount: None });
                &&& r is Ok <==> next(old(self)@, t) is Some
                &&& match r {
                    Ok(()) => final(self)@ == next(old(self)@, t)->0,
                    Err(e) => final(self)@ == old(self)@ && e is AmountOutOfRange,
                }
            }),
    {
        if let Some(amount) = self.lookup_transaction_history(transaction_id) {
            if !self.transactions_in_dispute.contains(&transaction_id) {
                return self.apply_dispute(amount, transaction_id);
            }
        }
        Ok(())
    }

    fn apply_dispute(&mut self, amount: u64, transaction_id: u32) -> (r: Result<(), EngineError>)
        requires
            old(self).wf(),
            old(self)@.history.contains_key(transaction_id),
        ensures
            final(self).wf(),
            match with_balances(old(self)@, old(self)@.available - amount, old(self)@.held + amount) {
                Some(b) => r is Ok && final(self)@ == (AccountModel { disputed: old(self)@.disputed.insert(transaction_id), ..b }),
                None => r is Err && r->Err_0 is AmountOutOfRange && final(self)@ == old(self)@,
            },
    {
        let r = self.move_funds(amount as i128, -(amount as i128));
        if r.is_ok() {
            self.transactions_in_dispute.insert(transaction_id);
        }
        r
    }

    fn resolve(&mut self, transaction_id: u32) -> (r: Result<(), EngineError>)
        requires
            old(self).wf(),
            !old(self)@.locked,
        ensures
            final(self).wf(),
            ({
                let t = (TransactionModel { kind: seq!['r', 'e', 's', 'o', 'l', 'v', 'e'], client: 0, tx: transaction_id, amount: None });
                &&& r is Ok <==> next(old(self)@, t) is Some
                &&& match r {
                    Ok(()) => final(self)@ == next(old(self)@, t)->0,
                    Err(e) => final(self)@ == old(self)@ && e is AmountOutOfRange,
                }
            }),
    {
        if self.transactions_in_dispute.contains(&transaction_id) {
            if let Some(amount) = self.lookup_transaction_history(transaction_id) {
                let r = self.apply_resolve(amount);
                if r.is_ok() {
                    self.transactions_in_dispute.remove(&transaction_id);
                }
                return r;
            }
        }
        Ok(())
    }

    fn apply_resolve(&mut self, amount: u64) -> (r: Result<(), EngineError>)
        requires
            old(self).wf(),
        ensures
            match with_balances(old(self)@, old(self)@.available + amount, old(self)@.held - amount) {
                Some(b) => r is Ok && final(self)@ == b,
                None => r is Err && r->Err_0 is AmountOutOfRange && final(self)@ == old(self)@,
            },
    {
        self.move_funds(-(amount as i128), amount as i128)
    }

    fn chargeback(&mut self, transaction_id: u32) -> (r: Result<(), EngineError>)
        requires
            old(self).wf(),
            !old(self)@.locked,
        ensures
            final(self).wf(),
            ({
                let t = (TransactionModel { kind: seq!['c', 'h', 'a', 'r', 'g', 'e', 'b', 'a', 'c', 'k'], client: 0, tx: transaction_id, amount: None });
                &&& r is Ok <==> next(old(self)@, t) is Some
                &&& match r {
                    Ok(()) => final(self)@ == next(old(self)@, t)->0,
                    Err(e) => final(self)@ == old(self)@ && e is AmountOutOfRange,
                }
            }),
    {
        if self.transactions_in_dispute.contains(&transaction_id) {
            if let Some(amount) = self.lookup_transaction_history(transaction_id) {
                let r = self.apply_chargeback(amount);
                if r.is_ok() {
                    self.transactions_in_dispute.remove(&transaction_id);
                }
                return r;
            }
        }
        Ok(())
    }

    fn apply_chargeback(&mut self, amount: u64) -> (r: Result<(), EngineError>)
        requires
            old(self).wf(),
        ensures
            match with_balances(old(self)@, old(self)@.available, old(self)@.held - amount) {
                Some(b) => r is Ok && final(self)@ == (AccountModel { locked: true, ..b }),
                None => r is Err && r->Err_0 is AmountOutOfRange && final(self)@ == old(self)@,
            },
    {
        let r = self.move_funds(-(amount as i128), 0);
        if r.is_ok() {
            self.locked = true;
        }
        r
    }
}

} // verus!
