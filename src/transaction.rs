//! Transaction records as they enter the ledger, and the five kinds.
use vstd::prelude::*;

verus! {

/// The five kinds of record that the ledger understands.
#[derive(Debug, Clone, Copy, PartialEq, Eq)]
pub enum TransactionKind {
    Deposit,
    Withdrawal,
    Dispute,
    Resolve,
    Chargeback,
}

/// One input record. `kind` is the raw type text; `amount` counts units of
/// `10^-8` and is meaningful for deposits and withdrawals only.
#[derive(Debug)]
pub struct Transaction {
    pub kind: String,
    pub client: u16,
    pub tx: u32,
    pub amount: Option<u64>,
}

/// The mathematical content of a record.
pub struct TransactionModel {
    pub kind: Seq<char>,
    pub client: u16,
    pub tx: u32,
    pub amount: Option<u64>,
}

impl View for Transaction {
    type V = TransactionModel;

    open spec fn view(&self) -> TransactionModel {
        TransactionModel { kind: self.kind@, client: self.client, tx: self.tx, amount: self.amount }
    }
}

/// Which kind, if any, a raw type text names (exact, lower case).
pub open spec fn kind_of(s: Seq<char>) -> Option<TransactionKind> {
    if s =~= seq!['d', 'e', 'p', 'o', 's', 'i', 't'] {
        Some(TransactionKind::Deposit)
    } else if s =~= seq!['w', 'i', 't', 'h', 'd', 'r', 'a', 'w', 'a', 'l'] {
        Some(TransactionKind::Withdrawal)
    } else if s =~= seq!['d', 'i', 's', 'p', 'u', 't', 'e'] {
        Some(TransactionKind::Dispute)
    } else if s =~= seq!['r', 'e', 's', 'o', 'l', 'v', 'e'] {
        Some(TransactionKind::Resolve)
    } else if s =~= seq!['c', 'h', 'a', 'r', 'g', 'e', 'b', 'a', 'c', 'k'] {
        Some(TransactionKind::Chargeback)
    } else {
        None
    }
}

fn chars_equal(s: &str, word: &[char]) -> (r: bool)
    ensures
        r == (s@ == word@),
{
    let n = s.unicode_len();
    if n != word.len() {
        return false;
    }
    let mut i: usize = 0;
    while i < n
        invariant
            n == s@.len(),
            n == word@.len(),
            0 <= i <= n,
            forall|j: int| 0 <= j < i ==> s@[j] == word@[j],
        decreases n - i,
    {
        if s.get_char(i) != word[i] {
            return false;
        }
        i += 1;
    }
    assert(s@ =~= word@);
    true
}

/// Reads the kind that a raw type text names.
pub fn parse_kind(s: &str) -> (r: Option<TransactionKind>)
    ensures
        r == kind_of(s@),
{
    let deposit = ['d', 'e', 'p', 'o', 's', 'i', 't'];
    let withdrawal = ['w', 'i', 't', 'h', 'd', 'r', 'a', 'w', 'a', 'l'];
    let dispute = ['d', 'i', 's', 'p', 'u', 't', 'e'];
    let resolve = ['r', 'e', 's', 'o', 'l', 'v', 'e'];
    let chargeback = ['c', 'h', 'a', 'r', 'g', 'e', 'b', 'a', 'c', 'k'];
    assert(deposit@ =~= seq!['d', 'e', 'p', 'o', 's', 'i', 't']);
    assert(withdrawal@ =~= seq!['w', 'i', 't', 'h', 'd', 'r', 'a', 'w', 'a', 'l']);
    assert(dispute@ =~= seq!['d', 'i', 's', 'p', 'u', 't', 'e']);
    assert(resolve@ =~= seq!['r', 'e', 's', 'o', 'l', 'v', 'e']);
    assert(chargeback@ =~= seq!['c', 'h', 'a', 'r', 'g', 'e', 'b', 'a', 'c', 'k']);
    if chars_equal(s, deposit.as_slice()) {
        Some(TransactionKind::Deposit)
    } else if chars_equal(s, withdrawal.as_slice()) {
        Some(TransactionKind::Withdrawal)
    } else if chars_equal(s, dispute.as_slice()) {
        Some(TransactionKind::Dispute)
    } else if chars_equal(s, resolve.as_slice()) {
        Some(TransactionKind::Resolve)
    } else if chars_equal(s, chargeback.as_slice()) {
        Some(TransactionKind::Chargeback)
    } else {
        None
    }
}

} // verus!
