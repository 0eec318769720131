//! One ledger entry: what was paid or received, when, to whom and for what.

use vstd::prelude::*;
use vstd::string::*;
use crate::date::Date;
use crate::decimal::MAX_CENTS;
use crate::text::{eq_ignoring_case, same_ignoring_case};

verus! {

/// The direction of a transaction. A deposit adds to the balance, a
/// withdrawal takes from it.
#[derive(Clone, Copy, Debug, PartialEq, Eq, Structural)]
pub enum TransactionType {
    Deposit,
    Withdrawal,
}

/// A transaction. The amount is held in cents and never carries a sign: the
/// direction is in `transaction_type`.
#[derive(Debug, PartialEq, Eq)]
pub struct Transaction {
    pub date: Date,
    pub check_number: Option<u32>,
    pub category: Option<String>,
    pub vendor: String,
    pub memo: String,
    pub amount: u64,
    pub transaction_type: TransactionType,
    pub is_reconciled: bool,
}

/// What a transaction holds, with each text as a sequence of characters.
pub struct TransactionView {
    pub date: Date,
    pub check_number: Option<u32>,
    pub category: Option<Seq<char>>,
    pub vendor: Seq<char>,
    pub memo: Seq<char>,
    pub amount: u64,
    pub transaction_type: TransactionType,
    pub is_reconciled: bool,
}

impl TransactionView {
    /// The amount is one that the ledger can add up.
    pub open spec fn wf(self) -> bool {
        self.amount <= MAX_CENTS
    }

    /// The name of the category under which the transaction is listed and
    /// summed up: its own, or `Uncategorized` where it has none.
    pub open spec fn category_name(self) -> Seq<char> {
        match self.category {
            Some(name) => name,
            None => "Uncategorized"@,
        }
    }

    /// The transaction is of that category, whatever the case of the letters.
    pub open spec fn in_category(self, name: Seq<char>) -> bool {
        same_ignoring_case(self.category_name(), name)
    }

    /// The amount as it counts towards the balance: positive for a deposit,
    /// negative for a withdrawal.
    pub open spec fn signed_amount(self) -> int {
        match self.transaction_type {
            TransactionType::Deposit => self.amount as int,
            TransactionType::Withdrawal => -(self.amount as int),
        }
    }
}

/// The view of a text that may be absent.
pub open spec fn text_view(text: Option<String>) -> Option<Seq<char>> {
    match text {
        Some(t) => Some(t@),
        None => None,
    }
}

/// A copy of a text that may be absent.
pub fn clone_text(text: &Option<String>) -> (r: Option<String>)
    ensures
        text_view(r) == text_view(*text),
{
    match text {
        Some(t) => Some(t.clone()),
        None => None,
    }
}

/// Whether two texts that may be absent are the same.
pub fn same_text(a: &Option<String>, b: &Option<String>) -> (r: bool)
    ensures
        r == (text_view(*a) == text_view(*b)),
{
    match a {
        Some(x) => match b {
            Some(y) => *x == *y,
            None => false,
        },
        None => b.is_none(),
    }
}

impl View for Transaction {
    type V = TransactionView;

    open spec fn view(&self) -> TransactionView {
        TransactionView {
            date: self.date,
            check_number: self.check_number,
            category: text_view(self.category),
            vendor: self.vendor@,
            memo: self.memo@,
            amount: self.amount,
            transaction_type: self.transaction_type,
            is_reconciled: self.is_reconciled,
        }
    }
}

impl Clone for Transaction {
    fn clone(&self) -> (r: Self)
        ensures
            r@ == self@,
    {
        Transaction {
            date: self.date,
            check_number: self.check_number,
            category: clone_text(&self.category),
            vendor: self.vendor.clone(),
            memo: self.memo.clone(),
            amount: self.amount,
            transaction_type: self.transaction_type,
            is_reconciled: self.is_reconciled,
        }
    }
}

impl Transaction {
    /// Whether the ledger can add the amount up.
    pub fn is_valid(&self) -> (r: bool)
        ensures
            r == self@.wf(),
    {
        self.amount <= MAX_CENTS
    }

    /// Whether the transaction is of that category, whatever the case of the
    /// letters. One without a category is of the category `Uncategorized`.
    pub fn is_in_category(&self, name: &str) -> (r: bool)
        ensures
            r == self@.in_category(name@),
    {
        match &self.category {
            Some(own) => eq_ignoring_case(own.as_str(), name),
            None => eq_ignoring_case("Uncategorized", name),
        }
    }

    /// Whether two transactions hold the same, field by field.
    pub fn same_as(&self, other: &Transaction) -> (r: bool)
        ensures
            r == (self@ == other@),
    {
        self.date == other.date && self.check_number == other.check_number && same_text(
            &self.category,
            &other.category,
        ) && self.vendor == other.vendor && self.memo == other.memo && self.amount == other.amount
            && self.transaction_type == other.transaction_type && self.is_reconciled
            == other.is_reconciled
    }

    /// The amount as it counts towards the balance.
    pub fn signed_amount(&self) -> (r: i64)
        requires
            self@.wf(),
        ensures
            r == self@.signed_amount(),
    {
        match self.transaction_type {
            TransactionType::Deposit => self.amount as i64,
            TransactionType::Withdrawal => -(self.amount as i64),
        }
    }
}

} // verus!
