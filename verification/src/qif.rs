//! The content of a QIF file as the ledger sees it: sections of
//! transactions, each with a signed amount in cents.

use vstd::prelude::*;
use crate::date::Date;

verus! {

/// The mark that a bank statement has put on a transaction.
#[derive(Clone, Copy, Debug, PartialEq, Eq, Structural)]
pub enum QifStatus {
    Cleared,
    Reconciled,
}

/// The kinds of account that a section can be of.
#[derive(Clone, Copy, Debug, PartialEq, Eq, Structural)]
pub enum QifType {
    Cash,
    Bank,
    CreditCard,
    Liability,
    Asset,
}

/// A transaction of a QIF file. The amount is in cents; it is positive for
/// money received and negative for money paid.
#[derive(Debug, PartialEq, Eq)]
pub struct QifTransaction {
    pub date: Date,
    pub check_number: Option<u32>,
    pub vendor: String,
    pub address: String,
    pub amount: i64,
    pub category: Option<String>,
    pub memo: String,
    pub status: Option<QifStatus>,
}

/// The transactions of one account of a QIF file.
#[derive(Debug, PartialEq, Eq)]
pub struct QifSection {
    pub qif_type: QifType,
    pub transactions: Vec<QifTransaction>,
}

/// A QIF file: at most one section of each kind.
#[derive(Debug, PartialEq, Eq)]
pub struct Qif {
    pub cash: Option<QifSection>,
    pub bank: Option<QifSection>,
    pub credit_card: Option<QifSection>,
    pub liability: Option<QifSection>,
    pub asset: Option<QifSection>,
}

impl Qif {
    /// The transactions of the section of the given kind; none where the
    /// file has no such section.
    pub open spec fn entries(self, kind: QifType) -> Seq<QifTransaction> {
        let section = match kind {
            QifType::Cash => self.cash,
            QifType::Bank => self.bank,
            QifType::CreditCard => self.credit_card,
            QifType::Liability => self.liability,
            QifType::Asset => self.asset,
        };
        match section {
            Some(s) => s.transactions@,
            None => Seq::empty(),
        }
    }

    /// The section of the given kind, if the file has one.
    pub fn section(&self, kind: QifType) -> (r: &Option<QifSection>)
        ensures
            match *r {
                Some(s) => s.transactions@ == self.entries(kind),
                None => self.entries(kind) == Seq::<QifTransaction>::empty(),
            },
    {
        match kind {
            QifType::Cash => &self.cash,
            QifType::Bank => &self.bank,
            QifType::CreditCard => &self.credit_card,
            QifType::Liability => &self.liability,
            QifType::Asset => &self.asset,
        }
    }
}

} // verus!
