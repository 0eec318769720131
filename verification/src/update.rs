//! The command that changes a record of the ledger.

use vstd::prelude::*;
use vstd::string::*;
use crate::database::{retrieve_record_with_id_from_db, update_record_in_db, Ledger, LedgerView};
use crate::date::{date_of_text, Date};
use crate::errors::ImportError;
use crate::records::{Record, RecordView};
use crate::transaction::{Transaction, TransactionType, TransactionView};

verus! {

/// The changes to make to the record that answers to `id`. A field that is
/// not set leaves the record as it is in that respect.
#[derive(Debug, PartialEq, Eq)]
pub struct Update {
    pub file_path: String,
    pub id: String,
    pub date: Option<String>,
    pub check_number: Option<u32>,
    pub category: Option<String>,
    pub vendor: Option<String>,
    pub memo: Option<String>,
    pub amount: Option<u64>,
    pub transaction_type: Option<TransactionType>,
    pub reconciled: bool,
    pub not_reconciled: bool,
}

impl Update {
    /// The date to give the record: none where the command sets none, and
    /// an error where the date it sets cannot be read.
    pub open spec fn new_date(self) -> Result<Option<Date>, ImportError> {
        match self.date {
            Some(text) => match Date::reading(date_of_text(text@)) {
                Ok(date) => Ok(Some(date)),
                Err(e) => Err(e),
            },
            None => Ok(None),
        }
    }

    /// The transaction with the changes made. Every field that the command
    /// sets takes the place of what the transaction holds; an empty category
    /// takes the category away; of the two flags the one for reconciled
    /// counts where both are set.
    pub open spec fn changed(self, t: TransactionView, date: Option<Date>) -> TransactionView {
        TransactionView {
            date: match date {
                Some(d) => d,
                None => t.date,
            },
            check_number: match self.check_number {
                Some(n) => Some(n),
                None => t.check_number,
            },
            category: match self.category {
                Some(name) => if name@.len() == 0 {
                    None
                } else {
                    Some(name@)
                },
                None => t.category,
            },
            vendor: match self.vendor {
                Some(v) => v@,
                None => t.vendor,
            },
            memo: match self.memo {
                Some(m) => m@,
                None => t.memo,
            },
            amount: match self.amount {
                Some(a) => a,
                None => t.amount,
            },
            transaction_type: match self.transaction_type {
                Some(kind) => kind,
                None => t.transaction_type,
            },
            is_reconciled: if self.reconciled {
                true
            } else if self.not_reconciled {
                false
            } else {
                t.is_reconciled
            },
        }
    }

    /// What the command makes of the store: the record that answers to `id`
    /// holds the changed transaction. The command fails where no record
    /// answers to `id`, where the date cannot be read, or where the store
    /// refuses the changed transaction.
    pub open spec fn outcome(self, store: LedgerView) -> Result<LedgerView, ImportError> {
        match store.get(self.id@) {
            None => Err(ImportError::NotFound),
            Some(record) => match self.new_date() {
                Err(e) => Err(e),
                Ok(date) => store.update(
                    RecordView { id: self.id@, transaction: self.changed(record.transaction, date) },
                ),
            },
        }
    }

    /// Reads the date that the command sets.
    pub fn read_date(&self) -> (r: Result<Option<Date>, ImportError>)
        ensures
            r == self.new_date(),
    {
        match &self.date {
            Some(text) => match Date::parse(text.as_str()) {
                Ok(date) => Ok(Some(date)),
                Err(e) => Err(e),
            },
            None => Ok(None),
        }
    }

    /// Makes the changes to a transaction.
    pub fn apply(&self, t: Transaction, date: Option<Date>) -> (r: Transaction)
        ensures
            r@ == self.changed(t@, date),
    {
        Transaction {
            date: match date {
                Some(d) => d,
                None => t.date,
            },
            check_number: match self.check_number {
                Some(n) => Some(n),
                None => t.check_number,
            },
            category: match &self.category {
                Some(name) => if name.as_str().is_empty() {
                    None
                } else {
                    Some(name.clone())
                },
                None => t.category,
            },
            vendor: match &self.vendor {
                Some(v) => v.clone(),
                None => t.vendor,
            },
            memo: match &self.memo {
                Some(m) => m.clone(),
                None => t.memo,
            },
            amount: match self.amount {
                Some(a) => a,
                None => t.amount,
            },
            transaction_type: match self.transaction_type {
                Some(kind) => kind,
                None => t.transaction_type,
            },
            is_reconciled: if self.reconciled {
                true
            } else if self.not_reconciled {
                false
            } else {
                t.is_reconciled
            },
        }
    }

    /// Changes the record in the store. The store stays as it is where the
    /// command fails.
    pub fn update_record(&self, store: &mut Ledger) -> (res: Result<(), ImportError>)
        ensures
            match self.outcome(old(store)@) {
                Ok(after) => res is Ok && final(store)@ == after,
                Err(e) => res == Err::<(), ImportError>(e) && final(store)@ == old(store)@,
            },
            old(store)@.wf() ==> final(store)@.wf(),
    {
        match retrieve_record_with_id_from_db(store, self.id.as_str()) {
            None => Err(ImportError::NotFound),
            Some(stored) => match self.read_date() {
                Err(e) => Err(e),
                Ok(date) => {
                    let record = Record {
                        id: self.id.clone(),
                        transaction: self.apply(stored.transaction, date),
                    };
                    update_record_in_db(store, &record)
                },
            },
        }
    }

    /// Runs the command: changes the record in the store.
    pub fn run(&self, store: &mut Ledger) -> (res: Result<(), ImportError>)
        ensures
            match self.outcome(old(store)@) {
                Ok(after) => res is Ok && final(store)@ == after,
                Err(e) => res == Err::<(), ImportError>(e) && final(store)@ == old(store)@,
            },
            old(store)@.wf() ==> final(store)@.wf(),
    {
        self.update_record(store)
    }
}

} // verus!
