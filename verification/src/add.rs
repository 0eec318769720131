//! The command that adds a record to the ledger.

use vstd::prelude::*;
use vstd::string::*;
use crate::database::{add_record_to_db, Ledger, LedgerView};
use crate::date::{date_of_text, Date};
use crate::errors::ImportError;
use crate::records::{generate_id, Record, RecordView};
use crate::transaction::{clone_text, text_view, Transaction, TransactionType, TransactionView};

verus! {

/// The transaction to add. The amount is in cents.
#[derive(Debug, PartialEq, Eq)]
pub struct Add {
    pub file_path: String,
    pub date: Option<String>,
    pub check_number: Option<u32>,
    pub category: Option<String>,
    pub vendor: String,
    pub memo: String,
    pub amount: u64,
    pub transaction_type: TransactionType,
    pub reconciled: bool,
}

impl Add {
    /// The transaction that the command describes. It is of `today` where
    /// the command gives no date; there is none where the date it gives
    /// cannot be read.
    pub open spec fn described(self, today: Date) -> Result<TransactionView, ImportError> {
        let date = match self.date {
            Some(text) => Date::reading(date_of_text(text@)),
            None => Ok(today),
        };
        match date {
            Err(e) => Err(e),
            Ok(d) => Ok(
                TransactionView {
                    date: d,
                    check_number: self.check_number,
                    category: text_view(self.category),
                    vendor: self.vendor@,
                    memo: self.memo@,
                    amount: self.amount,
                    transaction_type: self.transaction_type,
                    is_reconciled: self.reconciled,
                },
            ),
        }
    }

    /// What the command makes of the store when the new record gets the
    /// identifier `id`.
    pub open spec fn outcome(self, store: LedgerView, today: Date, id: Seq<char>) -> Result<
        LedgerView,
        ImportError,
    > {
        match self.described(today) {
            Err(e) => Err(e),
            Ok(t) => store.add(RecordView { id, transaction: t }),
        }
    }

    /// The transaction that the command describes.
    pub fn transaction(&self, today: Date) -> (r: Result<Transaction, ImportError>)
        ensures
            match r {
                Ok(t) => self.described(today) == Ok::<TransactionView, ImportError>(t@),
                Err(e) => self.described(today) == Err::<TransactionView, ImportError>(e),
            },
    {
        let date = match &self.date {
            Some(text) => match Date::parse(text.as_str()) {
                Ok(d) => d,
                Err(e) => {
                    return Err(e);
                },
            },
            None => today,
        };
        Ok(
            Transaction {
                date,
                check_number: self.check_number,
                category: clone_text(&self.category),
                vendor: self.vendor.clone(),
                memo: self.memo.clone(),
                amount: self.amount,
                transaction_type: self.transaction_type,
                is_reconciled: self.reconciled,
            },
        )
    }

    /// Adds the record to the store under the identifier `id`. The store
    /// stays as it is where the command fails.
    pub fn add_record(&self, store: &mut Ledger, today: Date, id: String) -> (res: Result<
        (),
        ImportError,
    >)
        ensures
            match self.outcome(old(store)@, today, id@) {
                Ok(after) => res is Ok && final(store)@ == after,
                Err(e) => res == Err::<(), ImportError>(e) && final(store)@ == old(store)@,
            },
            old(store)@.wf() ==> final(store)@.wf(),
    {
        match self.transaction(today) {
            Err(e) => Err(e),
            Ok(transaction) => {
                let record = Record { id, transaction };
                add_record_to_db(store, &record)
            },
        }
    }

    /// Adds the record to the store under an identifier drawn for it.
    pub fn run(&self, store: &mut Ledger, today: Date) -> (res: Result<(), ImportError>)
        ensures
            exists|id: Seq<char>|
                match #[trigger] self.outcome(old(store)@, today, id) {
                    Ok(after) => res is Ok && final(store)@ == after,
                    Err(e) => res == Err::<(), ImportError>(e) && final(store)@ == old(store)@,
                },
            old(store)@.wf() ==> final(store)@.wf(),
    {
        let id = generate_id();
        let ghost drawn = id@;
        let res = self.add_record(store, today, id);
        proof {
            let outcome = self.outcome(old(store)@, today, drawn);
            assert(match outcome {
                Ok(after) => res is Ok && store@ == after,
                Err(e) => res == Err::<(), ImportError>(e) && store@ == old(store)@,
            });
        }
        res
    }
}

} // verus!
