//! The command that removes a record from the ledger.

use vstd::prelude::*;
use vstd::string::*;
use crate::database::{delete_record_from_db, Ledger};

verus! {

/// The command that removes the record that answers to `id`.
#[derive(Debug, PartialEq, Eq)]
pub struct Remove {
    pub file_path: String,
    pub id: String,
}

impl Remove {
    /// Removes the record that answers to `id`. Where none does, the store
    /// stays as it is.
    pub fn run(&self, store: &mut Ledger)
        ensures
            final(store)@ == old(store)@.remove(self.id@),
            old(store)@.get(self.id@) is None ==> final(store)@ == old(store)@,
            old(store)@.wf() ==> final(store)@.wf(),
    {
        self.remove_record(store);
    }

    /// Removes the record from the store.
    pub fn remove_record(&self, store: &mut Ledger)
        ensures
            final(store)@ == old(store)@.remove(self.id@),
            old(store)@.get(self.id@) is None ==> final(store)@ == old(store)@,
            old(store)@.wf() ==> final(store)@.wf(),
    {
        delete_record_from_db(store, self.id.as_str());
    }
}

} // verus!
