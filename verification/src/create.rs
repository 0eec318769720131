//! The command that starts a new register.

use vstd::prelude::*;
use vstd::string::*;
use crate::database::{Ledger, LedgerView};

verus! {

/// The command that starts a new register at `file_path`.
#[derive(Debug, PartialEq, Eq)]
pub struct Create {
    pub file_path: String,
}

impl Create {
    /// The register to write to the file: an empty one. A file that is there
    /// already is left alone, and the command says so.
    pub fn run(&self, exists: bool) -> (r: Result<Ledger, String>)
        ensures
            match r {
                Ok(store) => !exists && store@ == LedgerView::empty() && store@.wf(),
                Err(message) => exists && message@ == "File already exists."@,
            },
    {
        if exists {
            Err(String::from_str("File already exists."))
        } else {
            Ok(Ledger::new())
        }
    }
}

} // verus!
