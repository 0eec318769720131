//! The file formats that the ledger reads and writes, told apart by the end
//! of the file's name.

use vstd::prelude::*;
use crate::text::{ends_with, is_suffix};

verus! {

/// A format in which the ledger is read or written.
#[derive(Clone, Copy, Debug, PartialEq, Eq, Structural)]
pub enum FileFormat {
    /// The ledger's own format, `.bcheck`.
    Native,
    /// Tab-separated text, `.tsv`, and every name that ends in none of the
    /// others.
    Tsv,
    /// The Quicken interchange format, `.qif`.
    Qif,
    /// An OpenDocument spreadsheet, `.ods`.
    Ods,
    /// An Office Open XML spreadsheet, `.xlsx`.
    Xlsx,
}

impl FileFormat {
    /// The format of the file of that name.
    pub open spec fn of(path: Seq<char>) -> FileFormat {
        if is_suffix(path, ".bcheck"@) {
            FileFormat::Native
        } else if is_suffix(path, ".qif"@) {
            FileFormat::Qif
        } else if is_suffix(path, ".ods"@) {
            FileFormat::Ods
        } else if is_suffix(path, ".xlsx"@) {
            FileFormat::Xlsx
        } else {
            FileFormat::Tsv
        }
    }

    /// Tells the format of a file by the end of its name.
    pub fn of_path(path: &str) -> (r: FileFormat)
        ensures
            r == FileFormat::of(path@),
    {
        if ends_with(path, ".bcheck") {
            FileFormat::Native
        } else if ends_with(path, ".qif") {
            FileFormat::Qif
        } else if ends_with(path, ".ods") {
            FileFormat::Ods
        } else if ends_with(path, ".xlsx") {
            FileFormat::Xlsx
        } else {
            FileFormat::Tsv
        }
    }
}

} // verus!
