//! Writing the ledger out: as tab-separated text, as the entries of a QIF
//! file, and as the rows of a spreadsheet that shows the balance beside each
//! record.
//!
//! Every format shows the ledger read by date. The balance is not stored: it
//! is worked out for the rows as they are written.

use vstd::prelude::*;
use vstd::string::*;
use crate::database::Ledger;
use crate::decimal::{cents_string, cents_text, decimal_string, decimal_text, MAX_CENTS};
use crate::format::FileFormat;
use crate::import::{Cell, SheetKind};
use crate::order::lemma_sorted_keeps;
use crate::qif::{Qif, QifSection, QifStatus, QifTransaction, QifType};
use crate::records::{
    all_wf,
    balance_at,
    by_date,
    ids_of,
    lemma_balance_at_place,
    sort_records,
    sorted_by_date,
    total,
    views_of,
    Record,
    RecordView,
};
use crate::text::{distinct_names, join_tabs, join_with, names_of};
use crate::transaction::{text_view, TransactionType, TransactionView};

verus! {

/// A check number as text; empty where there is none.
pub open spec fn check_text(number: Option<u32>) -> Seq<char> {
    match number {
        Some(n) => decimal_text(n as nat),
        None => Seq::empty(),
    }
}

/// The reconciled flag as text.
pub open spec fn flag_text(reconciled: bool) -> Seq<char> {
    if reconciled {
        "Y"@
    } else {
        "N"@
    }
}

/// The text of the credit column: the amount of a deposit, nothing for a
/// withdrawal.
pub open spec fn credit_text(t: TransactionView) -> Seq<char> {
    match t.transaction_type {
        TransactionType::Deposit => cents_text(t.amount as nat),
        TransactionType::Withdrawal => Seq::empty(),
    }
}

/// The text of the debit column: the amount of a withdrawal, nothing for a
/// deposit.
pub open spec fn debit_text(t: TransactionView) -> Seq<char> {
    match t.transaction_type {
        TransactionType::Deposit => Seq::empty(),
        TransactionType::Withdrawal => cents_text(t.amount as nat),
    }
}

/// The nine columns of a record: identifier, date, check number, reconciled
/// flag, category, vendor, memo, credit, debit.
pub open spec fn tsv_fields(r: RecordView) -> Seq<Seq<char>> {
    seq![
        r.id,
        r.transaction.date.text(),
        check_text(r.transaction.check_number),
        flag_text(r.transaction.is_reconciled),
        match r.transaction.category {
            Some(name) => name,
            None => Seq::empty(),
        },
        r.transaction.vendor,
        r.transaction.memo,
        credit_text(r.transaction),
        debit_text(r.transaction),
    ]
}

/// A record as a line of tab-separated text.
pub open spec fn tsv_line(r: RecordView) -> Seq<char> {
    join_with(tsv_fields(r), '\t')
}

/// The records as tab-separated text: one line for each, every line ended by
/// a carriage return and a line feed.
pub open spec fn tsv_text(records: Seq<RecordView>) -> Seq<char>
    decreases records.len(),
{
    if records.len() == 0 {
        Seq::empty()
    } else {
        tsv_text(records.drop_last()) + tsv_line(records.last()) + "\r\n"@
    }
}

/// The texts of the nine columns of a record.
pub fn record_fields(r: &Record) -> (fields: Vec<String>)
    ensures
        names_of(fields@) == tsv_fields(r@),
{
    let amount = cents_string(r.transaction.amount as u128);
    let mut fields: Vec<String> = Vec::new();
    fields.push(r.id.clone());
    fields.push(r.transaction.date.to_text());
    fields.push(
        match r.transaction.check_number {
            Some(n) => decimal_string(n as u128),
            None => String::new(),
        },
    );
    fields.push(
        if r.transaction.is_reconciled {
            String::from_str("Y")
        } else {
            String::from_str("N")
        },
    );
    fields.push(
        match &r.transaction.category {
            Some(name) => name.clone(),
            None => String::new(),
        },
    );
    fields.push(r.transaction.vendor.clone());
    fields.push(r.transaction.memo.clone());
    match r.transaction.transaction_type {
        TransactionType::Deposit => {
            fields.push(amount);
            fields.push(String::new());
        },
        TransactionType::Withdrawal => {
            fields.push(String::new());
            fields.push(amount);
        },
    }
    assert(names_of(fields@) =~= tsv_fields(r@));
    fields
}

/// Writes a record as a line of tab-separated text.
pub fn record_line(r: &Record) -> (line: String)
    ensures
        line@ == tsv_line(r@),
{
    let fields = record_fields(r);
    join_tabs(&fields)
}

/// Writes the records as tab-separated text, in their order.
pub fn records_to_tsv(records: &Vec<Record>) -> (text: String)
    ensures
        text@ == tsv_text(views_of(records@)),
{
    let mut text = String::new();
    let mut i: usize = 0;
    assert(views_of(records@).take(0) =~= Seq::<RecordView>::empty());
    while i < records.len()
        invariant
            i <= records.len(),
            text@ == tsv_text(views_of(records@).take(i as int)),
        decreases records.len() - i,
    {
        let ghost before = text@;
        proof {
            let upto = views_of(records@).take(i + 1);
            assert(upto.drop_last() =~= views_of(records@).take(i as int));
            assert(upto.last() == records@[i as int]@);
        }
        let line = record_line(&records[i]);
        text.append(line.as_str());
        text.append("\r\n");
        assert(text@ =~= before + tsv_line(records@[i as int]@) + "\r\n"@);
        i += 1;
    }
    assert(views_of(records@).take(records.len() as int) =~= views_of(records@));
    text
}

/// A QIF entry says what the record says. A check number of zero and an
/// empty category are left out; the address is the vendor; the amount bears
/// the direction as its sign; a reconciled record is marked as such.
pub open spec fn is_qif_of(r: RecordView, q: QifTransaction) -> bool {
    &&& q.date == r.transaction.date
    &&& q.check_number == match r.transaction.check_number {
        Some(n) => if n > 0 {
            Some(n)
        } else {
            None
        },
        None => None,
    }
    &&& q.vendor@ == r.transaction.vendor
    &&& q.address@ == r.transaction.vendor
    &&& q.amount == r.transaction.signed_amount()
    &&& text_view(q.category) == match r.transaction.category {
        Some(name) => if name.len() > 0 {
            Some(name)
        } else {
            None
        },
        None => None,
    }
    &&& q.memo@ == r.transaction.memo
    &&& q.status == if r.transaction.is_reconciled {
        Some(QifStatus::Reconciled)
    } else {
        None
    }
}

/// The entries say what the records say, one for one.
pub open spec fn are_qif_of(records: Seq<RecordView>, entries: Seq<QifTransaction>) -> bool {
    records.len() == entries.len() && forall|i: int|
        0 <= i < records.len() ==> is_qif_of(#[trigger] records[i], entries[i])
}

/// The QIF entry of a record.
pub fn record_to_qif(record: &Record) -> (r: QifTransaction)
    requires
        record@.transaction.wf(),
    ensures
        is_qif_of(record@, r),
{
    let category = match &record.transaction.category {
        Some(name) => if name.as_str().is_empty() {
            None
        } else {
            Some(name.clone())
        },
        None => None,
    };
    QifTransaction {
        date: record.transaction.date,
        check_number: match record.transaction.check_number {
            Some(n) => if n > 0 {
                Some(n)
            } else {
                None
            },
            None => None,
        },
        vendor: record.transaction.vendor.clone(),
        address: record.transaction.vendor.clone(),
        amount: record.transaction.signed_amount(),
        category,
        memo: record.transaction.memo.clone(),
        status: if record.transaction.is_reconciled {
            Some(QifStatus::Reconciled)
        } else {
            None
        },
    }
}

/// The QIF entries of the records, one for each, in the order of the
/// records.
pub fn records_to_qif_transactions(records: &Vec<Record>) -> (entries: Vec<QifTransaction>)
    requires
        all_wf(views_of(records@)),
    ensures
        are_qif_of(views_of(records@), entries@),
{
    let mut entries: Vec<QifTransaction> = Vec::new();
    let mut i: usize = 0;
    while i < records.len()
        invariant
            i <= records.len(),
            entries.len() == i,
            all_wf(views_of(records@)),
            forall|k: int| 0 <= k < i ==> is_qif_of(#[trigger] views_of(records@)[k], entries@[k]),
        decreases records.len() - i,
    {
        assert(views_of(records@)[i as int].transaction.wf());
        entries.push(record_to_qif(&records[i]));
        i += 1;
    }
    entries
}

/// The QIF file of the records: one section, of the kind `Bank`, with the
/// entries of the records.
pub fn store_to_qif(records: &Vec<Record>) -> (qif: Qif)
    requires
        all_wf(views_of(records@)),
    ensures
        qif.cash is None,
        qif.credit_card is None,
        qif.liability is None,
        qif.asset is None,
        qif.bank matches Some(bank) && bank.qif_type == QifType::Bank && are_qif_of(
            views_of(records@),
            bank.transactions@,
        ),
{
    Qif {
        cash: None,
        bank: Some(
            QifSection {
                qif_type: QifType::Bank,
                transactions: records_to_qif_transactions(records),
            },
        ),
        credit_card: None,
        liability: None,
        asset: None,
    }
}

/// The cell holds that text.
pub open spec fn holds_text(cell: Cell, text: Seq<char>) -> bool {
    cell matches Cell::Text(t) && t@ == text
}

/// The row of headings of a sheet: nothing above the identifiers, then the
/// names of the other columns.
pub open spec fn is_heading_row(row: Seq<Cell>) -> bool {
    &&& row.len() == 10
    &&& row[0] == Cell::Empty
    &&& holds_text(row[1], "Date"@)
    &&& holds_text(row[2], "Check #"@)
    &&& holds_text(row[3], "Reconciled"@)
    &&& holds_text(row[4], "Category"@)
    &&& holds_text(row[5], "Vendor"@)
    &&& holds_text(row[6], "Memo"@)
    &&& holds_text(row[7], "Credit"@)
    &&& holds_text(row[8], "Withdrawal"@)
    &&& holds_text(row[9], "Balance"@)
}

/// The cell of an amount column: empty where the column has no amount, else
/// the amount as the kind of sheet holds it, as a number or as text.
pub open spec fn holds_amount(cell: Cell, filled: bool, amount: u64, kind: SheetKind) -> bool {
    if !filled {
        cell == Cell::Empty
    } else {
        match kind {
            SheetKind::Xlsx => cell == Cell::Number(amount as i128),
            SheetKind::Ods => holds_text(cell, cents_text(amount as nat)),
        }
    }
}

/// The row of a record in a sheet: its first seven columns as text, the
/// amount in the credit column for a deposit and in the debit column for a
/// withdrawal, and the balance in a tenth column.
pub open spec fn is_row_of(r: RecordView, balance: int, kind: SheetKind, row: Seq<Cell>) -> bool {
    &&& row.len() == 10
    &&& forall|col: int| 0 <= col < 7 ==> holds_text(#[trigger] row[col], tsv_fields(r)[col])
    &&& holds_amount(
        row[7],
        r.transaction.transaction_type == TransactionType::Deposit,
        r.transaction.amount,
        kind,
    )
    &&& holds_amount(
        row[8],
        r.transaction.transaction_type == TransactionType::Withdrawal,
        r.transaction.amount,
        kind,
    )
    &&& row[9] == Cell::Number(balance as i128)
}

/// The sheet of a ledger: the headings, then one row for each record of the
/// ledger read by date, each with the balance at that record.
pub open spec fn is_sheet_of(records: Seq<RecordView>, kind: SheetKind, rows: Seq<Vec<Cell>>) -> bool {
    &&& rows.len() == records.len() + 1
    &&& is_heading_row(rows[0]@)
    &&& forall|k: int|
        0 <= k < records.len() ==> is_row_of(
            sorted_by_date(records)[k],
            match balance_at(records, sorted_by_date(records)[k].id) {
                Some(b) => b,
                None => 0,
            },
            kind,
            (#[trigger] rows[k + 1])@,
        )
}

fn heading_row() -> (row: Vec<Cell>)
    ensures
        is_heading_row(row@),
{
    let mut row: Vec<Cell> = Vec::new();
    row.push(Cell::Empty);
    row.push(Cell::Text(String::from_str("Date")));
    row.push(Cell::Text(String::from_str("Check #")));
    row.push(Cell::Text(String::from_str("Reconciled")));
    row.push(Cell::Text(String::from_str("Category")));
    row.push(Cell::Text(String::from_str("Vendor")));
    row.push(Cell::Text(String::from_str("Memo")));
    row.push(Cell::Text(String::from_str("Credit")));
    row.push(Cell::Text(String::from_str("Withdrawal")));
    row.push(Cell::Text(String::from_str("Balance")));
    row
}

fn amount_cell(filled: bool, amount: u64, kind: SheetKind) -> (cell: Cell)
    ensures
        holds_amount(cell, filled, amount, kind),
{
    if !filled {
        Cell::Empty
    } else {
        match kind {
            SheetKind::Xlsx => Cell::Number(amount as i128),
            SheetKind::Ods => Cell::Text(cents_string(amount as u128)),
        }
    }
}

/// The row of a record in a sheet, with the balance at that record.
pub fn record_row(record: &Record, balance: i128, kind: SheetKind) -> (row: Vec<Cell>)
    ensures
        is_row_of(record@, balance as int, kind, row@),
{
    let fields = record_fields(record);
    let mut row: Vec<Cell> = Vec::new();
    let mut col: usize = 0;
    assert(names_of(fields@).len() == 9);
    while col < 7
        invariant
            col <= 7,
            row.len() == col,
            fields.len() == 9,
            names_of(fields@) == tsv_fields(record@),
            forall|c: int| 0 <= c < col ==> holds_text(#[trigger] row@[c], tsv_fields(record@)[c]),
        decreases 7 - col,
    {
        assert(names_of(fields@)[col as int] == fields@[col as int]@);
        row.push(Cell::Text(fields[col].clone()));
        col += 1;
    }
    let deposit = match record.transaction.transaction_type {
        TransactionType::Deposit => true,
        TransactionType::Withdrawal => false,
    };
    row.push(amount_cell(deposit, record.transaction.amount, kind));
    row.push(amount_cell(!deposit, record.transaction.amount, kind));
    row.push(Cell::Number(balance));
    row
}

/// Puts the row of a record at the end of a sheet whose amounts are text.
pub fn add_record_to_ods_sheet(record: &Record, balance: i128, sheet: &mut Vec<Vec<Cell>>)
    ensures
        final(sheet)@.len() == old(sheet)@.len() + 1,
        forall|k: int| 0 <= k < old(sheet)@.len() ==> final(sheet)@[k] == old(sheet)@[k],
        is_row_of(record@, balance as int, SheetKind::Ods, final(sheet)@.last()@),
{
    sheet.push(record_row(record, balance, SheetKind::Ods));
}

/// Puts the row of a record at the end of a sheet whose amounts are numbers.
pub fn add_record_to_xlsx_sheet(record: &Record, balance: i128, sheet: &mut Vec<Vec<Cell>>)
    ensures
        final(sheet)@.len() == old(sheet)@.len() + 1,
        forall|k: int| 0 <= k < old(sheet)@.len() ==> final(sheet)@[k] == old(sheet)@[k],
        is_row_of(record@, balance as int, SheetKind::Xlsx, final(sheet)@.last()@),
{
    sheet.push(record_row(record, balance, SheetKind::Xlsx));
}

/// The rows of the sheet of a ledger.
pub fn sheet_rows(records: &Vec<Record>, kind: SheetKind) -> (rows: Vec<Vec<Cell>>)
    requires
        all_wf(views_of(records@)),
        distinct_names(ids_of(views_of(records@))),
    ensures
        is_sheet_of(views_of(records@), kind, rows@),
{
    let sorted = sort_records(records);
    let ghost all = views_of(records@);
    let mut rows: Vec<Vec<Cell>> = Vec::new();
    rows.push(heading_row());
    let mut balance: i128 = 0;
    let mut k: usize = 0;
    proof {
        lemma_sorted_keeps(all, by_date(), |r: RecordView| r.transaction.wf());
        assert(views_of(sorted@).take(0) =~= Seq::<RecordView>::empty());
    }
    while k < sorted.len()
        invariant
            k <= sorted.len(),
            sorted.len() == records.len(),
            all == views_of(records@),
            views_of(sorted@) == sorted_by_date(all),
            all_wf(views_of(sorted@)),
            distinct_names(ids_of(all)),
            rows.len() == k + 1,
            is_heading_row(rows@[0]@),
            balance == total(views_of(sorted@).take(k as int)),
            -(k * MAX_CENTS) <= balance <= k * MAX_CENTS,
            forall|j: int|
                0 <= j < k ==> is_row_of(
                    sorted_by_date(all)[j],
                    match balance_at(all, sorted_by_date(all)[j].id) {
                        Some(b) => b,
                        None => 0,
                    },
                    kind,
                    (#[trigger] rows@[j + 1])@,
                ),
        decreases sorted.len() - k,
    {
        proof {
            let upto = views_of(sorted@).take(k + 1);
            assert(upto.drop_last() =~= views_of(sorted@).take(k as int));
            assert(upto.last() == sorted@[k as int]@);
            assert(views_of(sorted@)[k as int].transaction.wf());
            lemma_balance_at_place(all, k as int);
        }
        balance = balance + sorted[k].transaction.signed_amount() as i128;
        let ghost before = rows@;
        match kind {
            SheetKind::Ods => add_record_to_ods_sheet(&sorted[k], balance, &mut rows),
            SheetKind::Xlsx => add_record_to_xlsx_sheet(&sorted[k], balance, &mut rows),
        }
        proof {
            assert forall|j: int| 0 <= j < k + 1 implies is_row_of(
                sorted_by_date(all)[j],
                match balance_at(all, sorted_by_date(all)[j].id) {
                    Some(b) => b,
                    None => 0,
                },
                kind,
                (#[trigger] rows@[j + 1])@,
            ) by {
                if j < k {
                    assert(rows@[j + 1] == before[j + 1]);
                }
            }
        }
        k += 1;
    }
    rows
}

/// The sheet of the ledger with the amounts as text.
pub fn create_ods_book(records: &Vec<Record>) -> (rows: Vec<Vec<Cell>>)
    requires
        all_wf(views_of(records@)),
        distinct_names(ids_of(views_of(records@))),
    ensures
        is_sheet_of(views_of(records@), SheetKind::Ods, rows@),
{
    sheet_rows(records, SheetKind::Ods)
}

/// The sheet of the ledger with the amounts as numbers.
pub fn create_xlsx_book(records: &Vec<Record>) -> (rows: Vec<Vec<Cell>>)
    requires
        all_wf(views_of(records@)),
        distinct_names(ids_of(views_of(records@))),
    ensures
        is_sheet_of(views_of(records@), SheetKind::Xlsx, rows@),
{
    sheet_rows(records, SheetKind::Xlsx)
}

/// What an export hands out to be written to the file, in the shape of each
/// format.
#[derive(Debug, PartialEq, Eq)]
pub enum ExportDocument {
    Native(Vec<Record>),
    Tsv(String),
    Qif(Qif),
    Ods(Vec<Vec<Cell>>),
    Xlsx(Vec<Vec<Cell>>),
}

/// The command that exports the ledger to a file.
#[derive(Debug, PartialEq, Eq)]
pub struct Export {
    pub file_path: String,
    pub output_file: String,
}

/// The document is the ledger in the format.
pub open spec fn is_export_of(records: Seq<RecordView>, format: FileFormat, doc: ExportDocument) -> bool {
    match format {
        FileFormat::Native => doc matches ExportDocument::Native(out) && views_of(out@)
            == sorted_by_date(records),
        FileFormat::Tsv => doc matches ExportDocument::Tsv(text) && text@ == tsv_text(
            sorted_by_date(records),
        ),
        FileFormat::Qif => doc matches ExportDocument::Qif(qif) && qif.cash is None
            && qif.credit_card is None && qif.liability is None && qif.asset is None && (
        qif.bank matches Some(bank) && bank.qif_type == QifType::Bank && are_qif_of(
            sorted_by_date(records),
            bank.transactions@,
        )),
        FileFormat::Ods => doc matches ExportDocument::Ods(rows) && is_sheet_of(
            records,
            SheetKind::Ods,
            rows@,
        ),
        FileFormat::Xlsx => doc matches ExportDocument::Xlsx(rows) && is_sheet_of(
            records,
            SheetKind::Xlsx,
            rows@,
        ),
    }
}

impl Export {
    /// The format in which the ledger is written: the one that the end of
    /// the file's name tells.
    pub fn format(&self) -> (r: FileFormat)
        ensures
            r == FileFormat::of(self.output_file@),
    {
        FileFormat::of_path(self.output_file.as_str())
    }

    /// The ledger read by date, in the format of the file to write.
    pub fn export(&self, store: &Ledger) -> (doc: ExportDocument)
        requires
            store@.wf(),
        ensures
            is_export_of(store@.records, FileFormat::of(self.output_file@), doc),
    {
        let records = store.records();
        match self.format() {
            FileFormat::Native => ExportDocument::Native(sort_records(records)),
            FileFormat::Tsv => {
                let sorted = sort_records(records);
                ExportDocument::Tsv(records_to_tsv(&sorted))
            },
            FileFormat::Qif => {
                let sorted = sort_records(records);
                proof {
                    lemma_sorted_keeps(
                        views_of(records@),
                        by_date(),
                        |r: RecordView| r.transaction.wf(),
                    );
                }
                ExportDocument::Qif(store_to_qif(&sorted))
            },
            FileFormat::Ods => ExportDocument::Ods(create_ods_book(records)),
            FileFormat::Xlsx => ExportDocument::Xlsx(create_xlsx_book(records)),
        }
    }

    /// Runs the command: hands out the ledger in the format of the file.
    pub fn run(&self, store: &Ledger) -> (doc: ExportDocument)
        requires
            store@.wf(),
        ensures
            is_export_of(store@.records, FileFormat::of(self.output_file@), doc),
    {
        self.export(store)
    }
}

} // verus!
