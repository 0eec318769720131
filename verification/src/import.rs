//! Reading records from other formats: the native file, tab-separated text,
//! QIF, and the rows of a spreadsheet.
//!
//! Every format is brought to the one shape of a record. A row that cannot be
//! read is passed over and reported; the rows that can be read are kept, in
//! the order in which the file has them.

use vstd::prelude::*;
use vstd::string::*;
use crate::database::{add_records_to_db, Ledger};
use crate::date::{date_of_text, Date};
use crate::decimal::{
    cents_up_to_max,
    magnitude,
    magnitude_of,
    number_up_to,
    parse_cents,
    parse_u32,
    MAX_CENTS,
};
use crate::errors::ImportError;
use crate::format::FileFormat;
use crate::qif::{Qif, QifTransaction, QifType};
use crate::records::{views_of, Record, RecordView};
use crate::text::{chars_of, names_of, split, split_on};
use crate::transaction::{clone_text, text_view, Transaction, TransactionType, TransactionView};

verus! {

/// A cell of a spreadsheet row. A number is an amount of money in cents.
#[derive(Debug, PartialEq, Eq)]
pub enum Cell {
    Empty,
    Text(String),
    Number(i128),
    Other,
}

/// The two kinds of spreadsheet. They differ in how a row holds its amounts:
/// as numbers in the one, as text in the other.
#[derive(Clone, Copy, Debug, PartialEq, Eq, Structural)]
pub enum SheetKind {
    Xlsx,
    Ods,
}

/// The text of the cell in a column; empty where the row has no such cell or
/// the cell holds no text.
pub open spec fn text_in(row: Seq<Cell>, col: int) -> Seq<char> {
    if 0 <= col < row.len() {
        match row[col] {
            Cell::Text(t) => t@,
            _ => Seq::empty(),
        }
    } else {
        Seq::empty()
    }
}

/// The text of each cell of a row, in the order of the columns.
pub open spec fn texts_of(row: Seq<Cell>) -> Seq<Seq<char>> {
    Seq::new(row.len(), |col: int| text_in(row, col))
}

/// The text in a column; empty where there is no such column.
pub open spec fn field(texts: Seq<Seq<char>>, col: int) -> Seq<char> {
    if 0 <= col < texts.len() {
        texts[col]
    } else {
        Seq::empty()
    }
}

/// The amount that the text of an amount column writes: zero for an empty
/// text, and an error for a text that writes no amount.
pub open spec fn text_amount(text: Seq<char>) -> Result<int, ImportError> {
    if text.len() == 0 {
        Ok(0)
    } else {
        match cents_up_to_max(text) {
            Some(c) => Ok(c as int),
            None => Err(ImportError::MalformedFile),
        }
    }
}

/// The amount in a cell of an amount column, as the kind of sheet holds it:
/// a number in the one, a text in the other. A column that the row does not
/// have, an empty cell and an empty text hold zero. A cell that is filled
/// with anything else than an amount of its kind makes the row unreadable.
pub open spec fn cents_in(row: Seq<Cell>, col: int, kind: SheetKind) -> Result<int, ImportError> {
    if 0 <= col < row.len() {
        match row[col] {
            Cell::Empty => Ok(0),
            Cell::Number(n) => match kind {
                SheetKind::Xlsx => Ok(n as int),
                SheetKind::Ods => Err(ImportError::MalformedFile),
            },
            Cell::Text(t) => if t@.len() == 0 {
                Ok(0)
            } else {
                match kind {
                    SheetKind::Xlsx => Err(ImportError::MalformedFile),
                    SheetKind::Ods => text_amount(t@),
                }
            },
            Cell::Other => Err(ImportError::MalformedFile),
        }
    } else {
        Ok(0)
    }
}

/// The flag of a reconciled record: the letter `Y`, large or small.
pub open spec fn says_yes(flag: Seq<char>) -> bool {
    flag == "Y"@ || flag == "y"@
}

/// The check number that a text writes: none for an empty text or for zero.
pub open spec fn check_number_of(text: Seq<char>) -> Result<Option<u32>, ImportError> {
    if text.len() == 0 {
        Ok(None)
    } else {
        match number_up_to(text, u32::MAX as nat) {
            Some(n) => if n > 0 {
                Ok(Some(n as u32))
            } else {
                Ok(None)
            },
            None => Err(ImportError::MalformedFile),
        }
    }
}

/// The record that the texts of a row hold, given the amounts of its credit
/// and debit columns. The columns are: identifier, date, check number,
/// reconciled flag, category, vendor, memo, credit, debit.
///
/// A row is refused where its check number is no number, where both credit
/// and debit are filled with an amount other than zero, where its amount is
/// more than the ledger holds, or where its date cannot be read. It is a
/// deposit where the credit is filled with an amount other than zero, a
/// withdrawal otherwise; its amount is that of the column without the sign.
pub open spec fn fields_draft(texts: Seq<Seq<char>>, credit: int, debit: int) -> Result<
    RecordView,
    ImportError,
> {
    match check_number_of(field(texts, 2)) {
        Err(e) => Err(e),
        Ok(check_number) => if credit != 0 && debit != 0 {
            Err(ImportError::AmbiguousTransactionType)
        } else if magnitude(credit) > MAX_CENTS || magnitude(debit) > MAX_CENTS {
            Err(ImportError::MalformedFile)
        } else {
            match Date::reading(date_of_text(field(texts, 1))) {
                Err(e) => Err(e),
                Ok(date) => Ok(
                    RecordView {
                        id: field(texts, 0),
                        transaction: TransactionView {
                            date,
                            check_number,
                            category: if field(texts, 4).len() == 0 {
                                None
                            } else {
                                Some(field(texts, 4))
                            },
                            vendor: field(texts, 5),
                            memo: field(texts, 6),
                            amount: (if credit != 0 {
                                magnitude(credit)
                            } else {
                                magnitude(debit)
                            }) as u64,
                            transaction_type: if credit != 0 {
                                TransactionType::Deposit
                            } else {
                                TransactionType::Withdrawal
                            },
                            is_reconciled: says_yes(field(texts, 3)),
                        },
                    },
                ),
            }
        },
    }
}

/// The record that a row of cells holds, given the amounts of its credit and
/// debit columns.
pub open spec fn row_draft(row: Seq<Cell>, credit: int, debit: int) -> Result<
    RecordView,
    ImportError,
> {
    fields_draft(texts_of(row), credit, debit)
}

/// The record that a row of a sheet of the given kind holds.
pub open spec fn sheet_draft(row: Seq<Cell>, kind: SheetKind) -> Result<RecordView, ImportError> {
    match (cents_in(row, 7, kind), cents_in(row, 8, kind)) {
        (Ok(credit), Ok(debit)) => row_draft(row, credit, debit),
        (Err(e), _) => Err(e),
        (_, Err(e)) => Err(e),
    }
}

/// A record is the one that was drafted: it holds the drafted transaction,
/// under the drafted identifier if the draft has one, under an identifier of
/// its own otherwise. It is never without an identifier.
pub open spec fn made_from(draft: RecordView, record: RecordView) -> bool {
    &&& record.transaction == draft.transaction
    &&& draft.id.len() > 0 ==> record.id == draft.id
    &&& record.id.len() > 0
}

/// The outcome of reading a row is the one that was drafted.
pub open spec fn read_as(
    draft: Result<RecordView, ImportError>,
    outcome: Result<Record, ImportError>,
) -> bool {
    match draft {
        Ok(d) => outcome matches Ok(record) && made_from(d, record@),
        Err(e) => outcome matches Err(f) && e == f,
    }
}

/// The records are the ones that were drafted, one for one.
pub open spec fn all_made_from(drafts: Seq<RecordView>, records: Seq<RecordView>) -> bool {
    drafts.len() == records.len() && forall|i: int|
        0 <= i < drafts.len() ==> made_from(#[trigger] drafts[i], records[i])
}

fn text_at(row: &Vec<Cell>, col: usize) -> (r: String)
    ensures
        r@ == text_in(row@, col as int),
        r@ == field(texts_of(row@), col as int),
{
    if col < row.len() {
        match &row[col] {
            Cell::Text(t) => t.clone(),
            _ => String::new(),
        }
    } else {
        String::new()
    }
}

/// Reads the amount that the text of an amount column writes.
pub fn read_amount(text: &str) -> (r: Result<i128, ImportError>)
    ensures
        match r {
            Ok(c) => text_amount(text@) == Ok::<int, ImportError>(c as int),
            Err(e) => text_amount(text@) == Err::<int, ImportError>(e),
        },
{
    if text.is_empty() {
        Ok(0)
    } else {
        match parse_cents(text) {
            Some(c) => Ok(c as i128),
            None => Err(ImportError::MalformedFile),
        }
    }
}

fn cents_at(row: &Vec<Cell>, col: usize, kind: SheetKind) -> (r: Result<i128, ImportError>)
    ensures
        match r {
            Ok(c) => cents_in(row@, col as int, kind) == Ok::<int, ImportError>(c as int),
            Err(e) => cents_in(row@, col as int, kind) == Err::<int, ImportError>(e),
        },
{
    if col < row.len() {
        match &row[col] {
            Cell::Empty => Ok(0),
            Cell::Number(n) => match kind {
                SheetKind::Xlsx => Ok(*n),
                SheetKind::Ods => Err(ImportError::MalformedFile),
            },
            Cell::Text(t) => if t.as_str().is_empty() {
                Ok(0)
            } else {
                match kind {
                    SheetKind::Xlsx => Err(ImportError::MalformedFile),
                    SheetKind::Ods => read_amount(t.as_str()),
                }
            },
            Cell::Other => Err(ImportError::MalformedFile),
        }
    } else {
        Ok(0)
    }
}

/// Whether a flag is that of a reconciled record.
pub fn is_yes(flag: &str) -> (r: bool)
    ensures
        r == says_yes(flag@),
{
    let given = String::from_str(flag);
    given == String::from_str("Y") || given == String::from_str("y")
}

/// Reads a check number: none for an empty text or for zero.
pub fn read_check_number(text: &str) -> (r: Result<Option<u32>, ImportError>)
    ensures
        r == check_number_of(text@),
{
    if text.is_empty() {
        Ok(None)
    } else {
        match parse_u32(text) {
            Some(n) => if n > 0 {
                Ok(Some(n))
            } else {
                Ok(None)
            },
            None => Err(ImportError::MalformedFile),
        }
    }
}

/// Reads the record that a row holds, given the amounts of its credit and
/// debit columns.
pub fn record_from_cells(row: &Vec<Cell>, credit: i128, debit: i128) -> (r: Result<
    Record,
    ImportError,
>)
    ensures
        read_as(row_draft(row@, credit as int, debit as int), r),
{
    let check = text_at(row, 2);
    let check_number = match read_check_number(check.as_str()) {
        Err(e) => {
            return Err(e);
        },
        Ok(n) => n,
    };
    if credit != 0 && debit != 0 {
        return Err(ImportError::AmbiguousTransactionType);
    }
    let limit: i128 = MAX_CENTS as i128;
    if credit > limit || credit < -limit || debit > limit || debit < -limit {
        return Err(ImportError::MalformedFile);
    }
    let filled: i128 = if credit != 0 {
        credit
    } else {
        debit
    };
    let date_text = text_at(row, 1);
    let date = match Date::parse(date_text.as_str()) {
        Err(e) => {
            return Err(e);
        },
        Ok(d) => d,
    };
    let category_text = text_at(row, 4);
    let category = if category_text.as_str().is_empty() {
        None
    } else {
        Some(category_text)
    };
    let flag = text_at(row, 3);
    let id = text_at(row, 0);
    let transaction = Transaction {
        date,
        check_number,
        category,
        vendor: text_at(row, 5),
        memo: text_at(row, 6),
        amount: if filled < 0 {
            (-filled) as u64
        } else {
            filled as u64
        },
        transaction_type: if credit != 0 {
            TransactionType::Deposit
        } else {
            TransactionType::Withdrawal
        },
        is_reconciled: is_yes(flag.as_str()),
    };
    Ok(Record::from(id.as_str(), transaction))
}

/// Reads the record that a row of a spreadsheet holds whose amounts are
/// numbers.
pub fn record_from_xlsx_row(row: &Vec<Cell>) -> (r: Result<Record, ImportError>)
    ensures
        read_as(sheet_draft(row@, SheetKind::Xlsx), r),
{
    match (cents_at(row, 7, SheetKind::Xlsx), cents_at(row, 8, SheetKind::Xlsx)) {
        (Ok(credit), Ok(debit)) => record_from_cells(row, credit, debit),
        (Err(e), _) => Err(e),
        (_, Err(e)) => Err(e),
    }
}

/// Reads the record that a row of a spreadsheet holds whose amounts are
/// written as text.
pub fn record_from_ods_row(row: &Vec<Cell>) -> (r: Result<Record, ImportError>)
    ensures
        read_as(sheet_draft(row@, SheetKind::Ods), r),
{
    match (cents_at(row, 7, SheetKind::Ods), cents_at(row, 8, SheetKind::Ods)) {
        (Ok(credit), Ok(debit)) => record_from_cells(row, credit, debit),
        (Err(e), _) => Err(e),
        (_, Err(e)) => Err(e),
    }
}

/// What reading the rows of a file gave: the records of the rows that could
/// be read, and for each row that could not, why not.
pub struct RowsRead {
    pub records: Vec<Record>,
    pub rejected: Vec<ImportError>,
}

/// The records that the rows hold, from the row `first` on, in the order of
/// the rows; a row that holds none is passed over.
pub open spec fn rows_drafts(rows: Seq<Vec<Cell>>, first: int, kind: SheetKind) -> Seq<RecordView>
    decreases rows.len(),
{
    if rows.len() <= first || rows.len() == 0 {
        Seq::empty()
    } else {
        match sheet_draft(rows.last()@, kind) {
            Ok(d) => rows_drafts(rows.drop_last(), first, kind).push(d),
            Err(_) => rows_drafts(rows.drop_last(), first, kind),
        }
    }
}

/// Why the rows that hold no record hold none, from the row `first` on, in
/// the order of the rows.
pub open spec fn rows_rejects(rows: Seq<Vec<Cell>>, first: int, kind: SheetKind) -> Seq<
    ImportError,
>
    decreases rows.len(),
{
    if rows.len() <= first || rows.len() == 0 {
        Seq::empty()
    } else {
        match sheet_draft(rows.last()@, kind) {
            Ok(_) => rows_rejects(rows.drop_last(), first, kind),
            Err(e) => rows_rejects(rows.drop_last(), first, kind).push(e),
        }
    }
}

/// Reads the rows of a sheet from the row `first` on.
pub fn records_from_rows(rows: &Vec<Vec<Cell>>, first: usize, kind: SheetKind) -> (read: RowsRead)
    ensures
        all_made_from(rows_drafts(rows@, first as int, kind), views_of(read.records@)),
        read.rejected@ == rows_rejects(rows@, first as int, kind),
{
    let mut records: Vec<Record> = Vec::new();
    let mut rejected: Vec<ImportError> = Vec::new();
    if first >= rows.len() {
        assert(views_of(records@) =~= Seq::<RecordView>::empty());
        return RowsRead { records, rejected };
    }
    let mut i: usize = first;
    proof {
        assert(rows@.take(first as int).len() <= first);
        assert(views_of(records@) =~= Seq::<RecordView>::empty());
    }
    while i < rows.len()
        invariant
            first <= i <= rows.len(),
            all_made_from(rows_drafts(rows@.take(i as int), first as int, kind), views_of(records@)),
            rejected@ == rows_rejects(rows@.take(i as int), first as int, kind),
        decreases rows.len() - i,
    {
        proof {
            let upto = rows@.take(i + 1);
            assert(upto.drop_last() =~= rows@.take(i as int));
            assert(upto.last() == rows@[i as int]);
        }
        let outcome = match kind {
            SheetKind::Xlsx => record_from_xlsx_row(&rows[i]),
            SheetKind::Ods => record_from_ods_row(&rows[i]),
        };
        match outcome {
            Ok(record) => {
                let ghost before = views_of(records@);
                let ghost added = record@;
                records.push(record);
                assert(views_of(records@) =~= before.push(added));
            },
            Err(e) => {
                rejected.push(e);
            },
        }
        i += 1;
    }
    assert(rows@.take(rows.len() as int) =~= rows@);
    RowsRead { records, rejected }
}

/// Reads the rows of a spreadsheet whose amounts are numbers. The first row
/// holds the headings and is passed over.
pub fn records_from_xlsx(rows: &Vec<Vec<Cell>>) -> (read: RowsRead)
    ensures
        all_made_from(rows_drafts(rows@, 1, SheetKind::Xlsx), views_of(read.records@)),
        read.rejected@ == rows_rejects(rows@, 1, SheetKind::Xlsx),
{
    records_from_rows(rows, 1, SheetKind::Xlsx)
}

/// Reads the rows of a spreadsheet whose amounts are written as text. The
/// first row holds the headings and is passed over.
pub fn records_from_ods(rows: &Vec<Vec<Cell>>) -> (read: RowsRead)
    ensures
        all_made_from(rows_drafts(rows@, 1, SheetKind::Ods), views_of(read.records@)),
        read.rejected@ == rows_rejects(rows@, 1, SheetKind::Ods),
{
    records_from_rows(rows, 1, SheetKind::Ods)
}

/// The transaction that an entry of a QIF file stands for. An amount above
/// zero is a deposit, any other a withdrawal, and the amount is kept without
/// its sign. An entry that the bank has marked, as cleared or as reconciled,
/// is reconciled.
pub open spec fn qif_transaction(t: QifTransaction) -> TransactionView {
    TransactionView {
        date: t.date,
        check_number: t.check_number,
        category: text_view(t.category),
        vendor: t.vendor@,
        memo: t.memo@,
        amount: magnitude(t.amount as int) as u64,
        transaction_type: if t.amount <= 0 {
            TransactionType::Withdrawal
        } else {
            TransactionType::Deposit
        },
        is_reconciled: t.status is Some,
    }
}

/// The transaction that an entry of a QIF file stands for.
pub fn qif_transaction_to_transaction(transaction: &QifTransaction) -> (r: Transaction)
    ensures
        r@ == qif_transaction(*transaction),
{
    Transaction {
        date: transaction.date,
        check_number: transaction.check_number,
        category: clone_text(&transaction.category),
        vendor: transaction.vendor.clone(),
        memo: transaction.memo.clone(),
        amount: magnitude_of(transaction.amount),
        transaction_type: if transaction.amount <= 0 {
            TransactionType::Withdrawal
        } else {
            TransactionType::Deposit
        },
        is_reconciled: transaction.status.is_some(),
    }
}

/// The records that the entries of a QIF section stand for, in the order of
/// the entries, none of them with an identifier yet.
pub open spec fn qif_drafts(entries: Seq<QifTransaction>) -> Seq<RecordView> {
    Seq::new(
        entries.len(),
        |i: int| RecordView { id: Seq::empty(), transaction: qif_transaction(entries[i]) },
    )
}

/// Reads the records of one section of a QIF file. Each gets an identifier
/// of its own.
pub fn records_from_section(qif: &Qif, section: QifType) -> (records: Vec<Record>)
    ensures
        all_made_from(qif_drafts(qif.entries(section)), views_of(records@)),
{
    let mut records: Vec<Record> = Vec::new();
    match qif.section(section) {
        None => {},
        Some(found) => {
            let mut i: usize = 0;
            while i < found.transactions.len()
                invariant
                    i <= found.transactions.len(),
                    records.len() == i,
                    forall|k: int|
                        0 <= k < i ==> made_from(
                            #[trigger] qif_drafts(found.transactions@)[k],
                            views_of(records@)[k],
                        ),
                decreases found.transactions.len() - i,
            {
                let transaction = qif_transaction_to_transaction(&found.transactions[i]);
                let ghost before = views_of(records@);
                let record = Record::from("", transaction);
                let ghost added = record@;
                records.push(record);
                assert(views_of(records@) =~= before.push(added));
                i += 1;
            }
        },
    }
    records
}

/// A line without the carriage return that may end it.
pub open spec fn without_return(line: Seq<char>) -> Seq<char> {
    if line.len() > 0 && line.last() == '\r' {
        line.drop_last()
    } else {
        line
    }
}

/// The record that a line of tab-separated text holds. The line has the nine
/// columns of a spreadsheet row, with the amounts written as text.
pub open spec fn tsv_draft(line: Seq<char>) -> Result<RecordView, ImportError> {
    let texts = split_on(line, '\t');
    if texts.len() != 9 {
        Err(ImportError::MalformedFile)
    } else {
        match (text_amount(field(texts, 7)), text_amount(field(texts, 8))) {
            (Ok(credit), Ok(debit)) => fields_draft(texts, credit, debit),
            (Err(e), _) => Err(e),
            (_, Err(e)) => Err(e),
        }
    }
}

/// The records that the lines of a tab-separated file hold, in the order of
/// the lines. An empty line is passed over, and so is a line without a
/// record.
pub open spec fn tsv_drafts(lines: Seq<Seq<char>>) -> Seq<RecordView>
    decreases lines.len(),
{
    if lines.len() == 0 {
        Seq::empty()
    } else {
        let line = without_return(lines.last());
        let before = tsv_drafts(lines.drop_last());
        if line.len() == 0 {
            before
        } else {
            match tsv_draft(line) {
                Ok(d) => before.push(d),
                Err(_) => before,
            }
        }
    }
}

/// Why the lines that hold no record hold none, in the order of the lines.
pub open spec fn tsv_rejects(lines: Seq<Seq<char>>) -> Seq<ImportError>
    decreases lines.len(),
{
    if lines.len() == 0 {
        Seq::empty()
    } else {
        let line = without_return(lines.last());
        let before = tsv_rejects(lines.drop_last());
        if line.len() == 0 {
            before
        } else {
            match tsv_draft(line) {
                Ok(_) => before,
                Err(e) => before.push(e),
            }
        }
    }
}

fn strip_return(line: &str) -> (r: String)
    ensures
        r@ == without_return(line@),
{
    let chars = chars_of(line);
    let n = chars.len();
    if n > 0 && chars[n - 1] == '\r' {
        let r = String::from_str(line.substring_char(0, n - 1));
        assert(r@ =~= line@.drop_last());
        r
    } else {
        String::from_str(line)
    }
}

fn cells_of(texts: Vec<String>) -> (row: Vec<Cell>)
    ensures
        texts_of(row@) == names_of(texts@),
        forall|k: int| 0 <= k < row@.len() ==> (#[trigger] row@[k]) is Text,
{
    let mut row: Vec<Cell> = Vec::new();
    let mut i: usize = 0;
    while i < texts.len()
        invariant
            i <= texts.len(),
            row.len() == i,
            forall|k: int| 0 <= k < i ==> text_in(row@, k) == #[trigger] texts@[k]@,
            forall|k: int| 0 <= k < i ==> (#[trigger] row@[k]) is Text,
        decreases texts.len() - i,
    {
        row.push(Cell::Text(texts[i].clone()));
        i += 1;
    }
    assert(texts_of(row@) =~= names_of(texts@));
    row
}

/// Reads the record that a line of tab-separated text holds.
pub fn record_from_tsv_line(line: &str) -> (r: Result<Record, ImportError>)
    ensures
        read_as(tsv_draft(line@), r),
{
    let texts = split(line, '\t');
    if texts.len() != 9 {
        return Err(ImportError::MalformedFile);
    }
    let row = cells_of(texts);
    proof {
        assert(row@[7] is Text && row@[8] is Text);
        assert(text_in(row@, 7) == field(texts_of(row@), 7));
        assert(text_in(row@, 8) == field(texts_of(row@), 8));
    }
    record_from_ods_row(&row)
}

/// Reads the lines of a tab-separated file.
pub fn records_from_tsv(text: &str) -> (read: RowsRead)
    ensures
        all_made_from(tsv_drafts(split_on(text@, '\n')), views_of(read.records@)),
        read.rejected@ == tsv_rejects(split_on(text@, '\n')),
{
    let lines = split(text, '\n');
    let mut records: Vec<Record> = Vec::new();
    let mut rejected: Vec<ImportError> = Vec::new();
    let mut i: usize = 0;
    proof {
        assert(names_of(lines@).take(0) =~= Seq::<Seq<char>>::empty());
        assert(views_of(records@) =~= Seq::<RecordView>::empty());
    }
    while i < lines.len()
        invariant
            i <= lines.len(),
            all_made_from(tsv_drafts(names_of(lines@).take(i as int)), views_of(records@)),
            rejected@ == tsv_rejects(names_of(lines@).take(i as int)),
        decreases lines.len() - i,
    {
        proof {
            let upto = names_of(lines@).take(i + 1);
            assert(upto.drop_last() =~= names_of(lines@).take(i as int));
            assert(upto.last() == lines@[i as int]@);
        }
        let line = strip_return(lines[i].as_str());
        if !line.as_str().is_empty() {
            match record_from_tsv_line(line.as_str()) {
                Ok(record) => {
                    let ghost before = views_of(records@);
                    let ghost added = record@;
                    records.push(record);
                    assert(views_of(records@) =~= before.push(added));
                },
                Err(e) => {
                    rejected.push(e);
                },
            }
        }
        i += 1;
    }
    assert(names_of(lines@).take(lines.len() as int) =~= names_of(lines@));
    RowsRead { records, rejected }
}

/// What was found in the file to import, in the shape in which each format
/// comes: the records of a native file, the sections of a QIF file, the text
/// of a tab-separated file, the rows of a spreadsheet. `Unreadable` stands
/// for a file that could not be opened or taken apart.
#[derive(Debug, PartialEq, Eq)]
pub enum ImportSource {
    Native(Vec<Record>),
    Qif(Qif),
    Tsv(String),
    Sheet(Vec<Vec<Cell>>),
    Unreadable,
}

/// The command that imports a file into the ledger.
#[derive(Debug, PartialEq, Eq)]
pub struct Import {
    pub file_path: String,
    pub input_file: String,
}

/// What a file of a format holds: the records of its rows and the reasons
/// for which rows were refused; or that it is not a file of that format.
pub open spec fn import_drafts(format: FileFormat, source: ImportSource) -> Result<
    (Seq<RecordView>, Seq<ImportError>),
    ImportError,
> {
    match (format, source) {
        (FileFormat::Native, ImportSource::Native(records)) => Ok(
            (views_of(records@), Seq::empty()),
        ),
        (FileFormat::Qif, ImportSource::Qif(qif)) => Ok(
            (qif_drafts(qif.entries(QifType::Bank)), Seq::empty()),
        ),
        (FileFormat::Tsv, ImportSource::Tsv(text)) => Ok(
            (tsv_drafts(split_on(text@, '\n')), tsv_rejects(split_on(text@, '\n'))),
        ),
        (FileFormat::Ods, ImportSource::Sheet(rows)) => Ok(
            (rows_drafts(rows@, 1, SheetKind::Ods), rows_rejects(rows@, 1, SheetKind::Ods)),
        ),
        (FileFormat::Xlsx, ImportSource::Sheet(rows)) => Ok(
            (rows_drafts(rows@, 1, SheetKind::Xlsx), rows_rejects(rows@, 1, SheetKind::Xlsx)),
        ),
        _ => Err(ImportError::MalformedFile),
    }
}

/// The records, each under its identifier; a record without one gets an
/// identifier of its own.
pub fn with_identifiers(records: &Vec<Record>) -> (named: Vec<Record>)
    ensures
        all_made_from(views_of(records@), views_of(named@)),
{
    let mut named: Vec<Record> = Vec::new();
    let mut i: usize = 0;
    while i < records.len()
        invariant
            i <= records.len(),
            named.len() == i,
            forall|k: int|
                0 <= k < i ==> made_from(#[trigger] views_of(records@)[k], views_of(named@)[k]),
        decreases records.len() - i,
    {
        let ghost before = views_of(named@);
        let record = Record::from(records[i].id.as_str(), records[i].transaction.clone());
        let ghost added = record@;
        named.push(record);
        assert(views_of(named@) =~= before.push(added));
        i += 1;
    }
    named
}

impl Import {
    /// The format in which the file to import is read: the one that the end
    /// of its name tells.
    pub fn format(&self) -> (r: FileFormat)
        ensures
            r == FileFormat::of(self.input_file@),
    {
        FileFormat::of_path(self.input_file.as_str())
    }

    /// Brings what was found in the file to records. The file is refused as
    /// a whole where it is unreadable or not of the format that its name
    /// tells.
    pub fn import(&self, source: &ImportSource) -> (r: Result<RowsRead, ImportError>)
        ensures
            match import_drafts(FileFormat::of(self.input_file@), *source) {
                Ok((drafts, rejects)) => r matches Ok(read) && all_made_from(
                    drafts,
                    views_of(read.records@),
                ) && read.rejected@ == rejects,
                Err(e) => r matches Err(f) && e == f,
            },
    {
        match (self.format(), source) {
            (FileFormat::Native, ImportSource::Native(records)) => Ok(
                RowsRead { records: with_identifiers(records), rejected: Vec::new() },
            ),
            (FileFormat::Qif, ImportSource::Qif(qif)) => Ok(
                RowsRead {
                    records: records_from_section(qif, QifType::Bank),
                    rejected: Vec::new(),
                },
            ),
            (FileFormat::Tsv, ImportSource::Tsv(text)) => Ok(records_from_tsv(text.as_str())),
            (FileFormat::Ods, ImportSource::Sheet(rows)) => Ok(records_from_ods(rows)),
            (FileFormat::Xlsx, ImportSource::Sheet(rows)) => Ok(records_from_xlsx(rows)),
            _ => Err(ImportError::MalformedFile),
        }
    }

    /// Imports the file into the store: every record that could be read is
    /// written over the record of its identifier, or added where the store
    /// has none. Hands back why rows were refused: first the rows that could
    /// not be read, then the records that the store did not take.
    pub fn run(&self, store: &mut Ledger, source: &ImportSource) -> (r: Result<
        Vec<ImportError>,
        ImportError,
    >)
        ensures
            match import_drafts(FileFormat::of(self.input_file@), *source) {
                Ok((drafts, rejects)) => r matches Ok(refused) && exists|records: Seq<RecordView>|
                    all_made_from(drafts, records) && final(store)@ == old(store)@.after_upserts(
                        records,
                    ) && refused@ == rejects + old(store)@.refusals(records),
                Err(e) => r matches Err(f) && e == f && final(store)@ == old(store)@,
            },
            old(store)@.wf() ==> final(store)@.wf(),
    {
        match self.import(source) {
            Ok(read) => {
                let mut refused = read.rejected;
                let ghost rejects = refused@;
                let mut not_taken = add_records_to_db(store, &read.records);
                let ghost refusals = not_taken@;
                refused.append(&mut not_taken);
                assert(refused@ =~= rejects + refusals);
                Ok(refused)
            },
            Err(e) => Err(e),
        }
    }
}

} // verus!
