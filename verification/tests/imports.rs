use rcheckbook::database::{load_records_from_db, record_from_row, stored_row, Ledger, StoredRow, add_record_to_db};
use rcheckbook::date::Date;
use rcheckbook::errors::ImportError;
use rcheckbook::import::{
    qif_transaction_to_transaction, read_amount, read_check_number, record_from_cells,
    record_from_ods_row,
    record_from_tsv_line, record_from_xlsx_row, records_from_ods, records_from_section,
    records_from_tsv, records_from_xlsx, Cell, Import, ImportSource,
};
use rcheckbook::qif::{Qif, QifSection, QifStatus, QifTransaction, QifType};
use rcheckbook::records::Record;
use rcheckbook::transaction::{Transaction, TransactionType};

fn text(s: &str) -> Cell {
    Cell::Text(s.to_string())
}

fn xlsx_row(credit: Cell, debit: Cell) -> Vec<Cell> {
    vec![
        text("FF04C3DC"),
        text("2021-07-08"),
        text("1260"),
        text("y"),
        text("Opening Balance"),
        text("Sam Hill Credit Union"),
        text("Open Account"),
        credit,
        debit,
    ]
}

#[test]
fn xlsx_row_with_credit_is_a_deposit() {
    let r = record_from_xlsx_row(&xlsx_row(Cell::Number(50000), Cell::Empty)).unwrap();
    assert_eq!(r.id, "FF04C3DC");
    assert_eq!(r.transaction.date, Date { year: 2021, month: 7, day: 8 });
    assert_eq!(r.transaction.check_number, Some(1260));
    assert!(r.transaction.is_reconciled);
    assert_eq!(r.transaction.category, Some("Opening Balance".to_string()));
    assert_eq!(r.transaction.vendor, "Sam Hill Credit Union");
    assert_eq!(r.transaction.memo, "Open Account");
    assert_eq!(r.transaction.amount, 50000);
    assert_eq!(r.transaction.transaction_type, TransactionType::Deposit);
}

#[test]
fn xlsx_row_with_debit_is_a_withdrawal() {
    let r = record_from_xlsx_row(&xlsx_row(Cell::Empty, Cell::Number(2000))).unwrap();
    assert_eq!(r.transaction.amount, 2000);
    assert_eq!(r.transaction.transaction_type, TransactionType::Withdrawal);
    let zero = record_from_xlsx_row(&xlsx_row(Cell::Number(0), Cell::Number(2000))).unwrap();
    assert_eq!(zero.transaction.amount, 2000);
    assert_eq!(zero.transaction.transaction_type, TransactionType::Withdrawal);
}

#[test]
fn row_with_credit_and_debit_is_ambiguous() {
    let row = xlsx_row(Cell::Number(5000), Cell::Number(2000));
    assert_eq!(record_from_xlsx_row(&row), Err(ImportError::AmbiguousTransactionType));
    let ods = xlsx_row(text("50.00"), text("20.00"));
    assert_eq!(record_from_ods_row(&ods), Err(ImportError::AmbiguousTransactionType));
}

#[test]
fn ambiguous_row_is_skipped_and_produces_no_record() {
    let heading = vec![Cell::Empty, text("Date")];
    let rows = vec![
        heading,
        xlsx_row(Cell::Number(5000), Cell::Number(2000)),
        xlsx_row(Cell::Number(100), Cell::Empty),
    ];
    let read = records_from_xlsx(&rows);
    assert_eq!(read.records.len(), 1);
    assert_eq!(read.records[0].transaction.amount, 100);
    assert_eq!(read.rejected, vec![ImportError::AmbiguousTransactionType]);
}

#[test]
fn row_with_bad_date_is_rejected() {
    let mut row = xlsx_row(Cell::Number(100), Cell::Empty);
    row[1] = text("07/08/2021");
    assert_eq!(record_from_xlsx_row(&row), Err(ImportError::InvalidDateFormat));
    row[1] = Cell::Empty;
    assert_eq!(record_from_xlsx_row(&row), Err(ImportError::InvalidDateFormat));
}

#[test]
fn row_with_bad_check_number_is_malformed() {
    let mut row = xlsx_row(Cell::Number(100), Cell::Empty);
    row[2] = text("12x");
    assert_eq!(record_from_xlsx_row(&row), Err(ImportError::MalformedFile));
    assert_eq!(read_check_number("12x"), Err(ImportError::MalformedFile));
    assert_eq!(read_check_number(""), Ok(None));
    assert_eq!(read_check_number("0"), Ok(None));
    assert_eq!(read_check_number("15"), Ok(Some(15)));
}

#[test]
fn row_with_amount_too_large_is_malformed() {
    let row = xlsx_row(Cell::Number(i128::MAX), Cell::Empty);
    assert_eq!(record_from_xlsx_row(&row), Err(ImportError::MalformedFile));
    let row = xlsx_row(Cell::Empty, Cell::Number(i128::MIN));
    assert_eq!(record_from_xlsx_row(&row), Err(ImportError::MalformedFile));
}

#[test]
fn row_without_id_gets_one_and_empty_cells_count_as_nothing() {
    let row = vec![Cell::Empty, text("2024-01-02"), Cell::Empty, Cell::Other, Cell::Empty];
    let r = record_from_xlsx_row(&row).unwrap();
    assert_eq!(r.id.chars().count(), 36);
    assert_eq!(r.transaction.check_number, None);
    assert!(!r.transaction.is_reconciled);
    assert_eq!(r.transaction.category, None);
    assert_eq!(r.transaction.vendor, "");
    assert_eq!(r.transaction.amount, 0);
    assert_eq!(r.transaction.transaction_type, TransactionType::Withdrawal);
}

#[test]
fn row_with_negative_credit_is_a_deposit_of_its_magnitude() {
    let r = record_from_xlsx_row(&xlsx_row(Cell::Number(-5000), Cell::Empty)).unwrap();
    assert_eq!(r.transaction.transaction_type, TransactionType::Deposit);
    assert_eq!(r.transaction.amount, 5000);
    let w = record_from_xlsx_row(&xlsx_row(Cell::Empty, Cell::Number(-2000))).unwrap();
    assert_eq!(w.transaction.transaction_type, TransactionType::Withdrawal);
    assert_eq!(w.transaction.amount, 2000);
    let z = record_from_xlsx_row(&xlsx_row(Cell::Number(0), Cell::Number(0))).unwrap();
    assert_eq!(z.transaction.transaction_type, TransactionType::Withdrawal);
    assert_eq!(z.transaction.amount, 0);
}

#[test]
fn row_with_both_columns_other_than_zero_is_ambiguous_whatever_the_signs() {
    let row = xlsx_row(Cell::Number(5000), Cell::Number(-2000));
    assert_eq!(record_from_xlsx_row(&row), Err(ImportError::AmbiguousTransactionType));
    let row = xlsx_row(Cell::Number(-5000), Cell::Number(2000));
    assert_eq!(record_from_xlsx_row(&row), Err(ImportError::AmbiguousTransactionType));
    assert_eq!(
        record_from_cells(&xlsx_row(Cell::Empty, Cell::Empty), -1, -1),
        Err(ImportError::AmbiguousTransactionType)
    );
}

#[test]
fn xlsx_row_with_an_amount_that_is_no_number_is_malformed() {
    let row = xlsx_row(text("50.00"), Cell::Empty);
    assert_eq!(record_from_xlsx_row(&row), Err(ImportError::MalformedFile));
    let row = xlsx_row(Cell::Empty, Cell::Other);
    assert_eq!(record_from_xlsx_row(&row), Err(ImportError::MalformedFile));
    let empty_text = record_from_xlsx_row(&xlsx_row(text(""), Cell::Number(700))).unwrap();
    assert_eq!(empty_text.transaction.amount, 700);
    assert_eq!(empty_text.transaction.transaction_type, TransactionType::Withdrawal);
}

#[test]
fn ods_row_reads_amounts_from_text() {
    let r = record_from_ods_row(&xlsx_row(text("50.00"), Cell::Empty)).unwrap();
    assert_eq!(r.transaction.amount, 5000);
    assert_eq!(r.transaction.transaction_type, TransactionType::Deposit);
    let w = record_from_ods_row(&xlsx_row(text(""), text("20.5"))).unwrap();
    assert_eq!(w.transaction.amount, 2050);
    assert_eq!(w.transaction.transaction_type, TransactionType::Withdrawal);
    let z = record_from_ods_row(&xlsx_row(text("0.00"), text("3"))).unwrap();
    assert_eq!(z.transaction.amount, 300);
    assert_eq!(z.transaction.transaction_type, TransactionType::Withdrawal);
}

#[test]
fn ods_row_with_an_amount_that_cannot_be_read_is_malformed() {
    let row = xlsx_row(text("fifty"), text("20.00"));
    assert_eq!(record_from_ods_row(&row), Err(ImportError::MalformedFile));
    let row = xlsx_row(text("20.00"), text("-"));
    assert_eq!(record_from_ods_row(&row), Err(ImportError::MalformedFile));
    let row = xlsx_row(Cell::Number(5000), Cell::Empty);
    assert_eq!(record_from_ods_row(&row), Err(ImportError::MalformedFile));
    assert_eq!(read_amount("x"), Err(ImportError::MalformedFile));
    assert_eq!(read_amount(""), Ok(0));
    assert_eq!(read_amount("1.5"), Ok(150));
    assert_eq!(
        record_from_tsv_line("ID1\t2024-01-05\t\tN\t\tShop\t\tabc\t"),
        Err(ImportError::MalformedFile)
    );
}

#[test]
fn record_from_cells_takes_the_amounts_it_is_given() {
    let row = xlsx_row(Cell::Empty, Cell::Empty);
    let r = record_from_cells(&row, 0, -750).unwrap();
    assert_eq!(r.transaction.amount, 750);
    assert_eq!(r.transaction.transaction_type, TransactionType::Withdrawal);
}

#[test]
fn sheets_skip_the_heading_row() {
    let rows = vec![
        xlsx_row(text("Credit"), text("Withdrawal")),
        xlsx_row(text("1.00"), Cell::Empty),
        xlsx_row(Cell::Empty, text("2.00")),
    ];
    let read = records_from_ods(&rows);
    assert_eq!(read.records.len(), 2);
    assert_eq!(read.records[0].transaction.amount, 100);
    assert_eq!(read.records[1].transaction.amount, 200);
    assert!(read.rejected.is_empty());
    assert_eq!(records_from_ods(&Vec::new()).records.len(), 0);
    assert_eq!(records_from_xlsx(&vec![xlsx_row(Cell::Number(1), Cell::Empty)]).records.len(), 0);
}

#[test]
fn tsv_line_is_read_like_a_row() {
    let r = record_from_tsv_line("ID1\t2024-01-05\t\tN\tUtilities\tPower Co\tJanuary\t\t30.00")
        .unwrap();
    assert_eq!(r.id, "ID1");
    assert_eq!(r.transaction.date, Date { year: 2024, month: 1, day: 5 });
    assert_eq!(r.transaction.check_number, None);
    assert!(!r.transaction.is_reconciled);
    assert_eq!(r.transaction.category, Some("Utilities".to_string()));
    assert_eq!(r.transaction.vendor, "Power Co");
    assert_eq!(r.transaction.memo, "January");
    assert_eq!(r.transaction.amount, 3000);
    assert_eq!(r.transaction.transaction_type, TransactionType::Withdrawal);
}

#[test]
fn tsv_line_with_wrong_number_of_columns_is_malformed() {
    assert_eq!(record_from_tsv_line("ID1\t2024-01-05"), Err(ImportError::MalformedFile));
    assert_eq!(
        record_from_tsv_line("a\tb\tc\td\te\tf\tg\th\ti\tj"),
        Err(ImportError::MalformedFile)
    );
}

#[test]
fn tsv_file_keeps_the_rows_that_can_be_read() {
    let text = "ID1\t2024-01-01\t1\tY\tOpening Balance\tBank\t\t100.00\t\r\n\
                ID2\tnot a date\t\tN\t\tShop\t\t\t5.00\r\n\
                short line\r\n\
                \r\n\
                ID3\t2024-01-10\t\tN\tSalary\tEmployer\t\t20.00\t\n";
    let read = records_from_tsv(text);
    let ids: Vec<&str> = read.records.iter().map(|r| r.id.as_str()).collect();
    assert_eq!(ids, vec!["ID1", "ID3"]);
    assert_eq!(
        read.rejected,
        vec![ImportError::InvalidDateFormat, ImportError::MalformedFile]
    );
    assert_eq!(read.records[0].transaction.check_number, Some(1));
    assert!(read.records[0].transaction.is_reconciled);
    assert_eq!(read.records[1].transaction.amount, 2000);
    assert_eq!(records_from_tsv("").records.len(), 0);
}

fn qif_entry(amount: i64, status: Option<QifStatus>) -> QifTransaction {
    QifTransaction {
        date: Date { year: 2024, month: 1, day: 5 },
        check_number: Some(12),
        vendor: "Power Co".to_string(),
        address: "Power Co".to_string(),
        amount,
        category: Some("Utilities".to_string()),
        memo: "January".to_string(),
        status,
    }
}

#[test]
fn qif_amount_sign_gives_the_type() {
    let w = qif_transaction_to_transaction(&qif_entry(-3000, None));
    assert_eq!(w.transaction_type, TransactionType::Withdrawal);
    assert_eq!(w.amount, 3000);
    assert!(!w.is_reconciled);
    let d = qif_transaction_to_transaction(&qif_entry(2000, Some(QifStatus::Reconciled)));
    assert_eq!(d.transaction_type, TransactionType::Deposit);
    assert_eq!(d.amount, 2000);
    assert!(d.is_reconciled);
    let z = qif_transaction_to_transaction(&qif_entry(0, Some(QifStatus::Cleared)));
    assert_eq!(z.transaction_type, TransactionType::Withdrawal);
    assert_eq!(z.amount, 0);
    assert!(z.is_reconciled);
    assert_eq!(d.check_number, Some(12));
    assert_eq!(d.category, Some("Utilities".to_string()));
    assert_eq!(d.vendor, "Power Co");
    assert_eq!(d.memo, "January");
    assert_eq!(d.date, Date { year: 2024, month: 1, day: 5 });
}

fn bank_file() -> Qif {
    Qif {
        cash: None,
        bank: Some(QifSection {
            qif_type: QifType::Bank,
            transactions: vec![qif_entry(-3000, None), qif_entry(2000, None)],
        }),
        credit_card: None,
        liability: None,
        asset: None,
    }
}

#[test]
fn qif_section_gives_one_record_per_entry() {
    let file = bank_file();
    let records = records_from_section(&file, QifType::Bank);
    assert_eq!(records.len(), 2);
    assert_eq!(records[0].transaction.amount, 3000);
    assert_eq!(records[1].transaction.amount, 2000);
    assert_eq!(records[0].id.chars().count(), 36);
    assert_eq!(records[1].id.chars().count(), 36);
    assert_ne!(records[0].id, records[1].id);
    assert!(records_from_section(&file, QifType::Cash).is_empty());
}

fn import_of(name: &str) -> Import {
    Import { file_path: "register.db".to_string(), input_file: name.to_string() }
}

#[test]
fn import_reads_by_the_format_of_the_file_name() {
    let numbers = ImportSource::Sheet(vec![
        xlsx_row(text("Credit"), text("Withdrawal")),
        xlsx_row(Cell::Number(100), Cell::Empty),
    ]);
    let as_xlsx = import_of("in.xlsx").import(&numbers).unwrap();
    assert_eq!(as_xlsx.records[0].transaction.amount, 100);
    assert_eq!(as_xlsx.records[0].transaction.transaction_type, TransactionType::Deposit);
    let misread = import_of("in.ods").import(&numbers).unwrap();
    assert!(misread.records.is_empty());
    assert_eq!(misread.rejected, vec![ImportError::MalformedFile]);
    let texts = ImportSource::Sheet(vec![
        xlsx_row(text("Credit"), text("Withdrawal")),
        xlsx_row(Cell::Empty, text("2.00")),
    ]);
    let as_ods = import_of("in.ods").import(&texts).unwrap();
    assert_eq!(as_ods.records[0].transaction.amount, 200);
    assert_eq!(as_ods.records[0].transaction.transaction_type, TransactionType::Withdrawal);
    let qif = ImportSource::Qif(bank_file());
    assert_eq!(import_of("in.qif").import(&qif).unwrap().records.len(), 2);
    let tsv = ImportSource::Tsv("ID1\t2024-01-01\t\tN\t\tBank\t\t1.00\t".to_string());
    assert_eq!(import_of("in.tsv").import(&tsv).unwrap().records.len(), 1);
    assert_eq!(import_of("in.unknown").import(&tsv).unwrap().records.len(), 1);
}

#[test]
fn import_reports_the_records_that_the_store_refuses() {
    let mut good = record_from_tsv_line("ID1\t2024-01-01\t\tN\t\tBank\t\t1.00\t").unwrap();
    good.id = "G".to_string();
    let mut too_much = good.clone();
    too_much.id = "H".to_string();
    too_much.transaction.amount = u64::MAX;
    let source = ImportSource::Native(vec![too_much, good]);
    let mut store = Ledger::new();
    assert_eq!(
        import_of("in.bcheck").run(&mut store, &source),
        Ok(vec![ImportError::StorageError])
    );
    assert_eq!(store.records().len(), 1);
    assert_eq!(store.records()[0].id, "G");
}

#[test]
fn import_refuses_a_file_of_another_format() {
    let tsv = ImportSource::Tsv(String::new());
    assert!(matches!(import_of("in.qif").import(&tsv), Err(ImportError::MalformedFile)));
    assert!(matches!(
        import_of("in.bcheck").import(&ImportSource::Unreadable),
        Err(ImportError::MalformedFile)
    ));
    let mut store = Ledger::new();
    assert_eq!(import_of("in.ods").run(&mut store, &tsv), Err(ImportError::MalformedFile));
    assert_eq!(store.records().len(), 0);
}

#[test]
fn importing_a_file_twice_is_importing_it_once() {
    let source = ImportSource::Tsv(
        "ID1\t2024-01-01\t\tY\tOpening Balance\tBank\t\t100.00\t\r\n\
         ID2\t2024-01-05\t\tN\tUtilities\tPower Co\t\t\t30.00\r\n\
         bad\r\n"
            .to_string(),
    );
    let command = import_of("in.tsv");
    let mut once = Ledger::new();
    assert_eq!(command.run(&mut once, &source), Ok(vec![ImportError::MalformedFile]));
    let mut twice = Ledger::new();
    assert!(command.run(&mut twice, &source).is_ok());
    assert!(command.run(&mut twice, &source).is_ok());
    assert_eq!(once.records(), twice.records());
    assert_eq!(once.categories(), twice.categories());
    assert_eq!(once.records().len(), 2);
}

#[test]
fn native_import_takes_the_records_as_they_are() {
    let record = Record {
        id: "N1".to_string(),
        transaction: Transaction {
            date: Date { year: 2024, month: 1, day: 1 },
            check_number: Some(3),
            category: None,
            vendor: "v".to_string(),
            memo: "m".to_string(),
            amount: 77,
            transaction_type: TransactionType::Deposit,
            is_reconciled: true,
        },
    };
    let source = ImportSource::Native(vec![record.clone()]);
    let read = import_of("in.bcheck").import(&source).unwrap();
    assert_eq!(read.records, vec![record]);
    assert!(read.rejected.is_empty());
}

fn stored(id: &str, date: &str, amount: Option<i64>, flag: Option<&str>) -> StoredRow {
    StoredRow {
        id: id.to_string(),
        date: date.to_string(),
        check_number: Some(7),
        reconciled: flag.map(|f| f.to_string()),
        vendor: None,
        memo: Some("memo".to_string()),
        category: Some("Food".to_string()),
        category_id: Some(1),
        amount,
    }
}

#[test]
fn stored_amount_sign_gives_the_type() {
    let d = record_from_row(&stored("R1", "2024-01-01", Some(1250), Some("Y"))).unwrap();
    assert_eq!(d.transaction.transaction_type, TransactionType::Deposit);
    assert_eq!(d.transaction.amount, 1250);
    assert!(d.transaction.is_reconciled);
    assert_eq!(d.transaction.vendor, "");
    assert_eq!(d.transaction.memo, "memo");
    assert_eq!(d.transaction.check_number, Some(7));
    assert_eq!(d.transaction.category, Some("Food".to_string()));
    let w = record_from_row(&stored("R2", "2024-01-01", Some(-1250), Some("N"))).unwrap();
    assert_eq!(w.transaction.transaction_type, TransactionType::Withdrawal);
    assert_eq!(w.transaction.amount, 1250);
    assert!(!w.transaction.is_reconciled);
    let z = record_from_row(&stored("R3", "2024-01-01", None, None)).unwrap();
    assert_eq!(z.transaction.transaction_type, TransactionType::Withdrawal);
    assert_eq!(z.transaction.amount, 0);
    assert!(!z.transaction.is_reconciled);
    let y = record_from_row(&stored("R4", "2024-01-01", Some(1), Some("y"))).unwrap();
    assert!(!y.transaction.is_reconciled);
    let m = record_from_row(&stored("R5", "2024-01-01", Some(i64::MIN), None)).unwrap();
    assert_eq!(m.transaction.amount, 1u64 << 63);
}

#[test]
fn stored_rows_with_unreadable_dates_are_passed_over() {
    let rows = vec![
        stored("R1", "2024-01-01", Some(1), None),
        stored("R2", "never", Some(2), None),
        stored("R3", "2024-01-03", Some(3), None),
    ];
    assert_eq!(record_from_row(&rows[1]), Err(ImportError::InvalidDateFormat));
    let records = load_records_from_db(&rows);
    let ids: Vec<&str> = records.iter().map(|r| r.id.as_str()).collect();
    assert_eq!(ids, vec!["R1", "R3"]);
}

#[test]
fn stored_row_of_a_record_reads_back() {
    let mut store = Ledger::new();
    let record = record_from_row(&stored("R1", "2024-02-29", Some(-1250), Some("Y"))).unwrap();
    assert_eq!(add_record_to_db(&mut store, &record), Ok(()));
    let row = stored_row(&store, &store.records()[0]);
    assert_eq!(row.id, "R1");
    assert_eq!(row.date, "2024-02-29");
    assert_eq!(row.amount, Some(-1250));
    assert_eq!(row.reconciled, Some("Y".to_string()));
    assert_eq!(row.category, Some("Food".to_string()));
    assert_eq!(row.category_id, Some(1));
    assert_eq!(row.vendor, Some(String::new()));
    assert_eq!(record_from_row(&row).unwrap(), store.records()[0]);
}

#[test]
fn open_enters_categories_then_records() {
    let names = vec!["Rent".to_string(), "rent".to_string(), "Food".to_string()];
    let records = load_records_from_db(&vec![
        stored("R1", "2024-01-01", Some(1), None),
        stored("r1", "2024-01-02", Some(2), None),
    ]);
    let store = Ledger::open(&names, &records);
    assert_eq!(store.categories(), &vec!["Rent".to_string(), "Food".to_string()]);
    assert_eq!(store.records().len(), 1);
    assert_eq!(store.records()[0].transaction.amount, 2);
}

#[test]
fn records_without_identifier_get_one() {
    let mut records = vec![
        record_from_tsv_line("ID1\t2024-01-01\t\tN\t\tBank\t\t1.00\t").unwrap(),
        record_from_tsv_line("ID2\t2024-01-02\t\tN\t\tBank\t\t2.00\t").unwrap(),
    ];
    records[1].id = String::new();
    let named = rcheckbook::import::with_identifiers(&records);
    assert_eq!(named.len(), 2);
    assert_eq!(named[0], records[0]);
    assert_eq!(named[1].id.chars().count(), 36);
    assert_eq!(named[1].transaction, records[1].transaction);
}
