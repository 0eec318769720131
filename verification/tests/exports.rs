use rcheckbook::database::{add_record_to_db, Ledger};
use rcheckbook::date::Date;
use rcheckbook::export::{
    create_ods_book, create_xlsx_book, record_fields, record_line, record_row, record_to_qif,
    records_to_qif_transactions, records_to_tsv, store_to_qif, Export, ExportDocument,
};
use rcheckbook::import::{record_from_ods_row, record_from_tsv_line, record_from_xlsx_row, Cell, SheetKind};
use rcheckbook::qif::{QifStatus, QifType};
use rcheckbook::records::Record;
use rcheckbook::transaction::{Transaction, TransactionType};

fn sample(id: &str, date: (i32, u32, u32), kind: TransactionType, amount: u64, vendor: &str) -> Record {
    Record {
        id: id.to_string(),
        transaction: Transaction {
            date: Date { year: date.0, month: date.1, day: date.2 },
            check_number: Some(1260),
            category: Some("Utilities".to_string()),
            vendor: vendor.to_string(),
            memo: "January".to_string(),
            amount,
            transaction_type: kind,
            is_reconciled: true,
        },
    }
}

fn store_of(records: &Vec<Record>) -> Ledger {
    let mut store = Ledger::new();
    for r in records {
        assert!(add_record_to_db(&mut store, r).is_ok());
    }
    store
}

fn three() -> Vec<Record> {
    vec![
        sample("W1", (2024, 1, 5), TransactionType::Withdrawal, 3000, "Power Co"),
        sample("D1", (2024, 1, 1), TransactionType::Deposit, 10000, "Bank"),
        sample("D2", (2024, 1, 10), TransactionType::Deposit, 2000, ""),
    ]
}

#[test]
fn tsv_line_of_a_withdrawal() {
    let r = sample("W1", (2024, 1, 5), TransactionType::Withdrawal, 3000, "Power Co");
    assert_eq!(
        record_line(&r),
        "W1\t2024-01-05\t1260\tY\tUtilities\tPower Co\tJanuary\t\t30.00"
    );
    assert_eq!(record_fields(&r).len(), 9);
}

#[test]
fn tsv_line_of_a_deposit_without_check_or_category() {
    let mut r = sample("D1", (2024, 1, 1), TransactionType::Deposit, 10005, "Bank");
    r.transaction.check_number = None;
    r.transaction.category = None;
    r.transaction.is_reconciled = false;
    assert_eq!(record_line(&r), "D1\t2024-01-01\t\tN\t\tBank\tJanuary\t100.05\t");
}

#[test]
fn tsv_text_has_a_line_for_each_record() {
    let text = records_to_tsv(&three());
    let lines: Vec<&str> = text.split("\r\n").collect();
    assert_eq!(lines.len(), 4);
    assert_eq!(lines[3], "");
    assert!(lines[0].starts_with("W1\t"));
    assert!(lines[2].starts_with("D2\t"));
    assert_eq!(records_to_tsv(&Vec::new()), "");
}

#[test]
fn tsv_line_reads_back_as_the_record() {
    for r in three() {
        assert_eq!(record_from_tsv_line(&record_line(&r)), Ok(r));
    }
}

#[test]
fn qif_entry_of_a_record() {
    let r = sample("W1", (2024, 1, 5), TransactionType::Withdrawal, 3000, "Power Co");
    let q = record_to_qif(&r);
    assert_eq!(q.amount, -3000);
    assert_eq!(q.date, r.transaction.date);
    assert_eq!(q.check_number, Some(1260));
    assert_eq!(q.vendor, "Power Co");
    assert_eq!(q.address, "Power Co");
    assert_eq!(q.category, Some("Utilities".to_string()));
    assert_eq!(q.memo, "January");
    assert_eq!(q.status, Some(QifStatus::Reconciled));
}

#[test]
fn qif_entry_leaves_out_what_is_empty() {
    let mut r = sample("D1", (2024, 1, 1), TransactionType::Deposit, 10000, "Bank");
    r.transaction.check_number = Some(0);
    r.transaction.category = Some(String::new());
    r.transaction.is_reconciled = false;
    let q = record_to_qif(&r);
    assert_eq!(q.amount, 10000);
    assert_eq!(q.check_number, None);
    assert_eq!(q.category, None);
    assert_eq!(q.status, None);
}

#[test]
fn qif_keeps_a_record_without_vendor() {
    let r = sample("D2", (2024, 1, 10), TransactionType::Deposit, 2000, "");
    let q = record_to_qif(&r);
    assert_eq!(q.vendor, "");
    assert_eq!(q.amount, 2000);
    let entries = records_to_qif_transactions(&three());
    assert_eq!(entries.len(), 3);
    assert_eq!(entries[0].amount, -3000);
    assert_eq!(entries[1].amount, 10000);
    assert_eq!(entries[2].amount, 2000);
}

#[test]
fn qif_file_has_one_bank_section() {
    let qif = store_to_qif(&three());
    assert!(qif.cash.is_none() && qif.credit_card.is_none());
    assert!(qif.liability.is_none() && qif.asset.is_none());
    let bank = qif.bank.unwrap();
    assert_eq!(bank.qif_type, QifType::Bank);
    assert_eq!(bank.transactions.len(), 3);
}

fn text(s: &str) -> Cell {
    Cell::Text(s.to_string())
}

#[test]
fn sheet_row_of_a_record() {
    let r = sample("W1", (2024, 1, 5), TransactionType::Withdrawal, 3000, "Power Co");
    let ods = record_row(&r, 7000, SheetKind::Ods);
    assert_eq!(
        ods,
        vec![
            text("W1"),
            text("2024-01-05"),
            text("1260"),
            text("Y"),
            text("Utilities"),
            text("Power Co"),
            text("January"),
            Cell::Empty,
            text("30.00"),
            Cell::Number(7000),
        ]
    );
    let xlsx = record_row(&r, -7000, SheetKind::Xlsx);
    assert_eq!(xlsx[7], Cell::Empty);
    assert_eq!(xlsx[8], Cell::Number(3000));
    assert_eq!(xlsx[9], Cell::Number(-7000));
    let d = sample("D1", (2024, 1, 1), TransactionType::Deposit, 10000, "Bank");
    let row = record_row(&d, 10000, SheetKind::Xlsx);
    assert_eq!(row[7], Cell::Number(10000));
    assert_eq!(row[8], Cell::Empty);
}

#[test]
fn sheet_shows_the_ledger_by_date_with_balances() {
    let rows = create_xlsx_book(&three());
    assert_eq!(rows.len(), 4);
    assert_eq!(
        rows[0],
        vec![
            Cell::Empty,
            text("Date"),
            text("Check #"),
            text("Reconciled"),
            text("Category"),
            text("Vendor"),
            text("Memo"),
            text("Credit"),
            text("Withdrawal"),
            text("Balance"),
        ]
    );
    assert_eq!(rows[1][0], text("D1"));
    assert_eq!(rows[2][0], text("W1"));
    assert_eq!(rows[3][0], text("D2"));
    assert_eq!(rows[1][9], Cell::Number(10000));
    assert_eq!(rows[2][9], Cell::Number(7000));
    assert_eq!(rows[3][9], Cell::Number(9000));
    let ods = create_ods_book(&three());
    assert_eq!(ods[2][8], text("30.00"));
    assert_eq!(ods[2][9], Cell::Number(7000));
    assert_eq!(create_ods_book(&Vec::new()).len(), 1);
}

#[test]
fn sheet_rows_read_back_as_the_records() {
    let records = three();
    let xlsx = create_xlsx_book(&records);
    let ods = create_ods_book(&records);
    assert_eq!(record_from_xlsx_row(&xlsx[2]), Ok(records[0].clone()));
    assert_eq!(record_from_ods_row(&ods[1]), Ok(records[1].clone()));
    assert_eq!(record_from_ods_row(&ods[3]), Ok(records[2].clone()));
}

fn export_to(name: &str) -> Export {
    Export { file_path: "register.db".to_string(), output_file: name.to_string() }
}

#[test]
fn export_writes_the_format_of_the_file_name() {
    let store = store_of(&three());
    match export_to("out.bcheck").run(&store) {
        ExportDocument::Native(records) => {
            let ids: Vec<&str> = records.iter().map(|r| r.id.as_str()).collect();
            assert_eq!(ids, vec!["D1", "W1", "D2"]);
        }
        other => panic!("not native: {:?}", other),
    }
    match export_to("out.tsv").export(&store) {
        ExportDocument::Tsv(text) => {
            assert!(text.starts_with("D1\t2024-01-01\t"));
            assert_eq!(text.matches("\r\n").count(), 3);
        }
        other => panic!("not tsv: {:?}", other),
    }
    match export_to("out").run(&store) {
        ExportDocument::Tsv(_) => {}
        other => panic!("not tsv: {:?}", other),
    }
    match export_to("out.qif").run(&store) {
        ExportDocument::Qif(qif) => {
            let bank = qif.bank.unwrap();
            assert_eq!(bank.transactions.len(), 3);
            assert_eq!(bank.transactions[0].amount, 10000);
        }
        other => panic!("not qif: {:?}", other),
    }
    match export_to("out.ods").run(&store) {
        ExportDocument::Ods(rows) => assert_eq!(rows[1][7], text("100.00")),
        other => panic!("not ods: {:?}", other),
    }
    match export_to("out.xlsx").run(&store) {
        ExportDocument::Xlsx(rows) => assert_eq!(rows[1][7], Cell::Number(10000)),
        other => panic!("not xlsx: {:?}", other),
    }
}
