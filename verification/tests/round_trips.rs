use rcheckbook::database::{add_records_to_db, Ledger};
use rcheckbook::date::Date;
use rcheckbook::export::{
    add_record_to_ods_sheet, add_record_to_xlsx_sheet, records_to_tsv, Export, ExportDocument,
};
use rcheckbook::import::{records_from_tsv, Cell, Import, ImportSource};
use rcheckbook::records::{all_valid, have_distinct_ids, sort_records, Record, Records};
use rcheckbook::round_trip::{is_carried_by_tsv, survives_tsv};
use rcheckbook::transaction::{Transaction, TransactionType};

fn record(id: &str, day: u32, kind: TransactionType, amount: u64, vendor: &str) -> Record {
    Record {
        id: id.to_string(),
        transaction: Transaction {
            date: Date { year: 2024, month: 1, day },
            check_number: Some(day),
            category: Some("Food".to_string()),
            vendor: vendor.to_string(),
            memo: "m".to_string(),
            amount,
            transaction_type: kind,
            is_reconciled: day % 2 == 0,
        },
    }
}

fn ledger() -> Vec<Record> {
    vec![
        record("C", 20, TransactionType::Withdrawal, 0, "Shop"),
        record("A", 3, TransactionType::Deposit, 12345, "Bank"),
        record("B", 3, TransactionType::Withdrawal, 99, "Caf\u{e9}"),
    ]
}

#[test]
fn tsv_export_reads_back_as_the_ledger_by_date() {
    let mut store = Ledger::new();
    assert!(add_records_to_db(&mut store, &ledger()).is_empty());
    let export = Export { file_path: "r.db".to_string(), output_file: "out.tsv".to_string() };
    let text = match export.run(&store) {
        ExportDocument::Tsv(text) => text,
        other => panic!("not tsv: {:?}", other),
    };
    let read = records_from_tsv(&text);
    assert!(read.rejected.is_empty());
    assert_eq!(read.records, sort_records(store.records()));
    let ids: Vec<&str> = read.records.iter().map(|r| r.id.as_str()).collect();
    assert_eq!(ids, vec!["A", "B", "C"]);
}

#[test]
fn importing_an_export_leaves_the_store_as_it_is() {
    let mut store = Ledger::new();
    assert!(add_records_to_db(&mut store, &ledger()).is_empty());
    let before = store.records().clone();
    let categories = store.categories().clone();
    let text = records_to_tsv(&sort_records(store.records()));
    let import = Import { file_path: "r.db".to_string(), input_file: "in.tsv".to_string() };
    assert_eq!(import.run(&mut store, &ImportSource::Tsv(text)), Ok(vec![]));
    assert_eq!(store.records(), &before);
    assert_eq!(store.categories(), &categories);
}

#[test]
fn records_that_tsv_carries() {
    for r in ledger() {
        assert!(is_carried_by_tsv(&r));
        assert!(survives_tsv(&r));
        assert!(r.transaction.date.reads_back());
    }
}

#[test]
fn records_that_tsv_does_not_carry() {
    let good = record("A", 3, TransactionType::Deposit, 1, "Bank");
    let mut tab = good.clone();
    tab.transaction.vendor = "a\tb".to_string();
    assert!(!is_carried_by_tsv(&tab));
    let mut line = good.clone();
    line.transaction.memo = "a\nb".to_string();
    assert!(!is_carried_by_tsv(&line));
    let mut id = good.clone();
    id.id = "\t".to_string();
    assert!(!is_carried_by_tsv(&id));
    let mut zero_check = good.clone();
    zero_check.transaction.check_number = Some(0);
    assert!(!is_carried_by_tsv(&zero_check));
    let mut unnamed = good.clone();
    unnamed.transaction.category = Some(String::new());
    assert!(!is_carried_by_tsv(&unnamed));
    let mut nothing = good.clone();
    nothing.transaction.amount = 0;
    assert!(!is_carried_by_tsv(&nothing));
    assert!(!survives_tsv(&nothing));
    let mut too_much = good.clone();
    too_much.transaction.amount = u64::MAX;
    assert!(!is_carried_by_tsv(&too_much));
    let mut no_day = good.clone();
    no_day.transaction.date = Date { year: 2023, month: 2, day: 30 };
    assert!(is_carried_by_tsv(&no_day));
    assert!(!no_day.transaction.date.reads_back());
    assert!(!survives_tsv(&no_day));
    let mut plain = good.clone();
    plain.transaction.category = None;
    plain.transaction.check_number = None;
    assert!(survives_tsv(&plain));
}

#[test]
fn validity_of_a_run_of_records() {
    let records = ledger();
    assert!(all_valid(&records));
    assert!(have_distinct_ids(&records));
    assert!(Records::from(ledger()).is_valid());
    let mut twice = ledger();
    twice.push(record("a", 5, TransactionType::Deposit, 1, "x"));
    assert!(!have_distinct_ids(&twice));
    let mut huge = ledger();
    huge[1].transaction.amount = (i64::MAX as u64) + 1;
    assert!(!all_valid(&huge));
    assert!(!Records::from(huge).is_valid());
    assert!(all_valid(&Vec::new()));
    assert!(have_distinct_ids(&Vec::new()));
}

#[test]
fn rows_are_put_at_the_end_of_a_sheet() {
    let r = record("A", 3, TransactionType::Deposit, 12345, "Bank");
    let mut sheet: Vec<Vec<Cell>> = vec![vec![Cell::Empty]];
    add_record_to_ods_sheet(&r, 500, &mut sheet);
    add_record_to_xlsx_sheet(&r, -500, &mut sheet);
    assert_eq!(sheet.len(), 3);
    assert_eq!(sheet[0], vec![Cell::Empty]);
    assert_eq!(sheet[1][7], Cell::Text("123.45".to_string()));
    assert_eq!(sheet[1][9], Cell::Number(500));
    assert_eq!(sheet[2][7], Cell::Number(12345));
    assert_eq!(sheet[2][8], Cell::Empty);
    assert_eq!(sheet[2][9], Cell::Number(-500));
    assert_eq!(sheet[2][2], Cell::Text("3".to_string()));
    assert_eq!(sheet[2][3], Cell::Text("N".to_string()));
}

#[test]
fn native_export_read_into_an_empty_store_is_the_ledger_again() {
    let mut store = Ledger::new();
    assert!(add_records_to_db(&mut store, &ledger()).is_empty());
    let export = Export { file_path: "r.db".to_string(), output_file: "out.bcheck".to_string() };
    let handed_out = match export.run(&store) {
        ExportDocument::Native(records) => records,
        other => panic!("not native: {:?}", other),
    };
    let import = Import { file_path: "new.db".to_string(), input_file: "out.bcheck".to_string() };
    let mut fresh = Ledger::new();
    assert_eq!(import.run(&mut fresh, &ImportSource::Native(handed_out)), Ok(vec![]));
    assert_eq!(fresh.records(), &sort_records(store.records()));
    assert_eq!(fresh.records().len(), store.records().len());
    assert_eq!(fresh.categories(), store.categories());
}
