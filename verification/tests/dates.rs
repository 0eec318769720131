use rcheckbook::date::Date;
use rcheckbook::date_range::DateRange;
use rcheckbook::errors::ImportError;
use rcheckbook::period::Period;

fn day(year: i32, month: u32, day: u32) -> Date {
    Date { year, month, day }
}

#[test]
fn parse_reads_year_month_day() {
    assert_eq!(Date::parse("2024-01-31"), Ok(day(2024, 1, 31)));
    assert_eq!(Date::parse("2021-7-8"), Ok(day(2021, 7, 8)));
    assert_eq!(Date::parse("2024-02-29"), Ok(day(2024, 2, 29)));
}

#[test]
fn parse_rejects_what_is_no_date() {
    assert_eq!(Date::parse("2023-02-29"), Err(ImportError::InvalidDateFormat));
    assert_eq!(Date::parse("01/31/2024"), Err(ImportError::InvalidDateFormat));
    assert_eq!(Date::parse(""), Err(ImportError::InvalidDateFormat));
    assert_eq!(Date::parse("2024-13-01"), Err(ImportError::InvalidDateFormat));
    assert_eq!(Date::parse("yesterday"), Err(ImportError::InvalidDateFormat));
}

#[test]
fn from_reading_maps_none_to_invalid_date() {
    assert_eq!(Date::from_reading(None), Err(ImportError::InvalidDateFormat));
    assert_eq!(Date::from_reading(Some(day(2020, 2, 2))), Ok(day(2020, 2, 2)));
}

#[test]
fn to_text_writes_year_month_day() {
    assert_eq!(day(2024, 1, 5).to_text(), "2024-01-05");
    assert_eq!(day(987, 12, 31).to_text(), "0987-12-31");
    assert_eq!(day(2023, 2, 29).to_text(), "");
    assert_eq!(day(2024, 0, 1).to_text(), "");
}

#[test]
fn text_reads_back_as_the_same_date() {
    let d = day(1999, 12, 31);
    assert_eq!(Date::parse(&d.to_text()), Ok(d));
}

#[test]
fn date_order_is_by_year_then_month_then_day() {
    assert!(day(2023, 12, 31).is_before(&day(2024, 1, 1)));
    assert!(day(2024, 1, 31).is_before(&day(2024, 2, 1)));
    assert!(day(2024, 2, 1).is_before(&day(2024, 2, 2)));
    assert!(!day(2024, 2, 2).is_before(&day(2024, 2, 2)));
    assert!(day(2024, 2, 2).is_not_after(&day(2024, 2, 2)));
    assert!(!day(2024, 2, 3).is_not_after(&day(2024, 2, 2)));
}

#[test]
fn range_contains_both_ends() {
    let range = DateRange::from(day(2024, 1, 10), day(2024, 1, 20));
    assert!(range.contains(day(2024, 1, 10)));
    assert!(range.contains(day(2024, 1, 15)));
    assert!(range.contains(day(2024, 1, 20)));
    assert!(!range.contains(day(2024, 1, 9)));
    assert!(!range.contains(day(2024, 1, 21)));
}

#[test]
fn range_hands_out_its_days_in_order() {
    let mut range = DateRange::from(day(2024, 2, 28), day(2024, 3, 1));
    assert_eq!(range.next(), Some(day(2024, 2, 28)));
    assert_eq!(range.next(), Some(day(2024, 2, 29)));
    assert_eq!(range.next(), Some(day(2024, 3, 1)));
    assert_eq!(range.next(), None);
    assert_eq!(range.next(), None);
}

#[test]
fn empty_range_hands_out_nothing() {
    let mut range = DateRange::from(day(2024, 3, 2), day(2024, 3, 1));
    assert_eq!(range.next(), None);
    assert!(!range.contains(day(2024, 3, 1)));
}

#[test]
fn period_starts() {
    let today = day(2024, 3, 31);
    assert_eq!(Period::All.start(today), None);
    assert_eq!(Period::Week.start(today), Some(day(2024, 3, 24)));
    assert_eq!(Period::Month.start(today), Some(day(2024, 2, 29)));
    assert_eq!(Period::Quarter.start(today), Some(day(2023, 12, 31)));
    assert_eq!(Period::HalfYear.start(today), Some(day(2023, 9, 30)));
    assert_eq!(Period::Year.start(today), Some(day(2023, 3, 31)));
}

#[test]
fn week_start_crosses_the_month() {
    assert_eq!(Period::Week.start(day(2024, 3, 3)), Some(day(2024, 2, 25)));
    assert_eq!(Period::Week.start(day(2024, 1, 1)), Some(day(2023, 12, 25)));
}

#[test]
fn period_includes_the_window_and_nothing_later() {
    let today = day(2024, 3, 31);
    assert!(Period::Week.includes(today, day(2024, 3, 24)));
    assert!(Period::Week.includes(today, today));
    assert!(!Period::Week.includes(today, day(2024, 3, 23)));
    assert!(!Period::Week.includes(today, day(2024, 4, 1)));
    assert!(Period::Year.includes(today, day(2023, 3, 31)));
    assert!(!Period::Year.includes(today, day(2023, 3, 30)));
    assert!(Period::All.includes(today, day(1900, 1, 1)));
    assert!(Period::All.includes(today, day(2999, 1, 1)));
}
