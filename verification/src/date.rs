//! Calendar dates. A date is held as year, month and day; reading and writing
//! its text and moving it by days or months is the work of `chrono`.

use vstd::prelude::*;
use vstd::string::*;
use crate::errors::ImportError;

verus! {

/// A day of the calendar.
#[derive(Clone, Copy, Debug, PartialEq, Eq, Hash, Structural)]
pub struct Date {
    pub year: i32,
    pub month: u32,
    pub day: u32,
}

impl Date {
    /// `self` is an earlier day than `other`.
    pub open spec fn before(self, other: Date) -> bool {
        self.year < other.year || (self.year == other.year && (self.month < other.month || (
        self.month == other.month && self.day < other.day)))
    }

    /// `self` is the same day as `other` or an earlier one.
    pub open spec fn not_after(self, other: Date) -> bool {
        !other.before(self)
    }

    /// Whether the date is an earlier day than `other`.
    pub fn is_before(&self, other: &Date) -> (r: bool)
        ensures
            r == self.before(*other),
    {
        self.year < other.year || (self.year == other.year && (self.month < other.month || (
        self.month == other.month && self.day < other.day)))
    }

    /// Whether the date is the same day as `other` or an earlier one.
    pub fn is_not_after(&self, other: &Date) -> (r: bool)
        ensures
            r == self.not_after(*other),
    {
        !other.is_before(self)
    }

    /// What reading a text yields: the date, or that the text is no date.
    pub open spec fn reading(parsed: Option<Date>) -> Result<Date, ImportError> {
        match parsed {
            Some(date) => Ok(date),
            None => Err(ImportError::InvalidDateFormat),
        }
    }

    /// The outcome of reading a text as a date.
    pub fn from_reading(parsed: Option<Date>) -> (r: Result<Date, ImportError>)
        ensures
            r == Date::reading(parsed),
    {
        match parsed {
            Some(date) => Ok(date),
            None => Err(ImportError::InvalidDateFormat),
        }
    }

    /// Reads a date written as year, month and day, such as `2024-01-31`.
    pub fn parse(text: &str) -> (r: Result<Date, ImportError>)
        ensures
            r == Date::reading(date_of_text(text@)),
    {
        Date::from_reading(read_date(text))
    }

    /// The text of the date as year, month and day; empty for a day that the
    /// calendar does not have.
    pub open spec fn text(self) -> Seq<char> {
        match text_of_date(self) {
            Some(t) => t,
            None => Seq::empty(),
        }
    }

    /// Writes the date as year, month and day, such as `2024-01-31`.
    pub fn to_text(&self) -> (r: String)
        ensures
            r@ == self.text(),
    {
        match write_date(*self) {
            Some(t) => t,
            None => String::new(),
        }
    }
}

/// The date that `chrono` reads from a text with the pattern `%Y-%m-%d`.
pub uninterp spec fn date_of_text(text: Seq<char>) -> Option<Date>;

/// The text that `chrono` writes for a date with the pattern `%Y-%m-%d`;
/// `None` where `chrono` has no such date.
pub uninterp spec fn text_of_date(date: Date) -> Option<Seq<char>>;

/// The date `months` months before `date`, as `chrono` computes it.
pub uninterp spec fn date_months_before(date: Date, months: u32) -> Option<Date>;

/// The date `days` days before `date`, as `chrono` computes it.
pub uninterp spec fn date_days_before(date: Date, days: u64) -> Option<Date>;

/// The date `days` days after `date`, as `chrono` computes it.
pub uninterp spec fn date_days_after(date: Date, days: u64) -> Option<Date>;

/// Calls `chrono::NaiveDate::parse_from_str` with the pattern `%Y-%m-%d` and
/// hands back the year, month and day of what it read, `None` where it
/// reports an error. The contract names the result and claims nothing more.
#[verifier::external_body]
pub(crate) fn read_date(text: &str) -> (r: Option<Date>)
    ensures
        r == date_of_text(text@),
{
    match chrono::NaiveDate::parse_from_str(text, "%Y-%m-%d") {
        Ok(d) => Some(
            Date {
                year: chrono::Datelike::year(&d),
                month: chrono::Datelike::month(&d),
                day: chrono::Datelike::day(&d),
            },
        ),
        Err(_) => None,
    }
}

/// Calls `chrono::NaiveDate::format` with the pattern `%Y-%m-%d` on the date
/// that `NaiveDate::from_ymd_opt` makes of year, month and day; `None` where
/// `from_ymd_opt` makes none. The contract names the result and claims
/// nothing more.
#[verifier::external_body]
pub(crate) fn write_date(date: Date) -> (r: Option<String>)
    ensures
        r is Some == text_of_date(date) is Some,
        r matches Some(t) ==> text_of_date(date) == Some(t@),
{
    match chrono::NaiveDate::from_ymd_opt(date.year, date.month, date.day) {
        Some(d) => Some(d.format("%Y-%m-%d").to_string()),
        None => None,
    }
}

/// Calls `chrono::NaiveDate::checked_sub_months`; `None` where the date does
/// not exist or the result is out of `chrono`'s range. The contract names the
/// result and claims nothing more.
#[verifier::external_body]
pub(crate) fn months_before(date: Date, months: u32) -> (r: Option<Date>)
    ensures
        r == date_months_before(date, months),
{
    match chrono::NaiveDate::from_ymd_opt(date.year, date.month, date.day) {
        Some(d) => match d.checked_sub_months(chrono::Months::new(months)) {
            Some(e) => Some(
                Date {
                    year: chrono::Datelike::year(&e),
                    month: chrono::Datelike::month(&e),
                    day: chrono::Datelike::day(&e),
                },
            ),
            None => None,
        },
        None => None,
    }
}

/// Calls `chrono::NaiveDate::checked_sub_days`; `None` where the date does
/// not exist or the result is out of `chrono`'s range. The contract names the
/// result and claims nothing more.
#[verifier::external_body]
pub(crate) fn days_before(date: Date, days: u64) -> (r: Option<Date>)
    ensures
        r == date_days_before(date, days),
{
    match chrono::NaiveDate::from_ymd_opt(date.year, date.month, date.day) {
        Some(d) => match d.checked_sub_days(chrono::Days::new(days)) {
            Some(e) => Some(
                Date {
                    year: chrono::Datelike::year(&e),
                    month: chrono::Datelike::month(&e),
                    day: chrono::Datelike::day(&e),
                },
            ),
            None => None,
        },
        None => None,
    }
}

/// Calls `chrono::NaiveDate::checked_add_days`; `None` where the date does
/// not exist or the result is out of `chrono`'s range. The contract names the
/// result and claims nothing more.
#[verifier::external_body]
pub(crate) fn days_after(date: Date, days: u64) -> (r: Option<Date>)
    ensures
        r == date_days_after(date, days),
{
    match chrono::NaiveDate::from_ymd_opt(date.year, date.month, date.day) {
        Some(d) => match d.checked_add_days(chrono::Days::new(days)) {
            Some(e) => Some(
                Date {
                    year: chrono::Datelike::year(&e),
                    month: chrono::Datelike::month(&e),
                    day: chrono::Datelike::day(&e),
                },
            ),
            None => None,
        },
        None => None,
    }
}

} // verus!
