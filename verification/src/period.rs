//! The time windows over which a summary is drawn up.

use vstd::prelude::*;
use crate::date::{date_days_before, date_months_before, days_before, months_before, Date};

verus! {

/// The stretch of time that a summary covers, counted back from today.
#[derive(Clone, Copy, Debug, PartialEq, Eq, Structural)]
pub enum Period {
    All,
    Week,
    Month,
    Quarter,
    HalfYear,
    Year,
}

impl Period {
    /// The first day of the window that ends on `today`: seven days back for a
    /// week, one, three, six or twelve months back for the others. `None` for
    /// `All`, and where the calendar does not reach that far back.
    pub open spec fn first_day(self, today: Date) -> Option<Date> {
        match self {
            Period::All => None,
            Period::Week => date_days_before(today, 7),
            Period::Month => date_months_before(today, 1),
            Period::Quarter => date_months_before(today, 3),
            Period::HalfYear => date_months_before(today, 6),
            Period::Year => date_months_before(today, 12),
        }
    }

    /// The first day of the window that ends on `today`.
    pub fn start(&self, today: Date) -> (r: Option<Date>)
        ensures
            r == self.first_day(today),
    {
        match self {
            Period::All => None,
            Period::Week => days_before(today, 7),
            Period::Month => months_before(today, 1),
            Period::Quarter => months_before(today, 3),
            Period::HalfYear => months_before(today, 6),
            Period::Year => months_before(today, 12),
        }
    }

    /// A day counts for the period as seen from `today`. Every day counts for
    /// `All`; else the days from the first day of the window up to `today`.
    pub open spec fn covers(self, today: Date, date: Date) -> bool {
        match self {
            Period::All => true,
            _ => date.not_after(today) && match self.first_day(today) {
                Some(first) => first.not_after(date),
                None => true,
            },
        }
    }

    /// Whether a day counts for the period as seen from `today`.
    pub fn includes(&self, today: Date, date: Date) -> (r: bool)
        ensures
            r == self.covers(today, date),
    {
        match self {
            Period::All => true,
            _ => date.is_not_after(&today) && match self.start(today) {
                Some(first) => first.is_not_after(&date),
                None => true,
            },
        }
    }
}

} // verus!
