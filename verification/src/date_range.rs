//! A span of days, both ends included.

use vstd::prelude::*;
use crate::date::{date_days_after, days_after, Date};

verus! {

/// The days from `from_date` to `to_date`.
#[derive(Clone, Copy, Debug)]
pub struct DateRange {
    pub from_date: Date,
    pub to_date: Date,
}

impl DateRange {
    /// The span from the day `f` to the day `t`.
    pub fn from(f: Date, t: Date) -> (r: Self)
        ensures
            r.from_date == f,
            r.to_date == t,
    {
        Self { from_date: f, to_date: t }
    }

    /// The day lies within the span, its first and last day included.
    pub open spec fn holds(self, date: Date) -> bool {
        self.from_date.not_after(date) && date.not_after(self.to_date)
    }

    /// Whether the day lies within the span.
    pub fn contains(&self, date: Date) -> (r: bool)
        ensures
            r == self.holds(date),
    {
        self.from_date.is_not_after(&date) && date.is_not_after(&self.to_date)
    }

    /// The day that `next` hands out, and the span it leaves: while the span
    /// is not used up and its first day has a following day, that first day,
    /// and the span from the following day on.
    pub open spec fn step(self) -> Option<(Date, DateRange)> {
        if self.from_date.not_after(self.to_date) {
            match date_days_after(self.from_date, 1) {
                Some(following) => Some(
                    (self.from_date, DateRange { from_date: following, to_date: self.to_date }),
                ),
                None => None,
            }
        } else {
            None
        }
    }

    /// Hands out the days of the span one by one, the earliest first.
    pub fn next(&mut self) -> (r: Option<Date>)
        ensures
            match old(self).step() {
                Some((day, rest)) => r == Some(day) && *final(self) == rest,
                None => r is None && *final(self) == *old(self),
            },
    {
        if self.from_date.is_not_after(&self.to_date) {
            match days_after(self.from_date, 1) {
                Some(following) => {
                    let day = self.from_date;
                    self.from_date = following;
                    Some(day)
                },
                None => None,
            }
        } else {
            None
        }
    }
}

} // verus!
