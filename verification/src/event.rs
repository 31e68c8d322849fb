//! A named calendar date range.  Events override the automatic date
//! bucketing when files are sieved into folders: a file whose capture date
//! falls inside an event is filed under the event's span and name.

use vstd::prelude::*;

use crate::dates::{spec_parse_date, ymd_chars, Date};

verus! {

/// An event: a name with an inclusive start and end date.
#[derive(Debug, PartialEq, Eq, Clone)]
pub struct Event {
    /// Event name.
    pub name: String,
    /// Event start date.
    pub start_date: Date,
    /// Event end date.
    pub end_date: Date,
}

/// Parse a date string; an unparsable one is reported as
/// `"Invalid date <input>"`.
pub fn parse_date(date: &str) -> (r: Result<Date, String>)
    ensures
        spec_parse_date(date@) matches Some(d) ==> r == Ok::<Date, String>(d),
        spec_parse_date(date@) is None ==> (r matches Err(m) && m@ == "Invalid date "@ + date@),
{
    match Date::parse(date) {
        Some(d) => Ok(d),
        None => {
            let mut msg: String = String::from_str("Invalid date ");
            msg.append(date);
            Err(msg)
        },
    }
}

impl Event {
    /// Both dates are valid calendar dates.
    pub open spec fn wf(self) -> bool {
        self.start_date.wf() && self.end_date.wf()
    }

    /// Create an event from date strings; both must be well formed dates.
    pub fn new(name: &str, start_date: &str, end_date: &str) -> (r: Event)
        requires
            spec_parse_date(start_date@) is Some,
            spec_parse_date(end_date@) is Some,
        ensures
            r.name@ == name@,
            Some(r.start_date) == spec_parse_date(start_date@),
            Some(r.end_date) == spec_parse_date(end_date@),
            r.wf(),
    {
        let s: Option<Date> = Date::parse(start_date);
        let e: Option<Date> = Date::parse(end_date);
        Event {
            name: String::from_str(name),
            start_date: s.unwrap(),
            end_date: e.unwrap(),
        }
    }

    /// Replace name and dates; when either date string is malformed the
    /// event is left unchanged and `false` is returned.
    pub fn update(&mut self, name: &str, start_date: &str, end_date: &str) -> (r: bool)
        ensures
            r == (spec_parse_date(start_date@) is Some && spec_parse_date(end_date@) is Some),
            r ==> final(self).name@ == name@ && Some(final(self).start_date) == spec_parse_date(
                start_date@,
            ) && Some(final(self).end_date) == spec_parse_date(end_date@),
            !r ==> *final(self) == *old(self),
            old(self).wf() ==> final(self).wf(),
    {
        let s: Option<Date> = Date::parse(start_date);
        let e: Option<Date> = Date::parse(end_date);
        match (s, e) {
            (Some(sd), Some(ed)) => {
                self.name = String::from_str(name);
                self.start_date = sd;
                self.end_date = ed;
                true
            },
            _ => false,
        }
    }

    /// Whether a date string is well formed.
    pub fn is_date_valid(date: &str) -> (r: bool)
        ensures
            r == (spec_parse_date(date@) is Some),
    {
        match Date::parse(date) {
            Some(_) => true,
            None => false,
        }
    }

    /// The start date as `year-month-day`.
    pub fn start_date_as_string(&self) -> (r: String)
        requires
            self.wf(),
        ensures
            r@ == ymd_chars(self.start_date),
    {
        self.start_date.to_ymd_string()
    }

    /// The end date as `year-month-day`.
    pub fn end_date_as_string(&self) -> (r: String)
        requires
            self.wf(),
        ensures
            r@ == ymd_chars(self.end_date),
    {
        self.end_date.to_ymd_string()
    }

    /// Whether a date lies inside the event's inclusive range.
    pub fn contains(&self, date: &Date) -> (r: bool)
        requires
            self.wf(),
            date.wf(),
        ensures
            r == (self.start_date.spec_day_number() <= date.spec_day_number()
                <= self.end_date.spec_day_number()),
    {
        let d: u32 = date.day_number();
        self.start_date.day_number() <= d && d <= self.end_date.day_number()
    }

    /// Order two events by start date.
    pub fn cmp(&self, other: &Event) -> (r: core::cmp::Ordering)
        requires
            self.wf(),
            other.wf(),
        ensures
            r == core::cmp::Ordering::Less <==> self.start_date.spec_day_number()
                < other.start_date.spec_day_number(),
            r == core::cmp::Ordering::Greater <==> self.start_date.spec_day_number()
                > other.start_date.spec_day_number(),
            r == core::cmp::Ordering::Equal <==> self.start_date.spec_day_number()
                == other.start_date.spec_day_number(),
    {
        let a: u32 = self.start_date.day_number();
        let b: u32 = other.start_date.day_number();
        if a < b {
            core::cmp::Ordering::Less
        } else if a > b {
            core::cmp::Ordering::Greater
        } else {
            core::cmp::Ordering::Equal
        }
    }
}

} // verus!
