//! Rendering of timestamps as folder-name fragments: full date, date and
//! time, year, year and month, year and quarter, or month alone.  A
//! timestamp outside the supported calendar range renders as `"???"`.

use vstd::prelude::*;

use crate::dates::{timestamp_in_range, timestamp_second_of_day, Date};
use crate::text::{dec2_chars, dec4_chars, digit_char, push_dec2, push_dec4};

verus! {

/// The shapes a timestamp can be rendered in.
#[derive(PartialEq, Eq, Structural, Clone, Copy, Debug)]
pub enum Format {
    /// `year-month-day`
    Date,
    /// `year-month-day hour:minute:second`
    DateTime,
    /// `year`
    Year,
    /// `year-month`
    YearAndMonth,
    /// `year-Q1` through `year-Q4`
    YearAndQuarter,
    /// `month`
    Month,
}

/// The quarter (1 through 4) a month (1 through 12) belongs to.
pub open spec fn quarter_of(month: int) -> int {
    (month - 1) / 3 + 1
}

/// The characters a date and a second-of-day render to in a format.
pub open spec fn format_chars(d: Date, sod: int, fmt: Format) -> Seq<char> {
    match fmt {
        Format::Date => crate::dates::ymd_chars(d),
        Format::DateTime => crate::dates::ymd_chars(d) + seq![' '] + dec2_chars(sod / 3600)
            + seq![':'] + dec2_chars((sod / 60) % 60) + seq![':'] + dec2_chars(sod % 60),
        Format::Year => dec4_chars(d.year as int),
        Format::YearAndMonth => dec4_chars(d.year as int) + seq!['-'] + dec2_chars(d.month as int),
        Format::YearAndQuarter => dec4_chars(d.year as int) + seq!['-', 'Q'] + seq![
            digit_char(quarter_of(d.month as int)),
        ],
        Format::Month => dec2_chars(d.month as int),
    }
}

/// What `timestamp_to_string` returns: the formatted date the timestamp
/// falls on, or `"???"` when it lies outside the supported years.
pub open spec fn timestamp_chars(ts: int, fmt: Format) -> Seq<char> {
    if timestamp_in_range(ts) {
        format_chars(spec_timestamp_date(ts), timestamp_second_of_day(ts), fmt)
    } else {
        seq!['?', '?', '?']
    }
}

/// The date a timestamp in range falls on.
pub open spec fn spec_timestamp_date(ts: int) -> Date {
    Date::spec_from_timestamp(ts)->Some_0
}

/// Render a timestamp in the given format.
pub fn timestamp_to_string(timestamp: i64, fmt: Format) -> (r: String)
    ensures
        r@ == timestamp_chars(timestamp as int, fmt),
{
    let date_opt: Option<Date> = Date::from_timestamp(timestamp);
    match date_opt {
        None => {
            let out: String = String::from_str("???");
            proof {
                reveal_strlit("???");
                assert(out@ =~= seq!['?', '?', '?']);
            }
            out
        },
        Some(d) => {
            let sod: u32 = second_of_day(timestamp);
            let mut out: String = String::new();
            match fmt {
                Format::Date => {
                    d.push_ymd(&mut out);
                },
                Format::DateTime => {
                    d.push_ymd(&mut out);
                    out.append(" ");
                    push_dec2(&mut out, sod / 3600);
                    out.append(":");
                    push_dec2(&mut out, (sod / 60) % 60);
                    out.append(":");
                    push_dec2(&mut out, sod % 60);
                    proof {
                        reveal_strlit(" ");
                        reveal_strlit(":");
                    }
                },
                Format::Year => {
                    push_dec4(&mut out, d.year as u32);
                },
                Format::YearAndMonth => {
                    push_dec4(&mut out, d.year as u32);
                    out.append("-");
                    push_dec2(&mut out, d.month as u32);
                    proof {
                        reveal_strlit("-");
                    }
                },
                Format::YearAndQuarter => {
                    push_dec4(&mut out, d.year as u32);
                    out.append("-Q");
                    push_dec2_quarter(&mut out, d.month as u32);
                    proof {
                        reveal_strlit("-Q");
                    }
                },
                Format::Month => {
                    push_dec2(&mut out, d.month as u32);
                },
            }
            proof {
                assert(out@ =~= timestamp_chars(timestamp as int, fmt));
            }
            out
        },
    }
}

/// Append the quarter digit for a month 1 through 12.
fn push_dec2_quarter(s: &mut String, month: u32)
    requires
        1 <= month <= 12,
    ensures
        final(s)@ == old(s)@ + seq![digit_char(quarter_of(month as int))],
{
    let q: u32 = (month - 1) / 3 + 1;
    if q == 1 {
        s.append("1");
    } else if q == 2 {
        s.append("2");
    } else if q == 3 {
        s.append("3");
    } else {
        s.append("4");
    }
    proof {
        reveal_strlit("1");
        reveal_strlit("2");
        reveal_strlit("3");
        reveal_strlit("4");
        assert(final(s)@ =~= old(s)@ + seq![digit_char(quarter_of(month as int))]);
    }
}

/// The second of its day a timestamp in range falls in.
fn second_of_day(ts: i64) -> (r: u32)
    requires
        timestamp_in_range(ts as int),
    ensures
        r as int == timestamp_second_of_day(ts as int),
        r < 86400,
{
    let shifted: u64 = (ts as i128 + crate::dates::EPOCH_OFFSET_SECONDS as i128) as u64;
    proof {
        assert(shifted as int == ts + 62167219200);
    }
    (shifted % 86400) as u32
}

} // verus!
