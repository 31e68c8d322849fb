//! Calendar dates in the proleptic Gregorian calendar, together with the
//! conversion between day numbers (days since 0000-01-01) and timestamps
//! (seconds since the Unix epoch).  The supported range is the years 0
//! through 9999, which covers every timestamp a photo collection can
//! realistically carry.

use vstd::prelude::*;

use crate::text::{
    all_digits, dec2_chars, dec4_chars, dec_value, is_digit, lemma_dec_value_bound, lemma_pow10_le,
    pow10, push_dec2, push_dec4,
};

verus! {

/// A calendar date.  `wf()` states the calendar validity invariant.
#[derive(Clone, Copy, PartialEq, Eq, Structural, Debug)]
pub struct Date {
    pub year: u16,
    pub month: u8,
    pub day: u8,
}

pub open spec fn is_leap_year(y: int) -> bool {
    y % 4 == 0 && (y % 100 != 0 || y % 400 == 0)
}

pub open spec fn days_in_month(y: int, m: int) -> int {
    if m == 2 {
        if is_leap_year(y) {
            29
        } else {
            28
        }
    } else if m == 4 || m == 6 || m == 9 || m == 11 {
        30
    } else {
        31
    }
}

pub open spec fn valid_date(y: int, m: int, d: int) -> bool {
    &&& 0 <= y <= 9999
    &&& 1 <= m <= 12
    &&& 1 <= d <= days_in_month(y, m)
}

pub open spec fn days_in_year(y: int) -> int {
    if is_leap_year(y) {
        366
    } else {
        365
    }
}

/// Days from 0000-01-01 to the first day of year `y`.
pub open spec fn days_before_year(y: int) -> int
    decreases y,
{
    if y <= 0 {
        0
    } else {
        days_before_year(y - 1) + days_in_year(y - 1)
    }
}

/// Days from the first day of year `y` to the first day of its month `m`.
pub open spec fn days_before_month(y: int, m: int) -> int
    decreases m,
{
    if m <= 1 {
        0
    } else {
        days_before_month(y, m - 1) + days_in_month(y, m - 1)
    }
}

/// The day number of a date: 0000-01-01 is day 0.
pub open spec fn day_number(y: int, m: int, d: int) -> int {
    days_before_year(y) + days_before_month(y, m) + (d - 1)
}

impl Date {
    pub open spec fn wf(self) -> bool {
        valid_date(self.year as int, self.month as int, self.day as int)
    }

    pub open spec fn spec_day_number(self) -> int {
        day_number(self.year as int, self.month as int, self.day as int)
    }
}

proof fn lemma_days_before_year_bound(y: int)
    requires
        0 <= y,
    ensures
        365 * y <= days_before_year(y) <= 366 * y,
    decreases y,
{
    if y > 0 {
        lemma_days_before_year_bound(y - 1);
    }
}

proof fn lemma_days_before_month_bound(y: int, m: int)
    requires
        1 <= m <= 13,
    ensures
        28 * (m - 1) <= days_before_month(y, m) <= 31 * (m - 1),
    decreases m,
{
    if m > 1 {
        lemma_days_before_month_bound(y, m - 1);
    }
}

fn leap_year(y: u16) -> (r: bool)
    ensures
        r == is_leap_year(y as int),
{
    y % 4 == 0 && (y % 100 != 0 || y % 400 == 0)
}

fn month_days(y: u16, m: u8) -> (r: u8)
    ensures
        r as int == days_in_month(y as int, m as int),
{
    if m == 2 {
        if leap_year(y) {
            29
        } else {
            28
        }
    } else if m == 4 || m == 6 || m == 9 || m == 11 {
        30
    } else {
        31
    }
}

fn year_days(y: u16) -> (r: u16)
    ensures
        r as int == days_in_year(y as int),
{
    if leap_year(y) {
        366
    } else {
        365
    }
}

impl Date {
    /// The day number of this date, with 0000-01-01 as day 0.
    pub fn day_number(self) -> (n: u32)
        requires
            self.wf(),
        ensures
            n as int == self.spec_day_number(),
    {
        let mut acc: u32 = 0;
        let mut y: u16 = 0;
        while y < self.year
            invariant
                0 <= y <= self.year,
                self.wf(),
                acc as int == days_before_year(y as int),
                acc <= 366 * (y as u32),
            decreases self.year - y,
        {
            proof {
                lemma_days_before_year_bound(y as int + 1);
            }
            acc = acc + year_days(y) as u32;
            y = y + 1;
        }
        let mut m: u8 = 1;
        while m < self.month
            invariant
                1 <= m <= self.month,
                self.wf(),
                acc as int == days_before_year(self.year as int) + days_before_month(
                    self.year as int,
                    m as int,
                ),
                acc as int <= 366 * 9999 + 31 * 12,
            decreases self.month - m,
        {
            proof {
                lemma_days_before_year_bound(self.year as int);
                lemma_days_before_month_bound(self.year as int, m as int + 1);
            }
            acc = acc + month_days(self.year, m) as u32;
            m = m + 1;
        }
        proof {
            lemma_days_before_year_bound(self.year as int);
            lemma_days_before_month_bound(self.year as int, self.month as int);
        }
        acc + (self.day - 1) as u32
    }

    /// The date with the given day number, for day numbers up to the end of
    /// the year 9999.
    pub fn from_day_number(n: u32) -> (r: Date)
        requires
            n < day_number(10000, 1, 1),
        ensures
            r.wf(),
            r.spec_day_number() == n as int,
    {
        let mut y: u16 = 0;
        let mut rem: u32 = n;
        loop
            invariant
                0 <= y <= 9999,
                rem as int == n - days_before_year(y as int),
                n < day_number(10000, 1, 1),
            ensures
                0 <= y <= 9999,
                rem as int == n - days_before_year(y as int),
                rem < days_in_year(y as int),
            decreases 10000 - y,
        {
            let yd: u16 = year_days(y);
            if rem < yd as u32 {
                break ;
            }
            proof {
                if y as int + 1 >= 10000 {
                    assert(days_before_year(10000) == days_before_year(9999) + days_in_year(9999));
                    assert(false);
                }
            }
            rem = rem - yd as u32;
            y = y + 1;
        }
        let mut m: u8 = 1;
        loop
            invariant
                1 <= m <= 12,
                rem as int == n - days_before_year(y as int) - days_before_month(y as int, m as int),
                0 <= y <= 9999,
                n as int - days_before_year(y as int) < days_in_year(y as int),
            ensures
                1 <= m <= 12,
                rem as int == n - days_before_year(y as int) - days_before_month(y as int, m as int),
                rem < days_in_month(y as int, m as int),
            decreases 12 - m,
        {
            let md: u8 = month_days(y, m);
            if rem < md as u32 {
                break ;
            }
            proof {
                if m as int + 1 > 12 {
                    lemma_month_sum_is_year(y as int);
                    assert(false);
                }
            }
            rem = rem - md as u32;
            m = m + 1;
        }
        Date { year: y, month: m, day: (rem + 1) as u8 }
    }
}

/// Seconds from 0000-01-01T00:00:00 to the Unix epoch 1970-01-01T00:00:00.
pub const EPOCH_OFFSET_SECONDS: i64 = 62167219200;

/// Seconds in one day.
pub const DAY_SECONDS: i64 = 86400;

/// The smallest timestamp that falls on a supported date (0000-01-01).
pub open spec fn min_timestamp() -> int {
    -62167219200
}

/// One past the largest supported timestamp (the first second of year 10000).
pub open spec fn end_timestamp() -> int {
    day_number(10000, 1, 1) * 86400 - 62167219200
}

/// Whether a timestamp falls on a date of the supported years 0 through 9999.
pub open spec fn timestamp_in_range(ts: int) -> bool {
    min_timestamp() <= ts < end_timestamp()
}

/// The day number a timestamp falls on.
pub open spec fn timestamp_day(ts: int) -> int {
    (ts + 62167219200) / 86400
}

/// The second of the day a timestamp falls in.
pub open spec fn timestamp_second_of_day(ts: int) -> int {
    (ts + 62167219200) % 86400
}

/// The number of days of the supported calendar range, as an executable value.
fn supported_day_count() -> (n: u32)
    ensures
        n as int == day_number(10000, 1, 1),
{
    let last: Date = Date { year: 9999, month: 12, day: 31 };
    let n: u32 = last.day_number();
    proof {
        assert(days_before_year(10000) == days_before_year(9999) + days_in_year(9999));
        lemma_month_sum_is_year(9999);
        assert(days_before_month(9999, 13) == days_before_month(9999, 12) + days_in_month(
            9999,
            12,
        ));
        lemma_days_before_year_bound(9999);
        lemma_days_before_month_bound(9999, 12);
    }
    n + 1
}

impl Date {
    /// The calendar date a timestamp falls on, when the timestamp lies in
    /// the supported years 0 through 9999.
    pub open spec fn spec_from_timestamp(ts: int) -> Option<Date> {
        if timestamp_in_range(ts) {
            Some(choose|d: Date| d.wf() && d.spec_day_number() == timestamp_day(ts))
        } else {
            None
        }
    }

    /// The calendar date a timestamp falls on, or `None` when the timestamp
    /// lies outside the supported years 0 through 9999.
    pub fn from_timestamp(ts: i64) -> (r: Option<Date>)
        ensures
            r is Some <==> timestamp_in_range(ts as int),
            r matches Some(d) ==> d.wf() && d.spec_day_number() == timestamp_day(ts as int),
            r == Date::spec_from_timestamp(ts as int),
    {
        if ts < -EPOCH_OFFSET_SECONDS {
            return None;
        }
        let shifted: u64 = (ts as i128 + EPOCH_OFFSET_SECONDS as i128) as u64;
        let days: u64 = shifted / 86400;
        let limit: u32 = supported_day_count();
        if days >= limit as u64 {
            proof {
                assert(!timestamp_in_range(ts as int)) by {
                    assert(shifted as int == ts + 62167219200);
                    assert(days as int == timestamp_day(ts as int));
                };
            }
            return None;
        }
        proof {
            assert(shifted as int == ts + 62167219200);
            assert(days as int == timestamp_day(ts as int));
            let d: int = days as int;
            let s: int = shifted as int;
            assert(d * 86400 <= s && s < d * 86400 + 86400) by (nonlinear_arith)
                requires
                    d == s / 86400,
                    s >= 0,
            ;
        }
        let d: Date = Date::from_day_number(days as u32);
        proof {
            assert(d.wf() && d.spec_day_number() == timestamp_day(ts as int));
            let c: Date = choose|x: Date|
                x.wf() && x.spec_day_number() == timestamp_day(ts as int);
            lemma_day_number_distinct(d, c);
        }
        Some(d)
    }
}

/// The months of a year add up to the year's length.
proof fn lemma_month_sum_is_year(y: int)
    ensures
        days_before_month(y, 13) == days_in_year(y),
{
    reveal_with_fuel(days_before_month, 14);
    assert(days_before_month(y, 13) == days_in_year(y));
}

proof fn lemma_dby_monotone(y1: int, y2: int)
    requires
        y1 <= y2,
    ensures
        days_before_year(y1) <= days_before_year(y2),
    decreases y2 - y1,
{
    if y1 < y2 {
        lemma_dby_monotone(y1, y2 - 1);
    }
}

proof fn lemma_dbm_monotone(y: int, m1: int, m2: int)
    requires
        m1 <= m2,
    ensures
        days_before_month(y, m1) <= days_before_month(y, m2),
    decreases m2 - m1,
{
    if m1 < m2 {
        lemma_dbm_monotone(y, m1, m2 - 1);
    }
}

/// A valid date's day number lies within its year's days.
proof fn lemma_day_number_in_year(y: int, m: int, d: int)
    requires
        valid_date(y, m, d),
    ensures
        days_before_year(y) <= day_number(y, m, d) < days_before_year(y + 1),
{
    lemma_dbm_monotone(y, 1, m);
    lemma_dbm_monotone(y, m + 1, 13);
    lemma_month_sum_is_year(y);
    assert(days_before_month(y, m + 1) == days_before_month(y, m) + days_in_month(y, m));
    assert(days_before_year(y + 1) == days_before_year(y) + days_in_year(y));
}

/// Two well-formed dates with the same day number are equal.
pub proof fn lemma_day_number_distinct(a: Date, b: Date)
    requires
        a.wf(),
        b.wf(),
        a.spec_day_number() == b.spec_day_number(),
    ensures
        a == b,
{
    let ay: int = a.year as int;
    let by: int = b.year as int;
    lemma_day_number_in_year(ay, a.month as int, a.day as int);
    lemma_day_number_in_year(by, b.month as int, b.day as int);
    if ay < by {
        lemma_dby_monotone(ay + 1, by);
        assert(false);
    }
    if by < ay {
        lemma_dby_monotone(by + 1, ay);
        assert(false);
    }
    let am: int = a.month as int;
    let bm: int = b.month as int;
    if am < bm {
        lemma_dbm_monotone(ay, am + 1, bm);
        assert(days_before_month(ay, am + 1) == days_before_month(ay, am) + days_in_month(ay, am));
        assert(false);
    }
    if bm < am {
        lemma_dbm_monotone(ay, bm + 1, am);
        assert(days_before_month(ay, bm + 1) == days_before_month(ay, bm) + days_in_month(ay, bm));
        assert(false);
    }
}

/// The number of decimal digit characters a sequence starts with.
pub open spec fn leading_digits(s: Seq<char>) -> int
    decreases s.len(),
{
    if s.len() == 0 || !is_digit(s[0]) {
        0
    } else {
        1 + leading_digits(s.drop_first())
    }
}

proof fn lemma_leading_digits_facts(s: Seq<char>)
    ensures
        0 <= leading_digits(s) <= s.len(),
        forall|i: int| 0 <= i < leading_digits(s) ==> is_digit(#[trigger] s[i]),
        leading_digits(s) < s.len() ==> !is_digit(s[leading_digits(s)]),
    decreases s.len(),
{
    if s.len() > 0 && is_digit(s[0]) {
        lemma_leading_digits_facts(s.drop_first());
        assert forall|i: int| 0 <= i < leading_digits(s) implies is_digit(#[trigger] s[i]) by {
            if i > 0 {
                assert(s[i] == s.drop_first()[i - 1]);
            }
        }
        if leading_digits(s) < s.len() {
            assert(s[leading_digits(s)] == s.drop_first()[leading_digits(s) - 1]);
        }
    }
}

/// Split a sequence into three groups of decimal digits joined by `sep`,
/// greedily and with the given maximum group widths; the groups' values are
/// returned.  `None` when the sequence does not have that shape.
pub open spec fn split_groups(s: Seq<char>, sep: char, max1: int, max2: int, max3: int) -> Option<
    (int, int, int),
> {
    let a = leading_digits(s);
    if a < 1 || a > max1 || a >= s.len() || s[a] != sep {
        None
    } else {
        let t = s.subrange(a + 1, s.len() as int);
        let b = leading_digits(t);
        if b < 1 || b > max2 || b >= t.len() || t[b] != sep {
            None
        } else {
            let u = t.subrange(b + 1, t.len() as int);
            let c = leading_digits(u);
            if c < 1 || c > max3 || c != u.len() {
                None
            } else {
                Some((dec_value(s.subrange(0, a)), dec_value(t.subrange(0, b)), dec_value(u)))
            }
        }
    }
}

/// The date grammar: either `year-month-day` (the year up to four digits,
/// month and day up to two, not padded) or `day.month.year`, where the
/// groups must form a valid calendar date.
pub open spec fn spec_parse_date(s: Seq<char>) -> Option<Date> {
    match split_groups(s, '-', 4, 2, 2) {
        Some((y, m, d)) => if valid_date(y, m, d) {
            Some(Date { year: y as u16, month: m as u8, day: d as u8 })
        } else {
            None
        },
        None => match split_groups(s, '.', 2, 2, 4) {
            Some((d, m, y)) => if valid_date(y, m, d) {
                Some(Date { year: y as u16, month: m as u8, day: d as u8 })
            } else {
                None
            },
            None => None,
        },
    }
}

/// `year-month-day`, zero padded to four and two digits.
pub open spec fn ymd_chars(d: Date) -> Seq<char> {
    dec4_chars(d.year as int) + seq!['-'] + dec2_chars(d.month as int) + seq!['-'] + dec2_chars(
        d.day as int,
    )
}

/// `month-day`, zero padded to two digits each.
pub open spec fn md_chars(d: Date) -> Seq<char> {
    dec2_chars(d.month as int) + seq!['-'] + dec2_chars(d.day as int)
}

fn push_dash(s: &mut String)
    ensures
        final(s)@ == old(s)@ + seq!['-'],
{
    s.append("-");
    proof {
        reveal_strlit("-");
        assert(final(s)@ =~= old(s)@ + seq!['-']);
    }
}

impl Date {
    /// Append this date as `year-month-day`.
    pub fn push_ymd(self, out: &mut String)
        requires
            self.wf(),
        ensures
            final(out)@ == old(out)@ + ymd_chars(self),
    {
        push_dec4(out, self.year as u32);
        push_dash(out);
        push_dec2(out, self.month as u32);
        push_dash(out);
        push_dec2(out, self.day as u32);
        proof {
            assert(final(out)@ =~= old(out)@ + ymd_chars(self));
        }
    }

    /// Append this date as `month-day`.
    pub fn push_md(self, out: &mut String)
        requires
            self.wf(),
        ensures
            final(out)@ == old(out)@ + md_chars(self),
    {
        push_dec2(out, self.month as u32);
        push_dash(out);
        push_dec2(out, self.day as u32);
        proof {
            assert(final(out)@ =~= old(out)@ + md_chars(self));
        }
    }

    /// This date as a `year-month-day` string.
    pub fn to_ymd_string(self) -> (r: String)
        requires
            self.wf(),
        ensures
            r@ == ymd_chars(self),
    {
        let mut out: String = String::new();
        self.push_ymd(&mut out);
        proof {
            assert(out@ =~= ymd_chars(self));
        }
        out
    }
}

fn is_digit_exec(c: char) -> (r: bool)
    ensures
        r == is_digit(c),
{
    '0' <= c && c <= '9'
}

/// Count the digit characters at position `start`.
fn digit_run(s: &str, start: usize) -> (n: usize)
    requires
        start <= s@.len(),
    ensures
        n == leading_digits(s@.skip(start as int)),
        start + n <= s@.len(),
{
    let len: usize = s.unicode_len();
    let mut i: usize = start;
    while i < len && is_digit_exec(s.get_char(i))
        invariant
            start <= i <= len,
            len == s@.len(),
            leading_digits(s@.skip(start as int)) == (i - start) + leading_digits(
                s@.skip(i as int),
            ),
            forall|j: int| start <= j < i ==> is_digit(#[trigger] s@[j]),
        decreases len - i,
    {
        proof {
            assert(s@.skip(i as int)[0] == s@[i as int]);
            assert(s@.skip(i as int).drop_first() =~= s@.skip(i as int + 1));
        }
        i = i + 1;
    }
    proof {
        if i < len {
            assert(s@.skip(i as int)[0] == s@[i as int]);
        }
    }
    i - start
}

/// The value of the `count` digits at position `start`.
fn digit_run_value(s: &str, start: usize, count: usize) -> (v: u32)
    requires
        start + count <= s@.len(),
        count <= 4,
        all_digits(s@.subrange(start as int, (start + count) as int)),
    ensures
        v == dec_value(s@.subrange(start as int, (start + count) as int)),
        v < 10000,
{
    let len: usize = s.unicode_len();
    let ghost whole: Seq<char> = s@.subrange(start as int, (start + count) as int);
    let mut acc: u32 = 0;
    let mut i: usize = 0;
    while i < count
        invariant
            0 <= i <= count,
            count <= 4,
            start + count <= len,
            len == s@.len(),
            all_digits(whole),
            whole == s@.subrange(start as int, (start + count) as int),
            acc == dec_value(whole.subrange(0, i as int)),
        decreases count - i,
    {
        let c: char = s.get_char(start + i);
        proof {
            assert(whole[i as int] == s@[start + i]);
            assert(whole.subrange(0, i as int + 1).drop_last() =~= whole.subrange(0, i as int));
            assert(whole.subrange(0, i as int + 1).last() == whole[i as int]);
            assert(is_digit(c));
            assert('0' as int == 48 && '9' as int == 57);
            assert(all_digits(whole.subrange(0, i as int))) by {
                assert(forall|j: int|
                    0 <= j < i ==> whole.subrange(0, i as int)[j] == #[trigger] whole[j]);
            }
            lemma_dec_value_bound(whole.subrange(0, i as int));
            lemma_pow10_le(i as nat, 3nat);
            reveal_with_fuel(pow10, 5);
        }
        acc = acc * 10 + (c as u32 - 48);
        i = i + 1;
    }
    proof {
        assert(whole.subrange(0, count as int) =~= whole);
        lemma_dec_value_bound(whole);
        lemma_pow10_le(count as nat, 4nat);
        reveal_with_fuel(pow10, 5);
    }
    acc
}

impl Date {
    /// Parse a date string against the date grammar.
    pub fn parse(s: &str) -> (r: Option<Date>)
        ensures
            r == spec_parse_date(s@),
    {
        match Date::parse_with(s, '-', 4, 2, 2) {
            Some((y, m, d)) => Date::checked(y, m, d),
            None => match Date::parse_with(s, '.', 2, 2, 4) {
                Some((d, m, y)) => Date::checked(y, m, d),
                None => None,
            },
        }
    }

    fn checked(y: u32, m: u32, d: u32) -> (r: Option<Date>)
        requires
            y < 10000,
            m < 10000,
            d < 10000,
        ensures
            r == if valid_date(y as int, m as int, d as int) {
                Some(Date { year: y as u16, month: m as u8, day: d as u8 })
            } else {
                None::<Date>
            },
    {
        if 1 <= m && m <= 12 && 1 <= d && d <= month_days(y as u16, m as u8) as u32 {
            Some(Date { year: y as u16, month: m as u8, day: d as u8 })
        } else {
            None
        }
    }

    #[verifier::rlimit(100)]
    fn parse_with(s: &str, sep: char, max1: usize, max2: usize, max3: usize) -> (r: Option<
        (u32, u32, u32),
    >)
        requires
            1 <= max1 <= 4,
            1 <= max2 <= 4,
            1 <= max3 <= 4,
        ensures
            r matches Some((x, y, z)) ==> split_groups(
                s@,
                sep,
                max1 as int,
                max2 as int,
                max3 as int,
            ) == Some((x as int, y as int, z as int)) && x < 10000 && y < 10000 && z < 10000,
            r is None ==> split_groups(s@, sep, max1 as int, max2 as int, max3 as int) is None,
    {
        let len: usize = s.unicode_len();
        let a: usize = digit_run(s, 0);
        proof {
            assert(s@.skip(0) =~= s@);
            lemma_leading_digits_facts(s@);
        }
        if a < 1 || a > max1 || a >= len || s.get_char(a) != sep {
            return None;
        }
        let ghost t: Seq<char> = s@.subrange(a as int + 1, s@.len() as int);
        let b: usize = digit_run(s, a + 1);
        proof {
            assert(s@.skip(a as int + 1) =~= t);
            lemma_leading_digits_facts(t);
            assert(forall|j: int|
                0 <= j < t.len() ==> t[j] == s@[j + a + 1]);
        }
        if b < 1 || b > max2 || a + 1 + b >= len || s.get_char(a + 1 + b) != sep {
            proof {
                if b < t.len() {
                    assert(t[b as int] == s@[a + 1 + b]);
                }
            }
            return None;
        }
        let ghost u: Seq<char> = t.subrange(b as int + 1, t.len() as int);
        let c: usize = digit_run(s, a + 1 + b + 1);
        proof {
            assert(t[b as int] == s@[a + 1 + b]);
            assert(s@.skip(a as int + b + 2) =~= u);
            lemma_leading_digits_facts(u);
            assert(forall|j: int|
                0 <= j < u.len() ==> u[j] == s@[j + a + b + 2]);
        }
        if c < 1 || c > max3 || a + 1 + b + 1 + c != len {
            return None;
        }
        proof {
            assert(u.len() == c);
            assert(s@.subrange(0, a as int) =~= s@.subrange(0, a as int));
            assert(all_digits(s@.subrange(0, a as int)));
            assert(t.subrange(0, b as int) =~= s@.subrange(a as int + 1, a as int + 1 + b));
            assert(all_digits(s@.subrange(a as int + 1, a as int + 1 + b)));
            assert(u =~= s@.subrange(a as int + b + 2, a as int + b + 2 + c));
            assert(all_digits(s@.subrange(a as int + b + 2, a as int + b + 2 + c)));
        }
        let x: u32 = digit_run_value(s, 0, a);
        let y: u32 = digit_run_value(s, a + 1, b);
        let z: u32 = digit_run_value(s, a + 1 + b + 1, c);
        proof {
            assert(dec_value(t.subrange(0, b as int)) == y);
            assert(dec_value(u) == z);
        }
        Some((x, y, z))
    }
}

} // verus!
