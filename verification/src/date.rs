//! Calendar dates in day-month-year form.

use crate::error::ErrorKind;
use crate::decimal::digit_char;
use crate::text::{bytes_of, lacks, lemma_bytes_of_ascii, str_eq};
use chrono::Datelike;
use vstd::prelude::*;
use vstd::string::*;
use vstd::utf8::is_ascii_chars;

verus! {

/// What a date is: a year, a month and a day of that month.
pub struct DateView {
    pub year: int,
    pub month: int,
    pub day: int,
}

/// A day of the proleptic Gregorian calendar in the years 0 to 9999.
#[derive(Clone, Copy, Debug, PartialEq, Eq, Structural)]
pub struct Date {
    year: u16,
    month: u8,
    day: u8,
}

/// Whether `year` has a 29th of February.
pub open spec fn is_leap_year(year: int) -> bool {
    year % 4 == 0 && (year % 100 != 0 || year % 400 == 0)
}

/// The number of days of `month` in `year`.
pub open spec fn days_in_month(year: int, month: int) -> int {
    if month == 2 {
        if is_leap_year(year) {
            29
        } else {
            28
        }
    } else if month == 4 || month == 6 || month == 9 || month == 11 {
        30
    } else {
        31
    }
}

/// Whether the three numbers name a day that exists, in a year of four digits.
pub open spec fn is_calendar_date(year: int, month: int, day: int) -> bool {
    &&& 0 <= year <= 9999
    &&& 1 <= month <= 12
    &&& 1 <= day <= days_in_month(year, month)
}

/// `n` written with two digits, for `0 <= n <= 99`.
pub open spec fn two_digits(n: int) -> Seq<char> {
    seq![digit_char(n / 10), digit_char(n % 10)]
}

/// The date written day first, the year with four digits, `sep` between the parts.
pub open spec fn date_text(d: DateView, sep: char) -> Seq<char> {
    two_digits(d.day) + seq![sep] + two_digits(d.month) + seq![sep] + two_digits(d.year / 100)
        + two_digits(d.year % 100)
}

/// The date that a parse handed back, where it is one this library holds.
pub open spec fn date_of_parts(parts: Option<(int, int, int)>) -> Option<DateView> {
    match parts {
        Some((year, month, day)) => if is_calendar_date(year, month, day) {
            Some(DateView { year, month, day })
        } else {
            None
        },
        None => None,
    }
}

/// The date that `text` denotes in day-month-year form, if any.
pub open spec fn parsed_date(text: Seq<char>) -> Option<DateView> {
    date_of_parts(dmy_parse(text))
}

/// Whether `text` is a date argument: the word `today`, or a text that
/// denotes a date.
pub open spec fn is_date_argument(text: Seq<char>) -> bool {
    text == "today"@ || parsed_date(text) is Some
}

/// The canonical text for a date argument: for the word `today` the text of
/// today's date, where the clock gave one; for any other text that of the
/// date it denotes.
pub open spec fn canonical_date_text(text: Seq<char>, today: Option<DateView>) -> Option<
    Seq<char>,
> {
    let date = if text == "today"@ {
        today
    } else {
        parsed_date(text)
    };
    match date {
        Some(d) => Some(date_text(d, '-')),
        None => None,
    }
}

/// What an optional date is.
pub open spec fn date_view(date: Option<Date>) -> Option<DateView> {
    match date {
        Some(d) => Some(d@),
        None => None,
    }
}

/// Year, month and day that chrono reads out of `text` under the format
/// `%d-%m-%Y`; `None` where chrono rejects the text.
pub uninterp spec fn dmy_parse(text: Seq<char>) -> Option<(int, int, int)>;

/// Calls `chrono::NaiveDate::parse_from_str` with the format `%d-%m-%Y` and
/// takes the year, month and day out of the date it returns. Nothing is
/// claimed of which texts chrono accepts: the result is only given its name.
#[verifier::external_body]
fn parse_dmy(text: &str) -> (r: Option<(i32, u32, u32)>)
    ensures
        match r {
            Some(p) => dmy_parse(text@) == Some((p.0 as int, p.1 as int, p.2 as int)),
            None => dmy_parse(text@) is None,
        },
{
    match chrono::NaiveDate::parse_from_str(text, "%d-%m-%Y") {
        Ok(d) => Some((d.year(), d.month(), d.day())),
        Err(_) => None,
    }
}

/// Calls `chrono::Local::now` and takes the year, month and day of the local
/// date out of it. The result depends on the clock and the time zone, so
/// nothing is claimed of it.
#[verifier::external_body]
fn local_today() -> (r: (i32, u32, u32))
{
    let d = chrono::Local::now().date_naive();
    (d.year(), d.month(), d.day())
}

fn push_two_digits(out: &mut String, n: u8)
    requires
        n <= 99,
    ensures
        final(out)@ == old(out)@ + two_digits(n as int),
{
    out.push((48 + n / 10) as char);
    out.push((48 + n % 10) as char);
    assert(final(out)@ =~= old(out)@ + two_digits(n as int));
}

impl View for Date {
    type V = DateView;

    closed spec fn view(&self) -> DateView {
        DateView { year: self.year as int, month: self.month as int, day: self.day as int }
    }
}

impl Date {
    #[verifier::type_invariant]
    spec fn well_formed(self) -> bool {
        is_calendar_date(self.year as int, self.month as int, self.day as int)
    }

    /// The date with the given parts, where they name a day that exists.
    pub fn from_parts(year: i32, month: u32, day: u32) -> (r: Option<Date>)
        ensures
            r is Some <==> is_calendar_date(year as int, month as int, day as int),
            r matches Some(d) ==> d@ == (DateView {
                year: year as int,
                month: month as int,
                day: day as int,
            }),
    {
        if year < 0 || year > 9999 || month < 1 || month > 12 || day < 1 {
            return None;
        }
        let leap = year % 4 == 0 && (year % 100 != 0 || year % 400 == 0);
        let length: u32 = if month == 2 {
            if leap {
                29
            } else {
                28
            }
        } else if month == 4 || month == 6 || month == 9 || month == 11 {
            30
        } else {
            31
        };
        if day > length {
            return None;
        }
        Some(Date { year: year as u16, month: month as u8, day: day as u8 })
    }

    /// Reads a date written as day-month-year, as chrono reads it.
    pub fn parse(text: &str) -> (r: Option<Date>)
        ensures
            match r {
                Some(d) => parsed_date(text@) == Some(d@),
                None => parsed_date(text@) is None,
            },
    {
        match parse_dmy(text) {
            Some(p) => Date::from_parts(p.0, p.1, p.2),
            None => None,
        }
    }

    /// The local date of the clock; `None` where it lies outside the years
    /// 0 to 9999.
    pub fn today() -> (r: Option<Date>)
        ensures
            r matches Some(d) ==> is_calendar_date(d@.year, d@.month, d@.day),
    {
        let p = local_today();
        Date::from_parts(p.0, p.1, p.2)
    }

    /// The year, 0 to 9999.
    pub fn year(&self) -> (r: u16)
        ensures
            r == self@.year,
            r <= 9999,
    {
        proof {
            use_type_invariant(self);
        }
        self.year
    }

    /// The month, 1 to 12.
    pub fn month(&self) -> (r: u8)
        ensures
            r == self@.month,
            1 <= r <= 12,
    {
        proof {
            use_type_invariant(self);
        }
        self.month
    }

    /// The day of the month, 1 to 31.
    pub fn day(&self) -> (r: u8)
        ensures
            r == self@.day,
            1 <= r <= days_in_month(self@.year, self@.month),
    {
        proof {
            use_type_invariant(self);
        }
        self.day
    }

    /// The date as text, day first, with `sep` between the parts.
    pub fn format(&self, sep: char) -> (r: String)
        ensures
            r@ == date_text(self@, sep),
    {
        proof {
            use_type_invariant(self);
        }
        let mut out = String::new();
        push_two_digits(&mut out, self.day);
        out.push(sep);
        push_two_digits(&mut out, self.month);
        out.push(sep);
        push_two_digits(&mut out, (self.year / 100) as u8);
        push_two_digits(&mut out, (self.year % 100) as u8);
        assert(out@ =~= date_text(self@, sep));
        out
    }

    /// The date as it is stored: `dd-mm-yyyy`.
    pub fn to_text(&self) -> (r: String)
        ensures
            r@ == date_text(self@, '-'),
    {
        self.format('-')
    }
}

/// The canonical text for a date argument, given today's date where the
/// clock gave one: the word `today` stands for today, any other text for
/// the date it denotes.
pub fn canonical_date(date: &str, today: Option<Date>) -> (r: Option<String>)
    ensures
        match r {
            Some(s) => canonical_date_text(date@, date_view(today)) == Some(s@),
            None => canonical_date_text(date@, date_view(today)) is None,
        },
{
    let resolved = if str_eq(date, "today") {
        today
    } else {
        Date::parse(date)
    };
    match resolved {
        Some(d) => Some(d.to_text()),
        None => None,
    }
}

/// The canonical text for a date argument; the word `today` is resolved
/// against the clock. A text that is no date argument is a fatal error of
/// the caller, who tests for it first, as `checked_format_date` does.
/// `None` only for `today`, where the clock gives no date of the years 0 to
/// 9999.
pub fn format_date(date: String) -> (r: Option<String>)
    requires
        is_date_argument(date@),
    ensures
        date@ != "today"@ ==> (r matches Some(s) && s@ == date_text(
            parsed_date(date@)->0,
            '-',
        )),
        date@ == "today"@ ==> (r matches Some(s) ==> exists|today: DateView|
            is_calendar_date(today.year, today.month, today.day) && s@ == date_text(today, '-')),
{
    let today = if str_eq(date.as_str(), "today") {
        Date::today()
    } else {
        None
    };
    let r = canonical_date(date.as_str(), today);
    proof {
        if date@ == "today"@ {
            match today {
                Some(t) => {
                    assert(is_calendar_date(t@.year, t@.month, t@.day) && r->0@ == date_text(
                        t@,
                        '-',
                    ));
                },
                None => {},
            }
        }
    }
    r
}

/// The canonical text for what may be a date argument. Fails with `Parse`
/// on a text that is none, and for `today` where the clock gives no date of
/// the years 0 to 9999.
pub fn checked_format_date(date: String) -> (r: Result<String, ErrorKind>)
    ensures
        !is_date_argument(date@) ==> r == Err::<String, ErrorKind>(ErrorKind::Parse),
        is_date_argument(date@) && date@ != "today"@ ==> (r matches Ok(s) && s@ == date_text(
            parsed_date(date@)->0,
            '-',
        )),
        date@ == "today"@ ==> match r {
            Ok(s) => exists|today: DateView|
                is_calendar_date(today.year, today.month, today.day) && s@ == date_text(
                    today,
                    '-',
                ),
            Err(e) => e == ErrorKind::Parse,
        },
{
    if str_eq(date.as_str(), "today") || Date::parse(date.as_str()).is_some() {
        match format_date(date) {
            Some(s) => Ok(s),
            None => Err(ErrorKind::Parse),
        }
    } else {
        Err(ErrorKind::Parse)
    }
}

/// The text of a date is ten ASCII characters, one byte each, and none of
/// them is a line feed.
pub proof fn lemma_date_text_bytes(d: DateView, sep: char)
    requires
        is_calendar_date(d.year, d.month, d.day),
        sep == '-' || sep == '/',
    ensures
        date_text(d, sep).len() == 10,
        is_ascii_chars(date_text(d, sep)),
        bytes_of(date_text(d, sep)).len() == 10,
        lacks(bytes_of(date_text(d, sep)), 10),
{
    let t = date_text(d, sep);
    assert(t.len() == 10);
    assert(is_ascii_chars(t)) by {
        assert forall|i: int| 0 <= i < t.len() implies '\0' <= #[trigger] t[i] <= '\u{7f}' by {
            assert(i == 0 || i == 1 || i == 2 || i == 3 || i == 4 || i == 5 || i == 6 || i == 7
                || i == 8 || i == 9);
        }
    }
    lemma_bytes_of_ascii(t);
    assert forall|i: int| 0 <= i < bytes_of(t).len() implies #[trigger] bytes_of(t)[i] != 10 by {
        assert(bytes_of(t)[i] == t[i] as u8);
        assert(i == 0 || i == 1 || i == 2 || i == 3 || i == 4 || i == 5 || i == 6 || i == 7 || i
            == 8 || i == 9);
    }
}

/// Two dates with the same text are the same date: to match the stored
/// text of a date is to match the date.
pub proof fn lemma_date_text_injective(a: DateView, b: DateView, sep: char)
    requires
        is_calendar_date(a.year, a.month, a.day),
        is_calendar_date(b.year, b.month, b.day),
        date_text(a, sep) == date_text(b, sep),
    ensures
        a == b,
{
    let s = date_text(a, sep);
    let t = date_text(b, sep);
    assert(s[0] == t[0] && s[1] == t[1] && s[3] == t[3] && s[4] == t[4] && s[6] == t[6] && s[7]
        == t[7] && s[8] == t[8] && s[9] == t[9]);
    assert(a.day / 10 == b.day / 10 && a.day % 10 == b.day % 10);
    assert(a.month / 10 == b.month / 10 && a.month % 10 == b.month % 10);
    assert(a.year / 100 / 10 == b.year / 100 / 10 && a.year / 100 % 10 == b.year / 100 % 10);
    assert(a.year % 100 / 10 == b.year % 100 / 10 && a.year % 100 % 10 == b.year % 100 % 10);
}

} // verus!
