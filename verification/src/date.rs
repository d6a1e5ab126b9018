//! Calendar dates as plain values, and the calls into `chrono` that parse, print
//! and fetch them.

use vstd::prelude::*;
use chrono::Datelike;

verus! {

/// A calendar date of the proleptic Gregorian calendar.
#[derive(Clone, Copy, Debug, PartialEq, Eq, Structural)]
pub struct Date {
    pub year: i32,
    pub month: u32,
    pub day: u32,
}

pub open spec fn is_leap_year(y: int) -> bool {
    (y % 4 == 0 && y % 100 != 0) || y % 400 == 0
}

pub open spec fn days_in_month(y: int, m: int) -> int {
    if m == 2 {
        if is_leap_year(y) { 29 } else { 28 }
    } else if m == 4 || m == 6 || m == 9 || m == 11 {
        30
    } else {
        31
    }
}

/// The smallest and largest years that `chrono::NaiveDate` holds.
pub open spec fn min_year() -> int { -262143 }
pub open spec fn max_year() -> int { 262142 }

impl Date {
    /// The date exists in the calendar and in the range of `chrono::NaiveDate`.
    pub open spec fn valid(self) -> bool {
        &&& min_year() <= self.year <= max_year()
        &&& 1 <= self.month <= 12
        &&& 1 <= self.day <= days_in_month(self.year as int, self.month as int)
    }

    /// `self` is on or before `other`.
    pub open spec fn on_or_before(self, other: Date) -> bool {
        ||| self.year < other.year
        ||| (self.year == other.year && self.month < other.month)
        ||| (self.year == other.year && self.month == other.month && self.day <= other.day)
    }

    /// Year, month and day.
    pub open spec fn triple(self) -> (i32, u32, u32) {
        (self.year, self.month, self.day)
    }

    /// The date `chrono` takes when none is given: the first of January 1970.
    pub open spec fn spec_epoch() -> Date {
        Date { year: 1970, month: 1, day: 1 }
    }

    pub fn epoch() -> (d: Date)
        ensures
            d == Date::spec_epoch(),
            d.valid(),
    {
        Date { year: 1970, month: 1, day: 1 }
    }

    pub fn is_on_or_before(&self, other: &Date) -> (r: bool)
        ensures
            r == self.on_or_before(*other),
    {
        self.year < other.year || (self.year == other.year && self.month < other.month) || (
        self.year == other.year && self.month == other.month && self.day <= other.day)
    }

    /// Whether the date exists in the calendar and in the range of `chrono::NaiveDate`.
    pub fn is_valid(&self) -> (r: bool)
        ensures
            r == self.valid(),
    {
        if self.year < -262143 || self.year > 262142 || self.month < 1 || self.month > 12 || self.day < 1 {
            return false;
        }
        let days: u32 = if self.month == 2 {
            if (self.year % 4 == 0 && self.year % 100 != 0) || self.year % 400 == 0 { 29 } else { 28 }
        } else if self.month == 4 || self.month == 6 || self.month == 9 || self.month == 11 {
            30
        } else {
            31
        };
        self.day <= days
    }

    pub fn same_as(&self, other: &Date) -> (r: bool)
        ensures
            r == (*self == *other),
    {
        self.year == other.year && self.month == other.month && self.day == other.day
    }
}

/// The decimal digit `n` (0 to 9) as a character.
pub open spec fn digit_char(n: int) -> char {
    seq!['0', '1', '2', '3', '4', '5', '6', '7', '8', '9'][n]
}

/// `n` in decimal, zero-padded to `width` digits (more digits where `n` needs them).
pub open spec fn padded_decimal(n: nat, width: nat) -> Seq<char>
    decreases n, width,
{
    if width <= 1 {
        if n < 10 {
            seq![digit_char(n as int)]
        } else {
            padded_decimal(n / 10, 1) + seq![digit_char((n % 10) as int)]
        }
    } else {
        padded_decimal(n / 10, (width - 1) as nat) + seq![digit_char((n % 10) as int)]
    }
}

/// `c` is a decimal digit.
pub open spec fn is_digit(c: char) -> bool {
    '0' <= c && c <= '9'
}

pub proof fn lemma_digit_char(n: int)
    requires
        0 <= n < 10,
    ensures
        is_digit(digit_char(n)),
{
    assert(n == 0 || n == 1 || n == 2 || n == 3 || n == 4 || n == 5 || n == 6 || n == 7 || n == 8
        || n == 9);
}

/// A padded decimal is a non-empty run of digits.
pub proof fn lemma_padded_digits(n: nat, width: nat)
    ensures
        padded_decimal(n, width).len() >= 1,
        forall|i: int| 0 <= i < padded_decimal(n, width).len() ==> is_digit(#[trigger] padded_decimal(n, width)[i]),
    decreases n, width,
{
    if width <= 1 {
        if n < 10 {
            lemma_digit_char(n as int);
        } else {
            lemma_padded_digits(n / 10, 1);
            lemma_digit_char((n % 10) as int);
        }
    } else {
        lemma_padded_digits(n / 10, (width - 1) as nat);
        lemma_digit_char((n % 10) as int);
    }
}

/// The date as `YYYY-MM-DD`, for years from 0 to 9999.
pub open spec fn ymd_text(d: Date) -> Seq<char> {
    padded_decimal(d.year as nat, 4) + seq!['-'] + padded_decimal(d.month as nat, 2) + seq!['-']
        + padded_decimal(d.day as nat, 2)
}

/// What `chrono::NaiveDate`'s `Display` writes for a date: for the years 0 to 9999
/// `YYYY-MM-DD`, zero-padded; for other years the year's sign and at least four
/// digits, then `-MM-DD`.
#[verifier::opaque]
pub open spec fn naive_date_text(year: i32, month: u32, day: u32) -> Seq<char> {
    let rest = seq!['-'] + padded_decimal(month as nat, 2) + seq!['-'] + padded_decimal(day as nat, 2);
    if 0 <= year <= 9999 {
        padded_decimal(year as nat, 4) + rest
    } else if year < 0 {
        seq!['-'] + padded_decimal((0 - year) as nat, 4) + rest
    } else {
        seq!['+'] + padded_decimal(year as nat, 4) + rest
    }
}

/// For the years 0 to 9999 the text of a date is `YYYY-MM-DD`.
pub proof fn lemma_ymd_is_date_text(d: Date)
    requires
        0 <= d.year <= 9999,
    ensures
        ymd_text(d) == naive_date_text(d.year, d.month, d.day),
{
    reveal(naive_date_text);
    assert(ymd_text(d) =~= naive_date_text(d.year, d.month, d.day));
}

/// The text of a date is made of digits, dashes and a sign, begins with a digit or a
/// sign, and ends with a digit.
pub proof fn lemma_date_text_shape(d: Date)
    ensures
        naive_date_text(d.year, d.month, d.day).len() >= 1,
        is_digit(naive_date_text(d.year, d.month, d.day)[0]) || naive_date_text(d.year, d.month, d.day)[0] == '-'
            || naive_date_text(d.year, d.month, d.day)[0] == '+',
        is_digit(naive_date_text(d.year, d.month, d.day).last()),
        forall|i: int| 0 <= i < naive_date_text(d.year, d.month, d.day).len() ==> is_digit(
            #[trigger] naive_date_text(d.year, d.month, d.day)[i]) || naive_date_text(d.year, d.month, d.day)[i] == '-'
            || naive_date_text(d.year, d.month, d.day)[i] == '+',
{
    reveal(naive_date_text);
    let t = naive_date_text(d.year, d.month, d.day);
    let a: nat = if d.year < 0 { (0 - d.year) as nat } else { d.year as nat };
    let y = padded_decimal(a, 4);
    let m = padded_decimal(d.month as nat, 2);
    let dd = padded_decimal(d.day as nat, 2);
    lemma_padded_digits(a, 4);
    lemma_padded_digits(d.month as nat, 2);
    lemma_padded_digits(d.day as nat, 2);
    let rest = seq!['-'] + m + seq!['-'] + dd;
    let sign: Seq<char> = if 0 <= d.year <= 9999 { Seq::empty() } else if d.year < 0 { seq!['-'] } else { seq!['+'] };
    assert(t =~= sign + y + rest);
    assert(t.last() == dd.last());
    assert forall|i: int| 0 <= i < t.len() implies is_digit(#[trigger] t[i]) || t[i] == '-' || t[i] == '+' by {
        let n = sign.len() as int;
        if i < n {
        } else if i < n + y.len() {
            assert(t[i] == y[i - n]);
        } else if i == n + y.len() {
        } else if i < n + y.len() + 1 + m.len() {
            assert(t[i] == m[i - n - y.len() - 1]);
        } else if i == n + y.len() + 1 + m.len() {
        } else {
            assert(t[i] == dd[i - n - y.len() - 2 - m.len()]);
        }
    }
    if sign.len() == 0 {
        assert(t[0] == y[0]);
    }
}

/// What `chrono::NaiveDate::parse_from_str` gives for a text and a format, as year,
/// month and day.
pub uninterp spec fn naive_date_parse(text: Seq<char>, format: Seq<char>) -> Option<(i32, u32, u32)>;

#[verifier::external_type_specification]
#[verifier::external_body]
pub struct ExParseError(chrono::format::ParseError);

/// Prints a date with `chrono::NaiveDate`'s `Display`, which writes what its `Debug`
/// implementation writes: the text `naive_date_text` states (`YYYY-MM-DD` for the
/// years 0 to 9999, else the year with its sign and at least four digits).
#[verifier::external_body]
fn chrono_date_text(d: Date) -> (r: String)
    requires
        d.valid(),
    ensures
        r@ == naive_date_text(d.year, d.month, d.day),
{
    chrono::NaiveDate::from_ymd_opt(d.year, d.month, d.day).unwrap().to_string()
}

/// Parses a date with `chrono::NaiveDate::parse_from_str`. The outcome is named by
/// `naive_date_parse`; a date that comes back is a valid one (a `NaiveDate` holds no
/// other), and the text `Display` writes for a valid date parses back to that date
/// under the format `%Y-%m-%d` (`%Y` takes four digits, or a sign and any number of
/// digits).
#[verifier::external_body]
fn chrono_parse_date(text: &str, format: &str) -> (r: Result<Date, chrono::format::ParseError>)
    ensures
        r matches Ok(d) ==> d.valid() && naive_date_parse(text@, format@) == Some(d.triple()),
        r is Err ==> naive_date_parse(text@, format@) is None,
        forall|d: Date| #[trigger] naive_date_text(d.year, d.month, d.day) == text@ && d.valid() && format@ == ymd_format() ==> r is Ok && r->Ok_0 == d,
{
    match chrono::NaiveDate::parse_from_str(text, format) {
        Ok(d) => Ok(Date { year: d.year(), month: d.month(), day: d.day() }),
        Err(e) => Err(e),
    }
}

/// Today's date in the local time zone, from `chrono::Local::now().date_naive()`.
/// It depends on the clock: all that is claimed is that it is a valid date.
#[verifier::external_body]
fn chrono_today() -> (r: Date)
    ensures
        r.valid(),
{
    let d = chrono::Local::now().date_naive();
    Date { year: d.year(), month: d.month(), day: d.day() }
}

/// The text `%Y-%m-%d`, the only date format the task files use.
pub open spec fn ymd_format() -> Seq<char> {
    seq!['%', 'Y', '-', '%', 'm', '-', '%', 'd']
}

/// Why a date could not be read.
#[derive(Debug)]
pub struct DateError {
    pub input: String,
}

/// Reads a date written `YYYY-MM-DD` (as `chrono` reads the format `%Y-%m-%d`).
pub fn parse_date(text: &str) -> (r: Result<Date, DateError>)
    ensures
        r matches Ok(d) ==> d.valid() && naive_date_parse(text@, ymd_format()) == Some(d.triple()),
        r matches Err(e) ==> naive_date_parse(text@, ymd_format()) is None && e.input@ == text@,
        forall|d: Date|
            #![trigger naive_date_text(d.year, d.month, d.day)]
            d.valid() && text@ == naive_date_text(d.year, d.month, d.day) ==> (r matches Ok(x) && x == d),
        forall|d: Date|
            #![trigger ymd_text(d)]
            d.valid() && 0 <= d.year <= 9999 && text@ == ymd_text(d) ==> (r matches Ok(x) && x == d),
{
    let format = "%Y-%m-%d";
    proof {
        reveal_strlit("%Y-%m-%d");
        assert forall|d: Date| d.valid() && 0 <= d.year <= 9999 && text@ == #[trigger] ymd_text(d)
            implies text@ == naive_date_text(d.year, d.month, d.day) by {
            lemma_ymd_is_date_text(d);
        }
    }
    assert(format@ == ymd_format());
    match chrono_parse_date(text, format) {
        Ok(d) => Ok(d),
        Err(_) => Err(DateError { input: String::from_str(text) }),
    }
}

/// Writes a date as `chrono` does: `YYYY-MM-DD` for the years 0 to 9999, else with
/// the year's sign.
pub fn date_text(d: Date) -> (r: String)
    requires
        d.valid(),
    ensures
        r@ == naive_date_text(d.year, d.month, d.day),
        0 <= d.year <= 9999 ==> r@ == ymd_text(d),
{
    proof {
        if 0 <= d.year <= 9999 {
            lemma_ymd_is_date_text(d);
        }
    }
    chrono_date_text(d)
}

/// Today's date in the local time zone.
pub fn today() -> (r: Date)
    ensures
        r.valid(),
{
    chrono_today()
}

} // verus!
