//! Calendar dates of the proleptic Gregorian calendar: a year, a month and a
//! day, with no time of day and no time zone.
//!
//! A [`Date`] always names a day that exists. Dates are ordered
//! chronologically, which for year, month and day is the lexicographic order.
//! Reading the clock and converting between dates and their ISO 8601 text is
//! left to `chrono`; everything else here is verified.

use chrono::Datelike;
use vstd::prelude::*;

verus! {

/// The earliest year a [`Date`] can hold (the range of `chrono::NaiveDate`).
pub const MIN_YEAR: i32 = -262143;

/// The latest year a [`Date`] can hold (the range of `chrono::NaiveDate`).
pub const MAX_YEAR: i32 = 262142;

/// Whether `year` has a 29th of February. Year 0 (1 BCE) is a leap year.
pub open spec fn is_leap_year(year: int) -> bool {
    year % 4 == 0 && (year % 100 != 0 || year % 400 == 0)
}

/// The number of days of `month` in `year`, for a month from 1 to 12.
pub open spec fn days_in_month(year: int, month: int) -> int {
    if month == 2 {
        if is_leap_year(year) {
            29
        } else {
            28
        }
    } else if month == 4 || month == 6 || month == 9 || month == 11 {
        30
    } else {
        31
    }
}

/// Whether year, month and day name a day that a [`Date`] can hold.
pub open spec fn is_calendar_date(year: int, month: int, day: int) -> bool {
    &&& MIN_YEAR <= year <= MAX_YEAR
    &&& 1 <= month <= 12
    &&& 1 <= day <= days_in_month(year, month)
}

/// Chronological order on (year, month, day) triples: strictly earlier.
pub open spec fn ymd_before(a: (int, int, int), b: (int, int, int)) -> bool {
    a.0 < b.0 || (a.0 == b.0 && (a.1 < b.1 || (a.1 == b.1 && a.2 < b.2)))
}

/// The character of a decimal digit from 0 to 9.
pub open spec fn digit_char(digit: int) -> char {
    seq!['0', '1', '2', '3', '4', '5', '6', '7', '8', '9'][digit]
}

/// The decimal digits of `n`, most significant first, without leading zeros.
pub open spec fn decimal_digits(n: nat) -> Seq<char>
    decreases n,
{
    if n < 10 {
        seq![digit_char(n as int)]
    } else {
        decimal_digits(n / 10).push(digit_char((n % 10) as int))
    }
}

/// The decimal digits of `n`, with zeros in front up to `width` digits.
pub open spec fn zero_padded(n: nat, width: nat) -> Seq<char> {
    let digits = decimal_digits(n);
    if digits.len() >= width {
        digits
    } else {
        Seq::new((width - digits.len()) as nat, |i: int| '0') + digits
    }
}

/// The year of an ISO 8601 calendar date: four digits for the years 0 to
/// 9999, and a sign followed by at least four digits for all others.
pub open spec fn iso_year_text(year: int) -> Seq<char> {
    if 0 <= year <= 9999 {
        zero_padded(year as nat, 4)
    } else if year < 0 {
        seq!['-'] + zero_padded((-year) as nat, 4)
    } else {
        seq!['+'] + zero_padded(year as nat, 4)
    }
}

/// The ISO 8601 calendar date `YYYY-MM-DD` of a year, a month and a day.
pub open spec fn iso_date_text(ymd: (int, int, int)) -> Seq<char> {
    iso_year_text(ymd.0) + seq!['-'] + zero_padded(ymd.1 as nat, 2) + seq!['-'] + zero_padded(
        ymd.2 as nat,
        2,
    )
}

/// The date that `chrono` reads from a text with `str::parse::<NaiveDate>`,
/// as (year, month, day), or `None` where it reports an error. It reads
/// more than [`iso_date_text`] writes: blanks around the numbers and months
/// and days of one digit are accepted.
pub uninterp spec fn parsed_date_text(text: Seq<char>) -> Option<(int, int, int)>;

/// A calendar date.
#[derive(Clone, Copy, Debug, PartialEq, Eq, Structural)]
pub struct Date {
    year: i32,
    month: u32,
    day: u32,
}

impl Date {
    /// The date as the triple of machine integers that orders it and finds
    /// it again in a collection.
    pub closed spec fn key(self) -> (i32, u32, u32) {
        (self.year, self.month, self.day)
    }

    /// The date with the given key.
    pub closed spec fn of_key(key: (i32, u32, u32)) -> Date {
        Date { year: key.0, month: key.1, day: key.2 }
    }

    /// The date as a (year, month, day) triple.
    pub open spec fn ymd(self) -> (int, int, int) {
        (self.key().0 as int, self.key().1 as int, self.key().2 as int)
    }

    /// The date with the given year, month and day.
    pub open spec fn of_ymd(ymd: (int, int, int)) -> Date {
        Date::of_key((ymd.0 as i32, ymd.1 as u32, ymd.2 as u32))
    }

    /// Whether this value names a day that exists. Every `Date` that a
    /// program holds does; the predicate matters for dates that only
    /// specifications speak of.
    #[verifier::type_invariant]
    pub open spec fn is_valid(self) -> bool {
        is_calendar_date(self.ymd().0, self.ymd().1, self.ymd().2)
    }

    /// Whether `self` is strictly earlier than `other`.
    pub open spec fn before(self, other: Date) -> bool {
        ymd_before(self.ymd(), other.ymd())
    }

    /// Whether `self` is `other` or earlier.
    pub open spec fn not_after(self, other: Date) -> bool {
        !other.before(self)
    }

    /// The date's ISO 8601 text, `YYYY-MM-DD`.
    pub open spec fn iso_text(self) -> Seq<char> {
        iso_date_text(self.ymd())
    }

    /// The date that a text is read as, if it is read as one.
    pub open spec fn parsed(text: Seq<char>) -> Option<Date> {
        match parsed_date_text(text) {
            Some(ymd) => Some(Date::of_ymd(ymd)),
            None => None,
        }
    }

    /// The date of the given year, month and day, if there is such a day.
    pub fn from_ymd(year: i32, month: u32, day: u32) -> (r: Option<Date>)
        ensures
            r is Some <==> is_calendar_date(year as int, month as int, day as int),
            r matches Some(date) ==> date.ymd() == (year as int, month as int, day as int),
    {
        if year < MIN_YEAR || year > MAX_YEAR || month < 1 || month > 12 || day < 1 {
            return None;
        }
        if day > month_length(year, month) {
            return None;
        }
        Some(Date { year, month, day })
    }

    /// The year of the date; year 0 is 1 BCE.
    pub fn year(&self) -> (r: i32)
        ensures
            r == self.ymd().0,
    {
        self.year
    }

    /// The month of the date, from 1 to 12.
    pub fn month(&self) -> (r: u32)
        ensures
            r == self.ymd().1,
    {
        self.month
    }

    /// The day of the month, from 1.
    pub fn day(&self) -> (r: u32)
        ensures
            r == self.ymd().2,
    {
        self.day
    }

    /// Whether `self` is strictly earlier than `other`.
    pub fn is_before(&self, other: &Date) -> (r: bool)
        ensures
            r == self.before(*other),
    {
        if self.year != other.year {
            self.year < other.year
        } else if self.month != other.month {
            self.month < other.month
        } else {
            self.day < other.day
        }
    }

    /// Reads a date from its ISO 8601 text, as `chrono` reads it.
    pub fn parse(text: &str) -> (r: Option<Date>)
        ensures
            r == Date::parsed(text@),
            r matches Some(date) ==> date.is_valid(),
    {
        let r = parse_iso_date(text);
        proof {
            if let Some(date) = r {
                lemma_date_by_ymd(date, Date::of_ymd(date.ymd()));
            }
        }
        r
    }

    /// Writes the date as ISO 8601 text, `YYYY-MM-DD`. The text is read
    /// back as the same date.
    pub fn to_iso_string(&self) -> (r: String)
        ensures
            r@ == self.iso_text(),
            Date::parsed(r@) == Some(*self),
    {
        proof {
            use_type_invariant(self);
            lemma_date_by_ymd(*self, Date::of_ymd(self.ymd()));
        }
        iso_date_string(self)
    }

    /// Today's date on this machine's clock, in its local time zone.
    pub fn today() -> (r: Date)
        ensures
            r.is_valid(),
    {
        local_today()
    }

    /// The key of the date.
    pub(crate) fn to_key(&self) -> (r: (i32, u32, u32))
        ensures
            r == self.key(),
    {
        (self.year, self.month, self.day)
    }

    /// The date with the given key, where the key names a day that exists.
    pub(crate) fn from_key(key: (i32, u32, u32)) -> (r: Date)
        requires
            is_calendar_date(key.0 as int, key.1 as int, key.2 as int),
        ensures
            r == Date::of_key(key),
    {
        Date { year: key.0, month: key.1, day: key.2 }
    }
}

/// `chrono::Local::now`, reduced to its local calendar date. The date
/// depends on the clock and the time zone of the machine, so the contract
/// is silent on which date comes back; like every `NaiveDate`, it exists in
/// the calendar and its year lies in `MIN_YEAR..=MAX_YEAR`.
#[verifier::external_body]
fn local_today() -> (r: Date)
    ensures
        r.is_valid(),
{
    let today = chrono::Local::now().naive_local().date();
    Date { year: today.year(), month: today.month(), day: today.day() }
}

/// `str::parse::<chrono::NaiveDate>`, the parser behind `NaiveDate`'s
/// `FromStr`. The result is the named result of that parser on the text;
/// where it is a date, that date exists in the calendar and its year lies
/// in `MIN_YEAR..=MAX_YEAR`, as for every `NaiveDate`.
#[verifier::external_body]
fn parse_iso_date(text: &str) -> (r: Option<Date>)
    ensures
        match r {
            Some(date) => parsed_date_text(text@) == Some(date.ymd()) && date.is_valid(),
            None => parsed_date_text(text@) is None,
        },
{
    match text.parse::<chrono::NaiveDate>() {
        Ok(date) => Some(Date { year: date.year(), month: date.month(), day: date.day() }),
        Err(_) => None,
    }
}

/// `NaiveDate::from_ymd_opt` followed by `NaiveDate`'s `Display`. `chrono`
/// writes the year with four digits, or with a sign and at least four
/// digits outside 0..=9999, then month and day with two digits each; and it
/// documents that `str::parse` reads back the date that was printed.
#[verifier::external_body]
fn iso_date_string(date: &Date) -> (r: String)
    requires
        date.is_valid(),
    ensures
        r@ == iso_date_text(date.ymd()),
        parsed_date_text(r@) == Some(date.ymd()),
{
    chrono::NaiveDate::from_ymd_opt(date.year, date.month, date.day)
        .expect("a Date exists in the calendar")
        .to_string()
}

/// The number of days of `month` in `year`.
fn month_length(year: i32, month: u32) -> (r: u32)
    requires
        MIN_YEAR <= year <= MAX_YEAR,
        1 <= month <= 12,
    ensures
        r == days_in_month(year as int, month as int),
{
    if month == 2 {
        // 262400 is a multiple of 400 above -MIN_YEAR, so the remainders
        // below are those of a year that is not negative.
        let shifted: i32 = year + 262400;
        if shifted % 4 == 0 && (shifted % 100 != 0 || shifted % 400 == 0) {
            29
        } else {
            28
        }
    } else if month == 4 || month == 6 || month == 9 || month == 11 {
        30
    } else {
        31
    }
}

/// A date is determined by its year, month and day.
pub proof fn lemma_date_by_ymd(a: Date, b: Date)
    requires
        a.ymd() == b.ymd(),
    ensures
        a == b,
{
}

/// Dates and keys correspond one to one.
pub proof fn lemma_date_key(date: Date, key: (i32, u32, u32))
    ensures
        Date::of_key(date.key()) == date,
        Date::of_key(key).key() == key,
{
}

/// The order of dates is a strict total order: no date is before itself, of
/// two different dates one is before the other, and `before` is transitive.
pub proof fn lemma_before_is_strict_total_order(a: Date, b: Date, c: Date)
    ensures
        !a.before(a),
        a.before(b) || b.before(a) || a == b,
        !(a.before(b) && b.before(a)),
        a.before(b) && b.before(c) ==> a.before(c),
{
}

} // verus!
