//! Dates and instants as the domain holds them.
//!
//! A calendar date is three plain numbers. An instant is the moment it
//! names, which is all the rules ever compare, together with the zoned
//! value it was read from, which only the calendar arithmetic of the
//! working day looks into.

use vstd::prelude::*;

use jiff::Zoned;

use super::rule::Weekday;
use super::settings::DateOrder;
use crate::text::{append_all, append_str, decimal, decimal_of};

verus! {

/// A day on the calendar: a year, a month from 1 and a day from 1.
#[derive(Clone, Copy, Debug, PartialEq, Eq, Structural, PartialOrd, Ord, Hash)]
pub struct Date {
    pub year: i16,
    pub month: u8,
    pub day: u8,
}

#[verifier::external_type_specification]
#[verifier::external_body]
pub struct ExZoned(Zoned);

/// An instant: when something happened, and the zoned value it was
/// read from. Two instants are the same when they name the same moment,
/// whatever zone they were written in. A stamp made by `Stamp::of` also
/// holds, for each hour a day may start at, the date of the moment that
/// many hours before it in its own zone: its working day for that hour.
#[derive(Clone, Debug)]
pub struct Stamp {
    instant: i128,
    zoned: Zoned,
    days: Vec<Date>,
}

impl View for Stamp {
    type V = int;

    /// The moment, in nanoseconds since the Unix epoch.
    closed spec fn view(&self) -> int {
        self.instant as int
    }
}

/// `jiff::Zoned::timestamp` and `Timestamp::as_nanosecond`: the moment a
/// zoned value names, in nanoseconds since the Unix epoch. Nothing is
/// stated of the number: the zoned value is opaque here.
#[verifier::external_body]
fn instant_of(zoned: &Zoned) -> (nanos: i128) {
    zoned.timestamp().as_nanosecond()
}

/// `<jiff::Zoned as Clone>::clone`, which jiff derives. Nothing is stated
/// of the copy; the moment a stamp names is carried beside it.
pub assume_specification[ <Zoned as Clone>::clone ](zoned: &Zoned) -> Zoned;

/// The moment `hours` hours before an instant, in nanoseconds since the
/// Unix epoch, held at the earliest moment jiff represents
/// (`Timestamp::MIN`, 377705023201 seconds before the epoch) where it
/// would fall before that.
pub open spec fn moment_before(instant: int, hours: int) -> int {
    let m = instant - hours * 3_600_000_000_000;
    if m < -377_705_023_201_000_000_000 {
        -377_705_023_201_000_000_000
    } else {
        m
    }
}

/// The whole days from the Unix epoch to a moment, rounded down: the day
/// the moment falls on in Coordinated Universal Time.
pub open spec fn epoch_day(moment: int) -> int {
    moment / 86_400_000_000_000
}

/// Whether a date lies within two days of the day a moment falls on in
/// Coordinated Universal Time. The date a moment falls on in any time
/// zone does: a zone's offset stays within 25:59:59 of it.
pub open spec fn near_day(date: Date, moment: int) -> bool {
    let d = day_number(date) - day_number(Date { year: 1970, month: 1, day: 1 });
    epoch_day(moment) - 2 <= d <= epoch_day(moment) + 2
}

/// `jiff::Zoned::saturating_sub` of a span of `hours` hours on the zoned
/// value a stamp was read from, then `Zoned::date`: the calendar date, in
/// that value's own time zone, of the moment that many hours earlier.
/// jiff subtracts hours from the instant itself and saturates at
/// `Timestamp::MIN`; the date it reads adds the zone's offset, which jiff
/// bounds to 25:59:59 either way. So the date is one of the calendar and
/// lies within two days of the UTC day of `moment_before`. That claim
/// rests on the stamp's instant being the one its zoned value names,
/// which `Stamp::of` reads off the value and `Stamp::copy` carries along
/// with a clone of it. Which of the nearby days it is, the time zone
/// decides, and is not stated.
#[verifier::external_body]
fn date_hours_before(stamp: &Stamp, hours: u8) -> (date: Date)
    ensures
        valid(date),
        near_day(date, moment_before(stamp@, hours as int)),
{
    let date = stamp.zoned.saturating_sub(jiff::Span::new().hours(i64::from(hours))).date();
    Date { year: date.year(), month: date.month() as u8, day: date.day() as u8 }
}

/// Whether a date is one of the calendar and lies within two days of the
/// UTC day of the moment `hours` hours before an instant.
fn holds_for(d: Date, instant: i128, hours: u8) -> (r: bool)
    ensures
        r == (valid(d) && near_day(d, moment_before(instant as int, hours as int))),
{
    if !(-9999 <= d.year && d.year <= 9999 && 1 <= d.month && d.month <= 12 && 1 <= d.day && d.day <= days_in_month(
        d.year,
        d.month,
    )) {
        return false;
    }
    let back: i128 = hours as i128 * 3_600_000_000_000;
    let earliest: i128 = -377_705_023_201_000_000_000;
    let m: i128 = if instant < earliest + back {
        earliest
    } else {
        instant - back
    };
    assert(m == moment_before(instant as int, hours as int));
    let e: i128 = if m >= 0 {
        let q: i128 = m / 86_400_000_000_000;
        q
    } else {
        let shifted: i128 = m + 432_000_000_000_000_000_000;
        let q: i128 = shifted / 86_400_000_000_000;
        proof {
            vstd::arithmetic::div_mod::lemma_hoist_over_denominator(m as int, 5_000_000, 86_400_000_000_000);
            assert(5_000_000 * 86_400_000_000_000 == 432_000_000_000_000_000_000);
        }
        q - 5_000_000
    };
    assert(e == epoch_day(m as int));
    let n = day_count(d) as i128 - day_count(Date { year: 1970, month: 1, day: 1 }) as i128;
    e - 2 <= n && n <= e + 2
}

impl Stamp {
    /// Whether the stamp holds its working day for every hour a day may
    /// start at, each the date of the moment that many hours before it.
    pub closed spec fn dated(self) -> bool {
        &&& self.days@.len() == 24
        &&& forall|h: int|
            0 <= h < 24 ==> valid(#[trigger] self.days@[h]) && near_day(self.days@[h], moment_before(self.instant as int, h))
    }

    /// The working day the stamp holds for a day that starts `hours`
    /// hours after midnight, where it holds one.
    pub closed spec fn day_from(self, hours: int) -> Option<Date> {
        if self.dated() && 0 <= hours < 24 {
            Some(self.days@[hours])
        } else {
            None
        }
    }

    /// A stamp that holds its working days holds one for every hour a day
    /// may start at.
    pub proof fn lemma_dated_day(self, hours: int)
        requires
            self.dated(),
            0 <= hours < 24,
        ensures
            self.day_from(hours) is Some,
    {
    }

    /// The instant a zoned value names, with its working day for each
    /// hour a day may start at.
    pub fn of(zoned: Zoned) -> (stamp: Stamp)
        ensures
            stamp.dated(),
    {
        let instant = instant_of(&zoned);
        let bare = Stamp { instant, zoned, days: Vec::new() };
        let mut days: Vec<Date> = Vec::new();
        let mut h: u8 = 0;
        while h < 24
            invariant
                h <= 24,
                days@.len() == h,
                bare@ == instant,
                forall|k: int| 0 <= k < h ==> valid(#[trigger] days@[k]) && near_day(days@[k], moment_before(instant as int, k)),
            decreases 24 - h,
        {
            let d = date_hours_before(&bare, h);
            days.push(d);
            h = h + 1;
        }
        Stamp { instant: bare.instant, zoned: bare.zoned, days }
    }

    /// The zoned value the instant was read from.
    pub fn zoned(&self) -> &Zoned {
        &self.zoned
    }

    /// The moment, in nanoseconds since the Unix epoch.
    pub fn instant(&self) -> (nanos: i128)
        ensures
            nanos == self@,
    {
        self.instant
    }

    /// The same instant, as a value of its own.
    pub fn copy(&self) -> (stamp: Stamp)
        ensures
            stamp@ == self@,
            forall|h: int| stamp.day_from(h) == self.day_from(h),
            stamp.dated() == self.dated(),
    {
        let mut days: Vec<Date> = Vec::new();
        let mut i: usize = 0;
        while i < self.days.len()
            invariant
                i <= self.days@.len(),
                days@ == self.days@.subrange(0, i as int),
            decreases self.days@.len() - i,
        {
            days.push(self.days[i]);
            i = i + 1;
            proof {
                assert(days@ =~= self.days@.subrange(0, i as int));
            }
        }
        proof {
            assert(days@ =~= self.days@);
        }
        Stamp { instant: self.instant, zoned: self.zoned.clone(), days }
    }

    /// Whether two instants name the same moment.
    pub fn same(&self, other: &Stamp) -> (same: bool)
        ensures
            same == (self@ == other@),
    {
        self.instant == other.instant
    }

    /// The date of the moment `hours` hours before this one, in this
    /// instant's own zone: the working day, when `hours` is the hour the
    /// day starts at.
    pub fn date_before(&self, hours: u8) -> (date: Date)
        ensures
            valid(date),
            near_day(date, moment_before(self@, hours as int)),
            self.day_from(hours as int) matches Some(d) ==> date == d,
    {
        if hours < 24 && self.days.len() == 24 {
            let d = self.days[hours as usize];
            if holds_for(d, self.instant, hours) {
                return d;
            }
        }
        date_hours_before(self, hours)
    }
}

/// An optional instant, copied.
pub fn copy_stamp(stamp: &Option<Stamp>) -> (copy: Option<Stamp>)
    ensures
        opt_instant(copy) == opt_instant(*stamp),
{
    match stamp {
        Some(s) => Some(s.copy()),
        None => None,
    }
}

/// An optional instant as the moment it names.
pub open spec fn opt_instant(stamp: Option<Stamp>) -> Option<int> {
    match stamp {
        Some(s) => Some(s@),
        None => None,
    }
}

/// Whether two optional instants are the same.
pub fn same_stamp(a: &Option<Stamp>, b: &Option<Stamp>) -> (same: bool)
    ensures
        same == (opt_instant(*a) == opt_instant(*b)),
{
    match (a, b) {
        (Some(x), Some(y)) => x.same(y),
        (None, None) => true,
        _ => false,
    }
}

// ---- the calendar ----------------------------------------------------

/// A leap year of the Gregorian calendar.
pub open spec fn leap(year: int) -> bool {
    (year % 4 == 0 && year % 100 != 0) || year % 400 == 0
}

/// How many days a month has in a year.
pub open spec fn days_in(year: int, month: int) -> int {
    if month == 2 {
        if leap(year) {
            29
        } else {
            28
        }
    } else if month == 4 || month == 6 || month == 9 || month == 11 {
        30
    } else {
        31
    }
}

/// A date the calendar has: a year jiff can hold, a month, and a day of
/// that month.
pub open spec fn valid(date: Date) -> bool {
    &&& -9999 <= date.year <= 9999
    &&& 1 <= date.month <= 12
    &&& 1 <= date.day <= days_in(date.year as int, date.month as int)
}

/// The day after a date, where the calendar has one.
pub open spec fn next_day(date: Date) -> Option<Date> {
    if (date.day as int) < days_in(date.year as int, date.month as int) {
        Some(Date { day: (date.day + 1) as u8, ..date })
    } else if date.month < 12 {
        Some(Date { month: (date.month + 1) as u8, day: 1, ..date })
    } else if date.year < 9999 {
        Some(Date { year: (date.year + 1) as i16, month: 1, day: 1 })
    } else {
        None
    }
}

/// Whether a date comes before another on the calendar.
pub open spec fn earlier_date(a: Date, b: Date) -> bool {
    a.year < b.year || (a.year == b.year && (a.month < b.month || (a.month == b.month && a.day < b.day)))
}

/// A count of days that goes up by one from each day to the next, the
/// same count for every date whatever its year: the days since a fixed
/// day of the proleptic Gregorian calendar, with the year moved on by a
/// whole number of 400-year cycles so that every number divided is
/// positive.
pub open spec fn day_number(date: Date) -> int {
    let m = date.month as int;
    let y = date.year as int + 40000 - (if m <= 2 { 1int } else { 0int });
    let era = y / 400;
    let yoe = y - era * 400;
    let mp = (m + 9) % 12;
    let doy = (153 * mp + 2) / 5 + date.day as int - 1;
    era * 146097 + yoe * 365 + yoe / 4 - yoe / 100 + doy
}

/// How many days a month has.
pub fn days_in_month(year: i16, month: u8) -> (n: u8)
    ensures
        n == days_in(year as int, month as int),
{
    if month == 2 {
        if (year % 4 == 0 && year % 100 != 0) || year % 400 == 0 {
            29
        } else {
            28
        }
    } else if month == 4 || month == 6 || month == 9 || month == 11 {
        30
    } else {
        31
    }
}

/// The day after a date, or nothing at the end of the calendar.
pub fn tomorrow(date: Date) -> (next: Option<Date>)
    ensures
        next == next_day(date),
        valid(date) ==> (next matches Some(d) ==> valid(d)),
{
    let last = days_in_month(date.year, date.month);
    if date.day < last {
        Some(Date { day: date.day + 1, ..date })
    } else if date.month < 12 {
        Some(Date { month: date.month + 1, day: 1, ..date })
    } else if date.year < 9999 {
        Some(Date { year: date.year + 1, month: 1, day: 1 })
    } else {
        None
    }
}

/// Whether a date comes before another.
pub fn is_earlier(a: Date, b: Date) -> (r: bool)
    ensures
        r == earlier_date(a, b),
{
    a.year < b.year || (a.year == b.year && (a.month < b.month || (a.month == b.month && a.day < b.day)))
}

/// The count of days is a small positive number for every date.
pub proof fn lemma_day_number_bounds(date: Date)
    ensures
        0 <= day_number(date) < 30_000_000,
{
    let m = date.month as int;
    let y = date.year as int + 40000 - (if m <= 2 { 1int } else { 0int });
    let era = y / 400;
    let yoe = y - era * 400;
    let mp = (m + 9) % 12;
    let doy = (153 * mp + 2) / 5 + date.day as int - 1;
    assert(0 <= yoe < 400) by (nonlinear_arith)
        requires
            y >= 0,
            era == y / 400,
            yoe == y - era * 400,
    ;
    assert(18 <= era <= 200) by (nonlinear_arith)
        requires
            7200 <= y <= 80000,
            era == y / 400,
    ;
    assert(0 <= (153 * mp + 2) / 5 <= 400) by (nonlinear_arith)
        requires
            0 <= mp < 12,
    ;
    assert(18 * 146097 <= era * 146097 <= 200 * 146097) by (nonlinear_arith)
        requires
            18 <= era <= 200,
    ;
}

/// The count of days `day_number` says.
pub fn day_count(date: Date) -> (n: i64)
    ensures
        n == day_number(date),
        0 <= n < 30_000_000,
{
    proof {
        lemma_day_number_bounds(date);
    }
    let m = date.month as i64;
    let y: i64 = date.year as i64 + 40000 - (if m <= 2 { 1i64 } else { 0i64 });
    let era = y / 400;
    let yoe = y - era * 400;
    let mp = (m + 9) % 12;
    let doy = (153 * mp + 2) / 5 + date.day as i64 - 1;
    assert(0 <= yoe < 400) by (nonlinear_arith)
        requires
            y >= 0,
            era == y / 400,
            yoe == y - era * 400,
    ;
    assert(0 <= era <= 200) by (nonlinear_arith)
        requires
            0 <= y <= 80000,
            era == y / 400,
    ;
    assert(0 <= (153 * mp + 2) / 5 <= 400) by (nonlinear_arith)
        requires
            0 <= mp < 12,
    ;
    assert(-1 <= doy <= 1000);
    assert(era * 146097 <= 200 * 146097) by (nonlinear_arith)
        requires
            0 <= era <= 200,
    ;
    era * 146097 + yoe * 365 + yoe / 4 - yoe / 100 + doy
}

// ---- dates as text ---------------------------------------------------

/// The date jiff reads a text as, by its ISO 8601 grammar, or nothing.
pub uninterp spec fn civil_date_of(text: Seq<char>) -> Option<Date>;

/// A number's decimal digits, with zeros before them up to `width`.
pub open spec fn zero_padded(n: nat, width: nat) -> Seq<char> {
    let d = decimal(n);
    Seq::new(if d.len() < width { (width - d.len()) as nat } else { 0 }, |i: int| '0') + d
}

/// The text jiff writes a date as: the year in four digits, with `-00`
/// before the digits of a year before the year 0, then the month and the
/// day in two digits each, the three joined by hyphens.
pub open spec fn civil_date_text(date: Date) -> Seq<char> {
    let y = date.year as int;
    (if y < 0 { seq!['-', '0', '0'] } else { Seq::empty() }) + zero_padded(
        (if y < 0 { -y } else { y }) as nat,
        4,
    ) + seq!['-'] + zero_padded(date.month as nat, 2) + seq!['-'] + zero_padded(date.day as nat, 2)
}

/// `str::parse::<jiff::civil::Date>`: the date a text writes, read the
/// way jiff reads one, or nothing. What it reads is named, and a date it
/// gives back is a date of the calendar, as every jiff date is.
#[verifier::external_body]
pub fn parse_civil_date(text: &str) -> (date: Option<Date>)
    ensures
        date == civil_date_of(text@),
        date matches Some(d) ==> valid(d),
{
    match text.parse::<jiff::civil::Date>() {
        Ok(d) => Some(Date { year: d.year(), month: d.month() as u8, day: d.day() as u8 }),
        Err(_) => None,
    }
}

/// `<jiff::civil::Date as Display>::to_string`, of the date
/// `jiff::civil::date` makes from the three numbers: the date as jiff
/// writes it, which jiff reads back as the same date.
#[verifier::external_body]
pub fn civil_date_string(date: Date) -> (text: String)
    requires
        valid(date),
    ensures
        text@ == civil_date_text(date),
        civil_date_of(text@) == Some(date),
{
    jiff::civil::date(date.year, date.month as i8, date.day as i8).to_string()
}

// ---- the day of the week ---------------------------------------------

/// The weekday of a date, Sunday as 0, by the count of days since a
/// fixed Sunday (Sakamoto's rule). The year is moved on by a whole number
/// of 400-year cycles, which the week repeats over, so that every number
/// the rule divides is positive.
pub open spec fn weekday_number(date: Date) -> int {
    let m = date.month as int;
    let y = date.year as int + 40000 - (if m < 3 { 1int } else { 0int });
    let t = seq![0int, 3, 2, 5, 0, 3, 5, 1, 4, 6, 2, 4];
    let shift = if 1 <= m <= 12 { t[m - 1] } else { 0 };
    (y + y / 4 - y / 100 + y / 400 + shift + date.day as int) % 7
}

pub open spec fn weekday_of(date: Date) -> Weekday {
    let n = weekday_number(date);
    if n == 0 {
        Weekday::Sun
    } else if n == 1 {
        Weekday::Mon
    } else if n == 2 {
        Weekday::Tue
    } else if n == 3 {
        Weekday::Wed
    } else if n == 4 {
        Weekday::Thu
    } else if n == 5 {
        Weekday::Fri
    } else {
        Weekday::Sat
    }
}

/// The day of the week a date falls on.
pub fn weekday(date: Date) -> (day: Weekday)
    ensures
        day == weekday_of(date),
{
    let m = date.month as i64;
    let y: i64 = date.year as i64 + 40000 - (if m < 3 { 1i64 } else { 0i64 });
    let shift: i64 = if m == 1 {
        0
    } else if m == 2 {
        3
    } else if m == 3 {
        2
    } else if m == 4 {
        5
    } else if m == 5 {
        0
    } else if m == 6 {
        3
    } else if m == 7 {
        5
    } else if m == 8 {
        1
    } else if m == 9 {
        4
    } else if m == 10 {
        6
    } else if m == 11 {
        2
    } else if m == 12 {
        4
    } else {
        0
    };
    let n = (y + y / 4 - y / 100 + y / 400 + shift + date.day as i64) % 7;
    if n == 0 {
        Weekday::Sun
    } else if n == 1 {
        Weekday::Mon
    } else if n == 2 {
        Weekday::Tue
    } else if n == 3 {
        Weekday::Wed
    } else if n == 4 {
        Weekday::Thu
    } else if n == 5 {
        Weekday::Fri
    } else {
        Weekday::Sat
    }
}

// ---- labels ----------------------------------------------------------

pub open spec fn weekday_short(day: Weekday) -> Seq<char> {
    match day {
        Weekday::Mon => "Mon"@,
        Weekday::Tue => "Tue"@,
        Weekday::Wed => "Wed"@,
        Weekday::Thu => "Thu"@,
        Weekday::Fri => "Fri"@,
        Weekday::Sat => "Sat"@,
        Weekday::Sun => "Sun"@,
    }
}

pub open spec fn month_short(month: u8) -> Seq<char> {
    if month == 1 {
        "Jan"@
    } else if month == 2 {
        "Feb"@
    } else if month == 3 {
        "Mar"@
    } else if month == 4 {
        "Apr"@
    } else if month == 5 {
        "May"@
    } else if month == 6 {
        "Jun"@
    } else if month == 7 {
        "Jul"@
    } else if month == 8 {
        "Aug"@
    } else if month == 9 {
        "Sep"@
    } else if month == 10 {
        "Oct"@
    } else if month == 11 {
        "Nov"@
    } else {
        "Dec"@
    }
}

fn weekday_text(day: Weekday) -> (text: &'static str)
    ensures
        text@ == weekday_short(day),
{
    match day {
        Weekday::Mon => "Mon",
        Weekday::Tue => "Tue",
        Weekday::Wed => "Wed",
        Weekday::Thu => "Thu",
        Weekday::Fri => "Fri",
        Weekday::Sat => "Sat",
        Weekday::Sun => "Sun",
    }
}

fn month_text(month: u8) -> (text: &'static str)
    ensures
        text@ == month_short(month),
{
    if month == 1 {
        "Jan"
    } else if month == 2 {
        "Feb"
    } else if month == 3 {
        "Mar"
    } else if month == 4 {
        "Apr"
    } else if month == 5 {
        "May"
    } else if month == 6 {
        "Jun"
    } else if month == 7 {
        "Jul"
    } else if month == 8 {
        "Aug"
    } else if month == 9 {
        "Sep"
    } else if month == 10 {
        "Oct"
    } else if month == 11 {
        "Nov"
    } else {
        "Dec"
    }
}

/// A day as the hint bar and the lists write it: the weekday, then the
/// day and the month in the order the locale reads them, as in
/// "Fri 5 Sep" or "Fri Sep 5".
pub open spec fn day_label_of(date: Date, order: DateOrder) -> Seq<char> {
    let day = decimal(date.day as nat);
    let month = month_short(date.month);
    weekday_short(weekday_of(date)) + " "@ + match order {
        DateOrder::DayFirst => day + " "@ + month,
        DateOrder::MonthFirst => month + " "@ + day,
    }
}

/// A day, written the way `day_label_of` says.
pub fn day_label(date: Date, order: DateOrder) -> (label: Vec<char>)
    ensures
        label@ == day_label_of(date, order),
{
    let mut label: Vec<char> = Vec::new();
    append_str(&mut label, weekday_text(weekday(date)));
    append_str(&mut label, " ");
    let day = decimal_of(date.day as u64);
    match order {
        DateOrder::DayFirst => {
            append_all(&mut label, day.as_slice());
            append_str(&mut label, " ");
            append_str(&mut label, month_text(date.month));
        },
        DateOrder::MonthFirst => {
            append_str(&mut label, month_text(date.month));
            append_str(&mut label, " ");
            append_all(&mut label, day.as_slice());
        },
    }
    proof {
        reveal_strlit(" ");
    }
    assert(label@ =~= day_label_of(date, order));
    label
}


/// The days from the fixed day of `day_number` to the first of March of
/// a year counted as `day_number` counts it.
spec fn days_to_march(y: int) -> int {
    let era = y / 400;
    let yoe = y - era * 400;
    era * 146097 + yoe * 365 + yoe / 4 - yoe / 100
}

/// From one first of March to the next are the days of the year between,
/// 366 where February of the later calendar year has 29 days.
proof fn lemma_march_to_march(year: int)
    requires
        -9999 <= year <= 9999,
    ensures
        days_to_march(year + 40000) == days_to_march(year + 40000 - 1) + 337 + days_in(year, 2),
{
    let y = year + 40000 - 1;
    let e = y / 400;
    let r = y % 400;
    vstd::arithmetic::div_mod::lemma_fundamental_div_mod(y, 400);
    assert(0 <= r < 400);
    assert(y - e * 400 == r);
    let k = e - 100;
    assert(year == k * 400 + r + 1);
    if r < 399 {
        vstd::arithmetic::div_mod::lemma_fundamental_div_mod_converse_div(y + 1, 400, e, r + 1);
        assert((y + 1) / 400 == e);
        vstd::arithmetic::div_mod::lemma_mod_multiples_vanish(k * 100, r + 1, 4);
        vstd::arithmetic::div_mod::lemma_mod_multiples_vanish(k * 4, r + 1, 100);
        vstd::arithmetic::div_mod::lemma_mod_multiples_vanish(k, r + 1, 400);
        assert(year % 4 == (r + 1) % 4) by {
            assert(year == 4 * (k * 100) + (r + 1)) by (nonlinear_arith)
                requires
                    year == k * 400 + r + 1,
            ;
        }
        assert(year % 100 == (r + 1) % 100) by {
            assert(year == 100 * (k * 4) + (r + 1)) by (nonlinear_arith)
                requires
                    year == k * 400 + r + 1,
            ;
        }
        assert(year % 400 == (r + 1) % 400) by {
            assert(year == 400 * k + (r + 1)) by (nonlinear_arith)
                requires
                    year == k * 400 + r + 1,
            ;
        }
    } else {
        vstd::arithmetic::div_mod::lemma_fundamental_div_mod_converse_div(y + 1, 400, e + 1, 0);
        assert((y + 1) / 400 == e + 1);
        vstd::arithmetic::div_mod::lemma_mod_multiples_vanish(k + 1, 0, 400);
        assert(year == 400 * (k + 1) + 0) by (nonlinear_arith)
            requires
                year == k * 400 + r + 1,
                r == 399,
        ;
        assert(year % 400 == 0);
        assert(days_to_march(y + 1) == (e + 1) * 146097) by (nonlinear_arith)
            requires
                (y + 1) / 400 == e + 1,
                y + 1 == (e + 1) * 400,
        ;
        assert(days_to_march(y) == e * 146097 + 399 * 365 + 99 - 3);
    }
}

/// The day after a date is counted one more.
pub proof fn lemma_next_day_counts(date: Date)
    requires
        valid(date),
    ensures
        next_day(date) matches Some(n) ==> valid(n) && day_number(n) == day_number(date) + 1,
{
    if (date.day as int) < days_in(date.year as int, date.month as int) {
    } else if date.month == 2 {
        lemma_march_to_march(date.year as int);
    } else if date.month < 12 {
    } else {
    }
}

} // verus!
