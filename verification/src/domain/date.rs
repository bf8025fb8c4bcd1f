//! Reading a date somebody typed into the date card.
//!
//! The card is the one place a date is written rather than picked. A date
//! with no year is the next one that has not passed; nothing else is
//! guessed, and what cannot be read is nothing.

use vstd::prelude::*;

use super::dictionary::{lowercase, lowercase_of};
use super::rule::{nth_day, Weekday};
use super::time::{
    day_number, days_in, days_in_month, earlier_date, is_earlier, next_day, parse_civil_date, civil_date_of,
    tomorrow, valid, weekday, weekday_of, Date,
};
use crate::text::{
    chars_of, integer_of, is, lemma_views_push, parse_i64, parse_u8, same, slice_of, string_of,
    trim, trimmed, views,
};

verus! {

// ---- counting days ---------------------------------------------------

/// The day before a date, where the calendar has one.
pub open spec fn prev_day(date: Date) -> Option<Date> {
    if date.day > 1 {
        Some(Date { day: (date.day - 1) as u8, ..date })
    } else if date.month > 1 {
        Some(
            Date {
                month: (date.month - 1) as u8,
                day: days_in(date.year as int, date.month - 1) as u8,
                ..date
            },
        )
    } else if date.year > -9999 {
        Some(Date { year: (date.year - 1) as i16, month: 12, day: 31 })
    } else {
        None
    }
}

/// The day `n` days before a date, where the calendar reaches it.
pub open spec fn nth_day_before(date: Date, n: nat) -> Option<Date>
    decreases n,
{
    if n == 0 {
        Some(date)
    } else {
        match nth_day_before(date, (n - 1) as nat) {
            Some(d) => prev_day(d),
            None => None,
        }
    }
}

/// The day a whole number of days away, later for a positive count and
/// earlier for a negative one, where the calendar reaches it.
pub open spec fn shifted(date: Date, days: int) -> Option<Date> {
    if days >= 0 {
        nth_day(date, days as nat)
    } else {
        nth_day_before(date, (-days) as nat)
    }
}

/// The day before a date, or nothing at the start of the calendar.
pub fn yesterday(date: Date) -> (prev: Option<Date>)
    ensures
        prev == prev_day(date),
        valid(date) ==> (prev matches Some(d) ==> valid(d)),
{
    if date.day > 1 {
        Some(Date { day: date.day - 1, ..date })
    } else if date.month > 1 {
        let last = days_in_month(date.year, date.month - 1);
        Some(Date { month: date.month - 1, day: last, ..date })
    } else if date.year > -9999 {
        Some(Date { year: date.year - 1, month: 12, day: 31 })
    } else {
        None
    }
}

proof fn lemma_after_ends(date: Date, a: nat, b: nat)
    requires
        a <= b,
        nth_day(date, a) is None,
    ensures
        nth_day(date, b) is None,
    decreases b - a,
{
    if a < b {
        lemma_after_ends(date, a, (b - 1) as nat);
    }
}

proof fn lemma_before_ends(date: Date, a: nat, b: nat)
    requires
        a <= b,
        nth_day_before(date, a) is None,
    ensures
        nth_day_before(date, b) is None,
    decreases b - a,
{
    if a < b {
        lemma_before_ends(date, a, (b - 1) as nat);
    }
}

/// The day `n` days after a date.
fn days_after(date: Date, n: u64) -> (r: Option<Date>)
    requires
        valid(date),
    ensures
        r == nth_day(date, n as nat),
        r matches Some(d) ==> valid(d),
{
    let mut cur = date;
    let mut i: u64 = 0;
    while i < n
        invariant
            i <= n,
            nth_day(date, i as nat) == Some(cur),
            valid(cur),
        decreases n - i,
    {
        match tomorrow(cur) {
            Some(d) => {
                cur = d;
                i = i + 1;
            },
            None => {
                proof {
                    assert(nth_day(date, (i + 1) as nat) is None);
                    lemma_after_ends(date, (i + 1) as nat, n as nat);
                }
                return None;
            },
        }
    }
    Some(cur)
}

/// The day `n` days before a date.
fn days_before(date: Date, n: u64) -> (r: Option<Date>)
    requires
        valid(date),
    ensures
        r == nth_day_before(date, n as nat),
        r matches Some(d) ==> valid(d),
{
    let mut cur = date;
    let mut i: u64 = 0;
    while i < n
        invariant
            i <= n,
            nth_day_before(date, i as nat) == Some(cur),
            valid(cur),
        decreases n - i,
    {
        match yesterday(cur) {
            Some(d) => {
                cur = d;
                i = i + 1;
            },
            None => {
                proof {
                    assert(nth_day_before(date, (i + 1) as nat) is None);
                    lemma_before_ends(date, (i + 1) as nat, n as nat);
                }
                return None;
            },
        }
    }
    Some(cur)
}

/// The day a whole number of days away.
fn shift(date: Date, days: i64) -> (r: Option<Date>)
    requires
        valid(date),
    ensures
        r == shifted(date, days as int),
        r matches Some(d) ==> valid(d),
{
    if days >= 0 {
        days_after(date, days as u64)
    } else {
        let back: u64 = if days == i64::MIN {
            0x8000_0000_0000_0000
        } else {
            (-days) as u64
        };
        days_before(date, back)
    }
}

// ---- names -----------------------------------------------------------

pub open spec fn month_names() -> Seq<Seq<char>> {
    seq![
        "january"@,
        "february"@,
        "march"@,
        "april"@,
        "may"@,
        "june"@,
        "july"@,
        "august"@,
        "september"@,
        "october"@,
        "november"@,
        "december"@,
    ]
}

pub open spec fn weekday_names() -> Seq<Seq<char>> {
    seq!["monday"@, "tuesday"@, "wednesday"@, "thursday"@, "friday"@, "saturday"@, "sunday"@]
}

/// Whether a text is a name, written out or cut to its first three
/// letters.
pub open spec fn names(text: Seq<char>, name: Seq<char>) -> bool {
    name == text || (text.len() == 3 && name.len() >= 3 && name.subrange(0, 3) == text)
}

/// The first of the names a text is, counted from 0.
pub open spec fn named(text: Seq<char>, all: Seq<Seq<char>>) -> Option<int> {
    if exists|i: int| 0 <= i < all.len() && names(text, #[trigger] all[i]) {
        Some(choose|i: int| 0 <= i < all.len() && names(text, all[i]) && forall|j: int| 0 <= j < i ==> !names(text, #[trigger] all[j]))
    } else {
        None
    }
}

/// The month a text names, from 1, or nothing.
pub open spec fn month_of(text: Seq<char>) -> Option<u8> {
    match named(text, month_names()) {
        Some(i) => Some((i + 1) as u8),
        None => None,
    }
}

pub open spec fn week_order() -> Seq<Weekday> {
    seq![
        Weekday::Mon,
        Weekday::Tue,
        Weekday::Wed,
        Weekday::Thu,
        Weekday::Fri,
        Weekday::Sat,
        Weekday::Sun,
    ]
}

/// The weekday a text names, or nothing.
pub open spec fn weekday_named(text: Seq<char>) -> Option<Weekday> {
    match named(text, weekday_names()) {
        Some(i) => Some(week_order()[i]),
        None => None,
    }
}

fn month_name(i: usize) -> (r: &'static str)
    requires
        i < 12,
    ensures
        r@ == month_names()[i as int],
{
    if i == 0 {
        "january"
    } else if i == 1 {
        "february"
    } else if i == 2 {
        "march"
    } else if i == 3 {
        "april"
    } else if i == 4 {
        "may"
    } else if i == 5 {
        "june"
    } else if i == 6 {
        "july"
    } else if i == 7 {
        "august"
    } else if i == 8 {
        "september"
    } else if i == 9 {
        "october"
    } else if i == 10 {
        "november"
    } else {
        "december"
    }
}

fn weekday_name(i: usize) -> (r: &'static str)
    requires
        i < 7,
    ensures
        r@ == weekday_names()[i as int],
{
    if i == 0 {
        "monday"
    } else if i == 1 {
        "tuesday"
    } else if i == 2 {
        "wednesday"
    } else if i == 3 {
        "thursday"
    } else if i == 4 {
        "friday"
    } else if i == 5 {
        "saturday"
    } else {
        "sunday"
    }
}

fn day_at(i: usize) -> (r: Weekday)
    requires
        i < 7,
    ensures
        r == week_order()[i as int],
{
    if i == 0 {
        Weekday::Mon
    } else if i == 1 {
        Weekday::Tue
    } else if i == 2 {
        Weekday::Wed
    } else if i == 3 {
        Weekday::Thu
    } else if i == 4 {
        Weekday::Fri
    } else if i == 5 {
        Weekday::Sat
    } else {
        Weekday::Sun
    }
}

/// Whether the text is this name or its first three letters.
fn is_name(text: &[char], name: &str) -> (r: bool)
    ensures
        r == names(text@, name@),
{
    let n = chars_of(name);
    if same(n.as_slice(), text) {
        return true;
    }
    if text.len() == 3 && n.len() >= 3 {
        let head = slice_of(n.as_slice(), 0, 3);
        return same(head.as_slice(), text);
    }
    false
}

/// The month a text names.
fn month(text: &[char]) -> (r: Option<u8>)
    ensures
        r == month_of(text@),
{
    let ghost all = month_names();
    let mut i: usize = 0;
    while i < 12
        invariant
            i <= 12,
            all == month_names(),
            forall|j: int| 0 <= j < i ==> !names(text@, #[trigger] all[j]),
        decreases 12 - i,
    {
        if is_name(text, month_name(i)) {
            proof {
                let k = i as int;
                assert(0 <= k < all.len() && names(text@, all[k]));
                let c = choose|c: int| 0 <= c < all.len() && names(text@, all[c]) && forall|j: int| 0 <= j < c ==> !names(text@, #[trigger] all[j]);
                if c < k {
                    assert(!names(text@, all[c]));
                } else if c > k {
                    assert(!names(text@, all[k]));
                }
                assert(c == k);
            }
            return Some((i + 1) as u8);
        }
        i = i + 1;
    }
    proof {
        assert(!(exists|j: int| 0 <= j < all.len() && names(text@, #[trigger] all[j])));
    }
    None
}

/// The weekday a text names.
fn weekday_of_name(text: &[char]) -> (r: Option<Weekday>)
    ensures
        r == weekday_named(text@),
{
    let ghost all = weekday_names();
    let mut i: usize = 0;
    while i < 7
        invariant
            i <= 7,
            all == weekday_names(),
            forall|j: int| 0 <= j < i ==> !names(text@, #[trigger] all[j]),
        decreases 7 - i,
    {
        if is_name(text, weekday_name(i)) {
            proof {
                let k = i as int;
                assert(0 <= k < all.len() && names(text@, all[k]));
                let c = choose|c: int| 0 <= c < all.len() && names(text@, all[c]) && forall|j: int| 0 <= j < c ==> !names(text@, #[trigger] all[j]);
                if c < k {
                    assert(!names(text@, all[c]));
                } else if c > k {
                    assert(!names(text@, all[k]));
                }
                assert(c == k);
            }
            return Some(day_at(i));
        }
        i = i + 1;
    }
    proof {
        assert(!(exists|j: int| 0 <= j < all.len() && names(text@, #[trigger] all[j])));
    }
    None
}


// ---- the parts of a typed date ---------------------------------------

/// The characters that part a day, a month and a year.
pub open spec fn separator(c: char) -> bool {
    c == ' ' || c == '/' || c == '-' || c == '.' || c == ','
}

/// Reading a text from its start: the runs finished so far and the run
/// being read.
pub open spec fn scan(s: Seq<char>) -> (Seq<Seq<char>>, Seq<char>)
    decreases s.len(),
{
    if s.len() == 0 {
        (Seq::empty(), Seq::empty())
    } else {
        let (done, run) = scan(s.drop_last());
        if separator(s.last()) {
            if run.len() > 0 {
                (done.push(run), Seq::empty())
            } else {
                (done, run)
            }
        } else {
            (done, run.push(s.last()))
        }
    }
}

/// The runs of characters between separators, in order, empty runs left
/// out.
pub open spec fn parts_of(s: Seq<char>) -> Seq<Seq<char>> {
    let (done, run) = scan(s);
    if run.len() > 0 {
        done.push(run)
    } else {
        done
    }
}

fn is_separator(c: char) -> (r: bool)
    ensures
        r == separator(c),
{
    c == ' ' || c == '/' || c == '-' || c == '.' || c == ','
}

/// The parts of a typed date.
fn split_parts(s: &[char]) -> (r: Vec<Vec<char>>)
    ensures
        views(r@) == parts_of(s@),
{
    let mut done: Vec<Vec<char>> = Vec::new();
    let mut run: Vec<char> = Vec::new();
    let mut i: usize = 0;
    while i < s.len()
        invariant
            i <= s@.len(),
            scan(s@.subrange(0, i as int)) == (views(done@), run@),
        decreases s@.len() - i,
    {
        let ghost before = s@.subrange(0, i as int);
        proof {
            assert(s@.subrange(0, i + 1).drop_last() =~= before);
            assert(s@.subrange(0, i + 1).last() == s@[i as int]);
        }
        if is_separator(s[i]) {
            if run.len() > 0 {
                let finished = run;
                proof {
                    lemma_views_push(done@, finished);
                }
                done.push(finished);
                run = Vec::new();
                proof {
                    assert(run@ =~= Seq::<char>::empty());
                }
            }
        } else {
            run.push(s[i]);
        }
        i = i + 1;
    }
    proof {
        assert(s@.subrange(0, s@.len() as int) =~= s@);
    }
    if run.len() > 0 {
        let last = run;
        proof {
            lemma_views_push(done@, last);
        }
        done.push(last);
    }
    done
}

/// A small whole number the way `str::parse::<u8>` reads one.
pub open spec fn number_of(s: Seq<char>) -> Option<u8> {
    match integer_of(s) {
        Some(v) => if s[0] != '-' && 0 <= v <= 255 {
            Some(v as u8)
        } else {
            None
        },
        None => None,
    }
}

/// A whole number the way `str::parse::<i64>` reads one.
pub open spec fn count_of(s: Seq<char>) -> Option<int> {
    match integer_of(s) {
        Some(v) => if i64::MIN <= v <= i64::MAX {
            Some(v)
        } else {
            None
        },
        None => None,
    }
}

/// A year the way `str::parse::<i16>` reads one.
pub open spec fn year_of(s: Seq<char>) -> Option<i16> {
    match integer_of(s) {
        Some(v) => if i16::MIN <= v <= i16::MAX {
            Some(v as i16)
        } else {
            None
        },
        None => None,
    }
}

/// The day and the month of a pair, whichever way round it was written;
/// two numbers are the day first.
pub open spec fn day_and_month_of(one: Seq<char>, other: Seq<char>) -> Option<(u8, u8)> {
    match month_of(one) {
        Some(m) => match number_of(other) {
            Some(d) => Some((d, m)),
            None => None,
        },
        None => match month_of(other) {
            Some(m) => match number_of(one) {
                Some(d) => Some((d, m)),
                None => None,
            },
            None => match (number_of(one), number_of(other)) {
                (Some(d), Some(m)) => Some((d, m)),
                _ => None,
            },
        },
    }
}

/// The first date on or after `today` that is the day `day` of a month,
/// looking at `left` months from `year` and `month` on.
pub open spec fn day_in_months(day: u8, today: Date, year: int, month: int, left: nat) -> Option<Date>
    decreases left,
{
    if left == 0 || year > 9999 {
        None
    } else {
        let d = Date { year: year as i16, month: month as u8, day };
        if valid(d) && !earlier_date(d, today) {
            Some(d)
        } else if month >= 12 {
            day_in_months(day, today, year + 1, 1, (left - 1) as nat)
        } else {
            day_in_months(day, today, year, month + 1, (left - 1) as nat)
        }
    }
}

/// The next day with that number, this month or one of the eleven after,
/// skipping the months too short to have it.
pub open spec fn day_of_a_month_of(day: u8, today: Date) -> Option<Date> {
    day_in_months(day, today, today.year as int, today.month as int, 12)
}

/// The first such day and month that has not passed: this year's or
/// next year's.
pub open spec fn not_yet_gone(day: u8, month: u8, today: Date) -> Option<Date> {
    let d = Date { year: today.year, month, day };
    let e = Date { year: (today.year + 1) as i16, month, day };
    if valid(d) && !earlier_date(d, today) {
        Some(d)
    } else if valid(e) {
        Some(e)
    } else {
        None
    }
}

/// The date the parts of a typed date write.
pub open spec fn date_of_parts(parts: Seq<Seq<char>>, today: Date) -> Option<Date> {
    if parts.len() == 1 {
        match number_of(parts[0]) {
            Some(d) => day_of_a_month_of(d, today),
            None => None,
        }
    } else if parts.len() == 2 {
        match day_and_month_of(parts[0], parts[1]) {
            Some((d, m)) => not_yet_gone(d, m, today),
            None => None,
        }
    } else if parts.len() == 3 {
        match (day_and_month_of(parts[0], parts[1]), year_of(parts[2])) {
            (Some((d, m)), Some(y)) => {
                let x = Date { year: y, month: m, day: d };
                if valid(x) {
                    Some(x)
                } else {
                    None
                }
            },
            _ => None,
        }
    } else {
        None
    }
}

/// The first of the seven days after `today` that falls on a weekday.
pub open spec fn first_on(today: Date, day: Weekday, n: nat) -> Option<Date>
    decreases n,
{
    if n == 0 {
        None
    } else {
        match first_on(today, day, (n - 1) as nat) {
            Some(d) => Some(d),
            None => match nth_day(today, n) {
                Some(d) => if weekday_of(d) == day {
                    Some(d)
                } else {
                    None
                },
                None => None,
            },
        }
    }
}

/// What a typed line means on the day it was typed: a count of days
/// ahead after `+` or back after `-`, "today", "tomorrow", the next
/// weekday of that name (never today itself), a date written out the way
/// jiff reads one, or a day, a day and a month, or a day, a month and a
/// year; a date with no year is the next one that has not passed.
/// Whatever else it is, or a date the calendar does not have, is nothing.
pub open spec fn typed_date(text: Seq<char>, today: Date) -> Option<Date> {
    let t = lowercase_of(trimmed(text));
    let rest = trimmed(t.drop_first());
    if t.len() == 0 {
        None
    } else if t[0] == '+' {
        match count_of(rest) {
            Some(n) => shifted(today, n),
            None => None,
        }
    } else if t[0] == '-' && count_of(rest) is Some {
        shifted(today, -(count_of(rest)->Some_0))
    } else if t == "today"@ {
        Some(today)
    } else if t == "tomorrow"@ {
        next_day(today)
    } else if weekday_named(t) is Some {
        first_on(today, weekday_named(t)->Some_0, 7)
    } else if civil_date_of(t) is Some {
        civil_date_of(t)
    } else {
        date_of_parts(parts_of(t), today)
    }
}

fn calendar_has(d: Date) -> (r: bool)
    ensures
        r == valid(d),
{
    -9999 <= d.year && d.year <= 9999 && 1 <= d.month && d.month <= 12 && 1 <= d.day && d.day
        <= days_in_month(d.year, d.month)
}

fn year(s: &[char]) -> (r: Option<i16>)
    ensures
        r == year_of(s@),
{
    match parse_i64(s) {
        Some(v) => if -32768 <= v && v <= 32767 {
            Some(v as i16)
        } else {
            None
        },
        None => None,
    }
}

fn day_and_month(one: &[char], other: &[char]) -> (r: Option<(u8, u8)>)
    ensures
        r == day_and_month_of(one@, other@),
{
    match month(one) {
        Some(m) => match parse_u8(other) {
            Some(d) => Some((d, m)),
            None => None,
        },
        None => match month(other) {
            Some(m) => match parse_u8(one) {
                Some(d) => Some((d, m)),
                None => None,
            },
            None => match (parse_u8(one), parse_u8(other)) {
                (Some(d), Some(m)) => Some((d, m)),
                _ => None,
            },
        },
    }
}

/// The next day of the month with that number.
fn day_of_a_month(day: u8, today: Date) -> (r: Option<Date>)
    requires
        valid(today),
    ensures
        r == day_of_a_month_of(day, today),
        r matches Some(d) ==> valid(d),
{
    let mut year = today.year;
    let mut month = today.month;
    let mut k: u8 = 0;
    while k < 12
        invariant
            k <= 12,
            -9999 <= year <= 9999,
            1 <= month <= 12,
            day_of_a_month_of(day, today) == day_in_months(
                day,
                today,
                year as int,
                month as int,
                (12 - k) as nat,
            ),
        decreases 12 - k,
    {
        let d = Date { year, month, day };
        if calendar_has(d) && !is_earlier(d, today) {
            return Some(d);
        }
        if month == 12 {
            if year == 9999 {
                assert(day_in_months(day, today, year as int + 1, 1, (12 - k - 1) as nat) is None);
                return None;
            }
            year = year + 1;
            month = 1;
        } else {
            month = month + 1;
        }
        k = k + 1;
    }
    None
}

/// The first such day and month that has not passed.
fn in_a_year_not_yet_gone(day: u8, month: u8, today: Date) -> (r: Option<Date>)
    requires
        valid(today),
    ensures
        r == not_yet_gone(day, month, today),
        r matches Some(d) ==> valid(d),
{
    let d = Date { year: today.year, month, day };
    if calendar_has(d) && !is_earlier(d, today) {
        return Some(d);
    }
    let e = Date { year: today.year + 1, month, day };
    if calendar_has(e) {
        Some(e)
    } else {
        None
    }
}

fn by_parts(parts: &Vec<Vec<char>>, today: Date) -> (r: Option<Date>)
    requires
        valid(today),
    ensures
        r == date_of_parts(views(parts@), today),
        r matches Some(d) ==> valid(d),
{
    let ghost p = views(parts@);
    if parts.len() == 1 {
        assert(p[0] == parts@[0]@);
        match parse_u8(parts[0].as_slice()) {
            Some(d) => day_of_a_month(d, today),
            None => None,
        }
    } else if parts.len() == 2 {
        assert(p[0] == parts@[0]@ && p[1] == parts@[1]@);
        match day_and_month(parts[0].as_slice(), parts[1].as_slice()) {
            Some((d, m)) => in_a_year_not_yet_gone(d, m, today),
            None => None,
        }
    } else if parts.len() == 3 {
        assert(p[0] == parts@[0]@ && p[1] == parts@[1]@ && p[2] == parts@[2]@);
        match (day_and_month(parts[0].as_slice(), parts[1].as_slice()), year(parts[2].as_slice())) {
            (Some((d, m)), Some(y)) => {
                let x = Date { year: y, month: m, day: d };
                if calendar_has(x) {
                    Some(x)
                } else {
                    None
                }
            },
            _ => None,
        }
    } else {
        None
    }
}

proof fn lemma_first_on_ends(today: Date, day: Weekday, a: nat, b: nat)
    requires
        a <= b,
        first_on(today, day, a) is None,
        nth_day(today, a + 1) is None,
    ensures
        first_on(today, day, b) is None,
    decreases b - a,
{
    if a < b {
        lemma_first_on_ends(today, day, a, (b - 1) as nat);
        lemma_after_ends(today, a + 1, b);
    }
}

proof fn lemma_first_on_stays(today: Date, day: Weekday, a: nat, b: nat)
    requires
        a <= b,
        first_on(today, day, a) is Some,
    ensures
        first_on(today, day, b) == first_on(today, day, a),
    decreases b - a,
{
    if a < b {
        lemma_first_on_stays(today, day, a, (b - 1) as nat);
    }
}

/// The first day after `today` that falls on a weekday.
fn next_on(today: Date, day: Weekday) -> (r: Option<Date>)
    requires
        valid(today),
    ensures
        r == first_on(today, day, 7),
        r matches Some(d) ==> valid(d),
{
    let mut cur = today;
    let mut i: u64 = 0;
    while i < 7
        invariant
            i <= 7,
            nth_day(today, i as nat) == Some(cur),
            valid(cur),
            first_on(today, day, i as nat) is None,
        decreases 7 - i,
    {
        match tomorrow(cur) {
            None => {
                proof {
                    assert(nth_day(today, (i + 1) as nat) is None);
                    lemma_first_on_ends(today, day, i as nat, 7);
                }
                return None;
            },
            Some(d) => {
                cur = d;
                i = i + 1;
                if weekday(d) == day {
                    proof {
                        assert(first_on(today, day, i as nat) == Some(d));
                        lemma_first_on_stays(today, day, i as nat, 7);
                    }
                    return Some(d);
                }
            },
        }
    }
    None
}

/// The day `days` days before a date.
fn shift_back(date: Date, days: i64) -> (r: Option<Date>)
    requires
        valid(date),
    ensures
        r == shifted(date, -(days as int)),
        r matches Some(d) ==> valid(d),
{
    if days > 0 {
        days_before(date, days as u64)
    } else if days == i64::MIN {
        days_after(date, 0x8000_0000_0000_0000)
    } else {
        days_after(date, (-days) as u64)
    }
}

/// The characters after the first, with whitespace trimmed off.
fn rest_after_sign(t: &[char]) -> (r: Vec<char>)
    requires
        t@.len() > 0,
    ensures
        r@ == trimmed(t@.drop_first()),
{
    let tail = slice_of(t, 1, t.len());
    assert(tail@ =~= t@.drop_first());
    trim(tail.as_slice())
}

/// The date a line typed into the date card means, on the day it was
/// typed; see `typed_date`.
pub fn parse_date(text: &str, today: Date) -> (r: Option<Date>)
    requires
        valid(today),
    ensures
        r == typed_date(text@, today),
        r matches Some(d) ==> valid(d),
{
    let raw = chars_of(text);
    let cut = trim(raw.as_slice());
    let cut_text = string_of(cut.as_slice());
    let lower = lowercase(cut_text.as_str());
    let t = chars_of(lower.as_str());
    if t.len() == 0 {
        return None;
    }
    if t[0] == '+' {
        let rest = rest_after_sign(t.as_slice());
        return match parse_i64(rest.as_slice()) {
            Some(n) => shift(today, n),
            None => None,
        };
    }
    if t[0] == '-' {
        let rest = rest_after_sign(t.as_slice());
        if let Some(n) = parse_i64(rest.as_slice()) {
            return shift_back(today, n);
        }
    }
    if is(t.as_slice(), "today") {
        return Some(today);
    }
    if is(t.as_slice(), "tomorrow") {
        return tomorrow(today);
    }
    if let Some(w) = weekday_of_name(t.as_slice()) {
        return next_on(today, w);
    }
    if let Some(d) = parse_civil_date(lower.as_str()) {
        return Some(d);
    }
    let parts = split_parts(t.as_slice());
    by_parts(&parts, today)
}


// ---- what month names mean -----------------------------------------------

/// The first name a text is, where it is that name and none before it.
proof fn lemma_named_is(text: Seq<char>, all: Seq<Seq<char>>, i: int)
    requires
        0 <= i < all.len(),
        names(text, all[i]),
        forall|j: int| 0 <= j < i ==> !names(text, #[trigger] all[j]),
    ensures
        named(text, all) == Some(i),
{
    assert(exists|k: int| 0 <= k < all.len() && names(text, #[trigger] all[k]));
    let c = choose|c: int| 0 <= c < all.len() && names(text, all[c]) && forall|j: int| 0 <= j < c ==> !names(text, #[trigger] all[j]);
    if c < i {
        assert(!names(text, all[c]));
    } else if c > i {
        assert(!names(text, all[i]));
    }
}

/// A text that differs from a name in one of the first three letters is
/// not that name.
proof fn lemma_not_named(text: Seq<char>, name: Seq<char>)
    requires
        text.len() >= 3,
        name.len() >= 3,
        text[0] != name[0] || text[1] != name[1] || text[2] != name[2],
    ensures
        !names(text, name),
{
    if text.len() == 3 && name.subrange(0, 3) == text {
        assert(name.subrange(0, 3)[0] == name[0]);
        assert(name.subrange(0, 3)[1] == name[1]);
        assert(name.subrange(0, 3)[2] == name[2]);
    }
}

/// The month a text is read as, where it is the name at `i` and differs
/// in its first three letters from every name before it.
proof fn lemma_month_at(text: Seq<char>, i: int)
    requires
        0 <= i < 12,
        text.len() >= 3,
        names(text, month_names()[i]),
        forall|j: int| 0 <= j < 12 ==> #[trigger] month_names()[j].len() >= 3,
        forall|j: int|
            0 <= j < i ==> text[0] != #[trigger] month_names()[j][0] || text[1] != month_names()[j][1] || text[2]
                != month_names()[j][2],
    ensures
        month_of(text) == Some((i + 1) as u8),
{
    let all = month_names();
    assert forall|j: int| 0 <= j < i implies !names(text, #[trigger] all[j]) by {
        assert(all[j].len() >= 3);
        lemma_not_named(text, all[j]);
    }
    lemma_named_is(text, all, i);
}

/// Each month name, written out or cut to its first three letters, is
/// read as its own month, January as 1 through December as 12.
pub proof fn lemma_month_names_read()
    ensures
        month_of("january"@) == Some(1u8),
        month_of("jan"@) == Some(1u8),
        month_of("february"@) == Some(2u8),
        month_of("feb"@) == Some(2u8),
        month_of("march"@) == Some(3u8),
        month_of("mar"@) == Some(3u8),
        month_of("april"@) == Some(4u8),
        month_of("apr"@) == Some(4u8),
        month_of("may"@) == Some(5u8),
        month_of("june"@) == Some(6u8),
        month_of("jun"@) == Some(6u8),
        month_of("july"@) == Some(7u8),
        month_of("jul"@) == Some(7u8),
        month_of("august"@) == Some(8u8),
        month_of("aug"@) == Some(8u8),
        month_of("september"@) == Some(9u8),
        month_of("sep"@) == Some(9u8),
        month_of("october"@) == Some(10u8),
        month_of("oct"@) == Some(10u8),
        month_of("november"@) == Some(11u8),
        month_of("nov"@) == Some(11u8),
        month_of("december"@) == Some(12u8),
        month_of("dec"@) == Some(12u8),
{
    reveal_strlit("january");
    reveal_strlit("february");
    reveal_strlit("march");
    reveal_strlit("april");
    reveal_strlit("may");
    reveal_strlit("june");
    reveal_strlit("july");
    reveal_strlit("august");
    reveal_strlit("september");
    reveal_strlit("october");
    reveal_strlit("november");
    reveal_strlit("december");
    reveal_strlit("jan");
    reveal_strlit("feb");
    reveal_strlit("mar");
    reveal_strlit("apr");
    reveal_strlit("jun");
    reveal_strlit("jul");
    reveal_strlit("aug");
    reveal_strlit("sep");
    reveal_strlit("oct");
    reveal_strlit("nov");
    reveal_strlit("dec");
    let all = month_names();
    assert forall|j: int| 0 <= j < 12 implies #[trigger] all[j].len() >= 3 by {}
    lemma_month_pair("january"@, "jan"@, 0);
    lemma_month_pair("february"@, "feb"@, 1);
    lemma_month_pair("march"@, "mar"@, 2);
    lemma_month_pair("april"@, "apr"@, 3);
    lemma_month_at("may"@, 4);
    lemma_month_pair("june"@, "jun"@, 5);
    lemma_month_pair("july"@, "jul"@, 6);
    lemma_month_pair("august"@, "aug"@, 7);
    lemma_month_pair("september"@, "sep"@, 8);
    lemma_month_pair("october"@, "oct"@, 9);
    lemma_month_pair("november"@, "nov"@, 10);
    lemma_month_pair("december"@, "dec"@, 11);
}

/// A name at `i` and its first three letters, each read as month `i + 1`.
proof fn lemma_month_pair(full: Seq<char>, short: Seq<char>, i: int)
    requires
        0 <= i < 12,
        full == month_names()[i],
        short.len() == 3,
        full.len() > 3,
        short[0] == full[0] && short[1] == full[1] && short[2] == full[2],
        forall|j: int| 0 <= j < 12 ==> #[trigger] month_names()[j].len() >= 3,
        forall|j: int|
            0 <= j < i ==> full[0] != #[trigger] month_names()[j][0] || full[1] != month_names()[j][1] || full[2]
                != month_names()[j][2],
    ensures
        month_of(full) == Some((i + 1) as u8),
        month_of(short) == Some((i + 1) as u8),
{
    lemma_month_at(full, i);
    assert(full.subrange(0, 3) =~= short);
    lemma_month_at(short, i);
}


/// The weekday a text is read as, where it is the name at `i` and differs
/// in its first three letters from every name before it.
proof fn lemma_weekday_at(text: Seq<char>, i: int)
    requires
        0 <= i < 7,
        text.len() >= 3,
        names(text, weekday_names()[i]),
        forall|j: int| 0 <= j < 7 ==> #[trigger] weekday_names()[j].len() >= 3,
        forall|j: int|
            0 <= j < i ==> text[0] != #[trigger] weekday_names()[j][0] || text[1] != weekday_names()[j][1] || text[2]
                != weekday_names()[j][2],
    ensures
        weekday_named(text) == Some(week_order()[i]),
{
    let all = weekday_names();
    assert forall|j: int| 0 <= j < i implies !names(text, #[trigger] all[j]) by {
        assert(all[j].len() >= 3);
        lemma_not_named(text, all[j]);
    }
    lemma_named_is(text, all, i);
}

/// A weekday name at `i` and its first three letters, each read as that
/// day of the week.
proof fn lemma_weekday_pair(full: Seq<char>, short: Seq<char>, i: int)
    requires
        0 <= i < 7,
        full == weekday_names()[i],
        short.len() == 3,
        full.len() > 3,
        short[0] == full[0] && short[1] == full[1] && short[2] == full[2],
        forall|j: int| 0 <= j < 7 ==> #[trigger] weekday_names()[j].len() >= 3,
        forall|j: int|
            0 <= j < i ==> full[0] != #[trigger] weekday_names()[j][0] || full[1] != weekday_names()[j][1] || full[2]
                != weekday_names()[j][2],
    ensures
        weekday_named(full) == Some(week_order()[i]),
        weekday_named(short) == Some(week_order()[i]),
{
    lemma_weekday_at(full, i);
    assert(full.subrange(0, 3) =~= short);
    lemma_weekday_at(short, i);
}

/// Each weekday name, written out or cut to its first three letters, is
/// read as its own day of the week.
pub proof fn lemma_weekday_names_read()
    ensures
        weekday_named("monday"@) == Some(Weekday::Mon),
        weekday_named("mon"@) == Some(Weekday::Mon),
        weekday_named("tuesday"@) == Some(Weekday::Tue),
        weekday_named("tue"@) == Some(Weekday::Tue),
        weekday_named("wednesday"@) == Some(Weekday::Wed),
        weekday_named("wed"@) == Some(Weekday::Wed),
        weekday_named("thursday"@) == Some(Weekday::Thu),
        weekday_named("thu"@) == Some(Weekday::Thu),
        weekday_named("friday"@) == Some(Weekday::Fri),
        weekday_named("fri"@) == Some(Weekday::Fri),
        weekday_named("saturday"@) == Some(Weekday::Sat),
        weekday_named("sat"@) == Some(Weekday::Sat),
        weekday_named("sunday"@) == Some(Weekday::Sun),
        weekday_named("sun"@) == Some(Weekday::Sun),
{
    reveal_strlit("monday");
    reveal_strlit("tuesday");
    reveal_strlit("wednesday");
    reveal_strlit("thursday");
    reveal_strlit("friday");
    reveal_strlit("saturday");
    reveal_strlit("sunday");
    reveal_strlit("mon");
    reveal_strlit("tue");
    reveal_strlit("wed");
    reveal_strlit("thu");
    reveal_strlit("fri");
    reveal_strlit("sat");
    reveal_strlit("sun");
    let all = weekday_names();
    assert forall|j: int| 0 <= j < 7 implies #[trigger] all[j].len() >= 3 by {}
    lemma_weekday_pair("monday"@, "mon"@, 0);
    lemma_weekday_pair("tuesday"@, "tue"@, 1);
    lemma_weekday_pair("wednesday"@, "wed"@, 2);
    lemma_weekday_pair("thursday"@, "thu"@, 3);
    lemma_weekday_pair("friday"@, "fri"@, 4);
    lemma_weekday_pair("saturday"@, "sat"@, 5);
    lemma_weekday_pair("sunday"@, "sun"@, 6);
}


/// A day and a month written without a year are the next such date that
/// has not passed: this year's where it is today or later, and otherwise
/// next year's.
pub proof fn lemma_no_year_is_the_next(day: u8, month: u8, today: Date)
    requires
        valid(today),
    ensures
        not_yet_gone(day, month, today) matches Some(x) ==> (x.day == day && x.month == month && valid(x)
            && !earlier_date(x, today) && (x.year == today.year || x.year == today.year + 1)),
        not_yet_gone(day, month, today) matches Some(x) ==> (x.year == today.year + 1 ==> !(valid(
            Date { year: today.year, month, day },
        ) && !earlier_date(Date { year: today.year, month, day }, today))),
        valid(Date { year: today.year, month, day }) && !earlier_date(Date { year: today.year, month, day }, today)
            ==> not_yet_gone(day, month, today) == Some(Date { year: today.year, month, day }),
{
}


/// The day before a date is counted one less.
proof fn lemma_prev_day_counts(date: Date)
    requires
        valid(date),
    ensures
        prev_day(date) matches Some(p) ==> valid(p) && day_number(p) + 1 == day_number(date),
{
    if let Some(p) = prev_day(date) {
        assert(valid(p));
        assert(next_day(p) == Some(date));
        super::time::lemma_next_day_counts(p);
    }
}

/// The day `n` days after a date is counted `n` more.
proof fn lemma_nth_day_counts(date: Date, n: nat)
    requires
        valid(date),
    ensures
        nth_day(date, n) matches Some(x) ==> valid(x) && day_number(x) == day_number(date) + n,
    decreases n,
{
    if n > 0 {
        lemma_nth_day_counts(date, (n - 1) as nat);
        if let Some(d) = nth_day(date, (n - 1) as nat) {
            super::time::lemma_next_day_counts(d);
        }
    }
}

/// The day `n` days before a date is counted `n` less.
proof fn lemma_nth_day_before_counts(date: Date, n: nat)
    requires
        valid(date),
    ensures
        nth_day_before(date, n) matches Some(x) ==> valid(x) && day_number(x) == day_number(date) - n,
    decreases n,
{
    if n > 0 {
        lemma_nth_day_before_counts(date, (n - 1) as nat);
        if let Some(d) = nth_day_before(date, (n - 1) as nat) {
            lemma_prev_day_counts(d);
        }
    }
}

/// A date moved by a number of days, forward or back, is counted that
/// many days on.
pub proof fn lemma_shift_counts(date: Date, days: int)
    requires
        valid(date),
    ensures
        shifted(date, days) matches Some(x) ==> valid(x) && day_number(x) == day_number(date) + days,
{
    if days >= 0 {
        lemma_nth_day_counts(date, days as nat);
    } else {
        lemma_nth_day_before_counts(date, (-days) as nat);
    }
}

/// A typed `+n` is the day `n` days after today and a typed `-n` the day
/// `n` days before it, whatever case or spaces it was typed with.
pub proof fn lemma_typed_count(text: Seq<char>, today: Date)
    requires
        valid(today),
    ensures
        ({
            let t = lowercase_of(trimmed(text));
            let rest = trimmed(t.drop_first());
            &&& (t.len() > 0 && t[0] == '+' && count_of(rest) is Some) ==> (typed_date(text, today) matches Some(x)
                ==> day_number(x) == day_number(today) + count_of(rest)->Some_0)
            &&& (t.len() > 0 && t[0] == '-' && count_of(rest) is Some) ==> (typed_date(text, today) matches Some(x)
                ==> day_number(x) == day_number(today) - count_of(rest)->Some_0)
        }),
{
    let t = lowercase_of(trimmed(text));
    let rest = trimmed(t.drop_first());
    if count_of(rest) is Some {
        lemma_shift_counts(today, count_of(rest)->Some_0);
        lemma_shift_counts(today, -(count_of(rest)->Some_0));
    }
}


/// The next day of a weekday's name is that weekday, one to `n` days
/// after today: never today itself.
pub proof fn lemma_first_on_is_ahead(today: Date, day: Weekday, n: nat)
    requires
        valid(today),
    ensures
        first_on(today, day, n) matches Some(x) ==> (weekday_of(x) == day && 1 <= day_number(x) - day_number(today) <= n),
    decreases n,
{
    if n > 0 {
        lemma_first_on_is_ahead(today, day, (n - 1) as nat);
        lemma_nth_day_counts(today, n);
    }
}

} // verus!
