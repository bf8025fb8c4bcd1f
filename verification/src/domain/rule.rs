//! Repeat rules and the days of the week they are written in.

use vstd::prelude::*;

use super::settings::WorkDays;
use super::time::{
    day_count, day_number, days_in, days_in_month, earlier_date, is_earlier, next_day, tomorrow, valid,
    weekday, weekday_of, Date,
};

verus! {

/// A day of the week, spelled the way the stored JSON spells it.
#[derive(Clone, Copy, Debug, PartialEq, Eq, Structural, PartialOrd, Ord, Hash)]
pub enum Weekday {
    Mon,
    Tue,
    Wed,
    Thu,
    Fri,
    Sat,
    Sun,
}

/// Monday to Friday.
pub open spec fn work_day(day: Weekday) -> bool {
    !(day == Weekday::Sat || day == Weekday::Sun)
}

/// The days of the week in order, Monday first.
pub open spec fn week() -> Seq<Weekday> {
    seq![
        Weekday::Mon,
        Weekday::Tue,
        Weekday::Wed,
        Weekday::Thu,
        Weekday::Fri,
        Weekday::Sat,
        Weekday::Sun,
    ]
}

impl Weekday {
    /// Every day of the week, Monday first.
    pub fn all() -> (r: Vec<Weekday>)
        ensures
            r@ == week(),
    {
        let r = vec![
            Weekday::Mon,
            Weekday::Tue,
            Weekday::Wed,
            Weekday::Thu,
            Weekday::Fri,
            Weekday::Sat,
            Weekday::Sun,
        ];
        assert(r@ =~= week());
        r
    }

    /// Monday to Friday, which is what "every work day" and the move
    /// card's "next work day" both mean. No holidays, ever.
    pub fn is_work_day(self) -> (r: bool)
        ensures
            r == work_day(self),
    {
        !matches!(self, Weekday::Sat | Weekday::Sun)
    }
}

/// Which day of the month a monthly rule falls on: a number, clamped to
/// the month's last day, or the last day itself.
#[derive(Clone, Copy, Debug, PartialEq, Eq, Structural)]
pub enum MonthDay {
    Day(u8),
    Last,
}

/// A repeat schedule's rule: exactly five shapes.
#[derive(Clone, Debug)]
pub enum Rule {
    Workdays,
    Daily,
    Weekly { weekdays: Vec<Weekday> },
    Monthly { day: MonthDay },
    EveryNWeeks { n: u32, from: Date },
}

/// A rule as the contracts speak of it.
pub enum RuleView {
    Workdays,
    Daily,
    Weekly { weekdays: Seq<Weekday> },
    Monthly { day: MonthDay },
    EveryNWeeks { n: u32, from: Date },
}

impl View for Rule {
    type V = RuleView;

    open spec fn view(&self) -> RuleView {
        match self {
            Rule::Workdays => RuleView::Workdays,
            Rule::Daily => RuleView::Daily,
            Rule::Weekly { weekdays } => RuleView::Weekly { weekdays: weekdays@ },
            Rule::Monthly { day } => RuleView::Monthly { day: *day },
            Rule::EveryNWeeks { n, from } => RuleView::EveryNWeeks { n: *n, from: *from },
        }
    }
}

/// Whether a rule can ever fall due.
pub open spec fn usable(rule: RuleView) -> bool {
    match rule {
        RuleView::Workdays | RuleView::Daily => true,
        RuleView::Weekly { weekdays } => weekdays.len() > 0,
        RuleView::Monthly { day } => match day {
            MonthDay::Day(d) => 1 <= d <= 31,
            MonthDay::Last => true,
        },
        RuleView::EveryNWeeks { n, .. } => n >= 1,
    }
}

impl Rule {
    /// Whether the rule can ever fall due. A rule that cannot is refused
    /// rather than stored, because generation would then never end a
    /// schedule and the repeat card would preview nothing.
    pub fn is_usable(&self) -> (r: bool)
        ensures
            r == usable(self@),
    {
        match self {
            Rule::Workdays | Rule::Daily => true,
            Rule::Weekly { weekdays } => weekdays.len() > 0,
            Rule::Monthly { day } => match day {
                MonthDay::Day(d) => 1 <= *d && *d <= 31,
                MonthDay::Last => true,
            },
            Rule::EveryNWeeks { n, .. } => *n >= 1,
        }
    }

    /// The same rule, as a value of its own.
    pub fn copy(&self) -> (r: Rule)
        ensures
            r@ == self@,
    {
        match self {
            Rule::Workdays => Rule::Workdays,
            Rule::Daily => Rule::Daily,
            Rule::Weekly { weekdays } => {
                let mut days: Vec<Weekday> = Vec::new();
                let mut i: usize = 0;
                while i < weekdays.len()
                    invariant
                        i <= weekdays@.len(),
                        days@ == weekdays@.subrange(0, i as int),
                    decreases weekdays@.len() - i,
                {
                    days.push(weekdays[i]);
                    i = i + 1;
                }
                assert(days@ =~= weekdays@);
                Rule::Weekly { weekdays: days }
            },
            Rule::Monthly { day } => Rule::Monthly { day: *day },
            Rule::EveryNWeeks { n, from } => Rule::EveryNWeeks { n: *n, from: *from },
        }
    }
}

/// Whether a rule falls on a date, with the days of the week that are
/// work days.
pub open spec fn falls_on_spec(rule: RuleView, date: Date, work: Set<Weekday>) -> bool {
    match rule {
        RuleView::Workdays => work.contains(weekday_of(date)),
        RuleView::Daily => true,
        RuleView::Weekly { weekdays } => weekdays.contains(weekday_of(date)),
        RuleView::Monthly { day } => {
            let last = days_in(date.year as int, date.month as int);
            date.day as int == match day {
                MonthDay::Day(d) => if (d as int) < last {
                    d as int
                } else {
                    last
                },
                MonthDay::Last => last,
            }
        },
        RuleView::EveryNWeeks { n, from } => n >= 1 && !earlier_date(date, from) && (day_number(date)
            - day_number(from)) % (7 * n as int) == 0,
    }
}

impl Rule {
    /// Whether `date` is one of the rule's dates, with the days of the
    /// week the settings say are work days.
    pub fn falls_on(&self, date: Date, work_days: &WorkDays) -> (r: bool)
        ensures
            r == falls_on_spec(self@, date, work_days@),
    {
        match self {
            Rule::Workdays => work_days.contains(weekday(date)),
            Rule::Daily => true,
            Rule::Weekly { weekdays } => {
                let day = weekday(date);
                let mut i: usize = 0;
                while i < weekdays.len()
                    invariant
                        i <= weekdays@.len(),
                        day == weekday_of(date),
                        self@ == (RuleView::Weekly { weekdays: weekdays@ }),
                        forall|j: int| 0 <= j < i ==> weekdays@[j] != day,
                    decreases weekdays@.len() - i,
                {
                    if weekdays[i] == day {
                        assert(weekdays@[i as int] == day);
                        assert(weekdays@.contains(day));
                        return true;
                    }
                    i = i + 1;
                }
                false
            },
            Rule::Monthly { day } => {
                let last = days_in_month(date.year, date.month);
                let wanted = match day {
                    MonthDay::Day(d) => if *d < last {
                        *d
                    } else {
                        last
                    },
                    MonthDay::Last => last,
                };
                date.day == wanted
            },
            Rule::EveryNWeeks { n, from } => {
                if *n == 0 || is_earlier(date, *from) {
                    return false;
                }
                let step: i64 = *n as i64 * 7;
                let gap = day_count(date) - day_count(*from);
                let size: i64 = if gap < 0 {
                    -gap
                } else {
                    gap
                };
                proof {
                    lemma_divides_either_sign(gap as int, step as int);
                }
                size % step == 0
            },
        }
    }
}

proof fn lemma_divides_either_sign(x: int, step: int)
    requires
        step > 0,
    ensures
        (x % step == 0) == ((-x) % step == 0),
{
    vstd::arithmetic::div_mod::lemma_fundamental_div_mod(x, step);
    vstd::arithmetic::div_mod::lemma_fundamental_div_mod(-x, step);
    if x % step == 0 {
        let q = x / step;
        assert(-x == (-q) * step) by (nonlinear_arith)
            requires
                x == step * q + 0,
        ;
        vstd::arithmetic::div_mod::lemma_mod_multiples_basic(-q, step);
    }
    if (-x) % step == 0 {
        let q = (-x) / step;
        assert(x == (-q) * step) by (nonlinear_arith)
            requires
                -x == step * q + 0,
        ;
        vstd::arithmetic::div_mod::lemma_mod_multiples_basic(-q, step);
    }
}

/// How far `next_dates` looks, in days for each date asked for, before it
/// gives up on a rule that never falls due. Two years is well past the
/// widest gap any shape can leave.
pub const HORIZON: usize = 732;

/// The day `n` days after a date, where the calendar reaches it.
pub open spec fn nth_day(after: Date, n: nat) -> Option<Date>
    decreases n,
{
    if n == 0 {
        Some(after)
    } else {
        match nth_day(after, (n - 1) as nat) {
            Some(d) => next_day(d),
            None => None,
        }
    }
}

/// The dates a rule falls on among the `n` days after a date, in order.
pub open spec fn dates_within(rule: RuleView, after: Date, n: nat, work: Set<Weekday>) -> Seq<Date>
    decreases n,
{
    if n == 0 {
        Seq::empty()
    } else {
        let s = dates_within(rule, after, (n - 1) as nat, work);
        match nth_day(after, n) {
            Some(d) => if falls_on_spec(rule, d, work) {
                s.push(d)
            } else {
                s
            },
            None => s,
        }
    }
}

/// The first `count` dates a rule falls on strictly after a date, looking
/// no further than the horizon; none for a rule that never comes round.
pub open spec fn next_dates_of(rule: RuleView, after: Date, count: nat, work: Set<Weekday>) -> Seq<Date> {
    if count == 0 || !usable(rule) {
        Seq::empty()
    } else {
        let all = dates_within(rule, after, (HORIZON * count) as nat, work);
        if all.len() <= count {
            all
        } else {
            all.take(count as int)
        }
    }
}

proof fn lemma_dates_prefix(rule: RuleView, after: Date, a: nat, b: nat, work: Set<Weekday>)
    requires
        a <= b,
    ensures
        dates_within(rule, after, a, work).len() <= dates_within(rule, after, b, work).len(),
        dates_within(rule, after, b, work).take(dates_within(rule, after, a, work).len() as int) == dates_within(
            rule,
            after,
            a,
            work,
        ),
    decreases b - a,
{
    if a < b {
        lemma_dates_prefix(rule, after, a, (b - 1) as nat, work);
        let s = dates_within(rule, after, (b - 1) as nat, work);
        let t = dates_within(rule, after, b, work);
        let k = dates_within(rule, after, a, work).len() as int;
        assert(t.take(k) =~= s.take(k));
    } else {
        assert(dates_within(rule, after, b, work).take(dates_within(rule, after, a, work).len() as int)
            =~= dates_within(rule, after, a, work));
    }
}

proof fn lemma_no_more_days(rule: RuleView, after: Date, a: nat, b: nat, work: Set<Weekday>)
    requires
        a <= b,
        nth_day(after, a) is Some,
        next_day(nth_day(after, a)->Some_0) is None,
    ensures
        dates_within(rule, after, b, work) == dates_within(rule, after, a, work),
        forall|j: nat| a < j <= b ==> nth_day(after, j) is None,
    decreases b - a,
{
    if a < b {
        lemma_no_more_days(rule, after, a, (b - 1) as nat, work);
    }
}

/// The next `count` dates a rule falls on strictly after `after`. The
/// repeat card's preview and copy generation are the same function.
pub fn next_dates(rule: &Rule, after: Date, count: usize, work_days: &WorkDays) -> (dates: Vec<Date>)
    requires
        HORIZON * count <= usize::MAX,
    ensures
        dates@ == next_dates_of(rule@, after, count as nat, work_days@),
{
    let mut dates: Vec<Date> = Vec::new();
    if count == 0 || !rule.is_usable() {
        return dates;
    }
    let limit: usize = HORIZON * count;
    let ghost work = work_days@;
    let ghost r = rule@;
    let mut date = after;
    let mut i: usize = 0;
    while i < limit
        invariant_except_break
            i <= limit,
            limit == HORIZON * count,
            nth_day(after, i as nat) == Some(date),
            dates@ == dates_within(r, after, i as nat, work),
            dates@.len() < count,
            count > 0,
            usable(r),
            r == rule@,
            work == work_days@,
        ensures
            dates@ == next_dates_of(r, after, count as nat, work),
        decreases limit - i,
    {
        let next = tomorrow(date);
        match next {
            None => {
                proof {
                    lemma_no_more_days(r, after, i as nat, limit as nat, work);
                }
                break;
            },
            Some(d) => {
                proof {
                    assert(nth_day(after, (i + 1) as nat) == Some(d));
                }
                date = d;
                i = i + 1;
                let ghost was = dates@;
                if rule.falls_on(date, work_days) {
                    dates.push(date);
                    assert(dates@ == dates_within(r, after, i as nat, work));
                    if dates.len() == count {
                        proof {
                            lemma_dates_prefix(r, after, i as nat, limit as nat, work);
                        }
                        break;
                    }
                } else {
                    assert(dates@ == dates_within(r, after, i as nat, work));
                }
            },
        }
    }
    dates
}


/// A monthly rule on a day of the month falls on that day in every month
/// that has it, and on the last day of a month too short for it, and on
/// no other date.
pub proof fn lemma_monthly_day(d: u8, date: Date, work: Set<Weekday>)
    requires
        1 <= d <= 31,
    ensures
        (d as int) <= days_in(date.year as int, date.month as int) ==> (falls_on_spec(
            RuleView::Monthly { day: MonthDay::Day(d) },
            date,
            work,
        ) <==> date.day == d),
        (d as int) > days_in(date.year as int, date.month as int) ==> (falls_on_spec(
            RuleView::Monthly { day: MonthDay::Day(d) },
            date,
            work,
        ) <==> date.day as int == days_in(date.year as int, date.month as int)),
{
}


/// A monthly rule on the last day falls on the last day of every month,
/// whatever its length, and on no other date.
pub proof fn lemma_monthly_last(date: Date, work: Set<Weekday>)
    ensures
        falls_on_spec(RuleView::Monthly { day: MonthDay::Last }, date, work) <==> date.day as int == days_in(
            date.year as int,
            date.month as int,
        ),
{
}


/// Whether a date is no later than another.
pub open spec fn not_later(a: Date, b: Date) -> bool {
    a == b || earlier_date(a, b)
}

proof fn lemma_within_in_order(rule: RuleView, after: Date, n: nat, work: Set<Weekday>)
    ensures
        ({
            let s = dates_within(rule, after, n, work);
            &&& forall|i: int| 0 <= i < s.len() ==> falls_on_spec(rule, #[trigger] s[i], work) && earlier_date(after, s[i])
            &&& forall|i: int, j: int| 0 <= i < j < s.len() ==> earlier_date(#[trigger] s[i], #[trigger] s[j])
            &&& nth_day(after, n) matches Some(last) ==> not_later(after, last) && forall|i: int|
                0 <= i < s.len() ==> not_later(#[trigger] s[i], last)
        }),
    decreases n,
{
    if n > 0 {
        lemma_within_in_order(rule, after, (n - 1) as nat, work);
        let s = dates_within(rule, after, (n - 1) as nat, work);
        if let Some(prev) = nth_day(after, (n - 1) as nat) {
            if let Some(d) = next_day(prev) {
                assert(earlier_date(prev, d));
                assert(earlier_date(after, d));
                assert forall|i: int| 0 <= i < s.len() implies earlier_date(#[trigger] s[i], d) by {
                    assert(not_later(s[i], prev));
                }
                let t = dates_within(rule, after, n, work);
                if falls_on_spec(rule, d, work) {
                    assert(t == s.push(d));
                    assert forall|i: int, j: int| 0 <= i < j < t.len() implies earlier_date(#[trigger] t[i], #[trigger] t[j]) by {
                        if j == s.len() {
                            assert(earlier_date(s[i], d));
                        } else {
                            assert(t[i] == s[i] && t[j] == s[j]);
                        }
                    }
                    assert forall|i: int| 0 <= i < t.len() implies falls_on_spec(rule, #[trigger] t[i], work) && earlier_date(after, t[i]) by {
                        if i < s.len() {
                            assert(t[i] == s[i]);
                        }
                    }
                    assert forall|i: int| 0 <= i < t.len() implies not_later(#[trigger] t[i], d) by {
                        if i < s.len() {
                            assert(t[i] == s[i]);
                            assert(earlier_date(s[i], d));
                        }
                    }
                } else {
                    assert forall|i: int| 0 <= i < s.len() implies not_later(#[trigger] s[i], d) by {
                        assert(earlier_date(s[i], d));
                    }
                }
            }
        }
    }
}

/// The dates a rule is said to fall on next are dates it falls on, each
/// after the date asked from, each after the one before, and no more of
/// them than were asked for.
pub proof fn lemma_next_dates_fall(rule: RuleView, after: Date, count: nat, work: Set<Weekday>)
    ensures
        ({
            let r = next_dates_of(rule, after, count, work);
            &&& r.len() <= count
            &&& forall|i: int| 0 <= i < r.len() ==> falls_on_spec(rule, #[trigger] r[i], work) && earlier_date(after, r[i])
            &&& forall|i: int, j: int| 0 <= i < j < r.len() ==> earlier_date(#[trigger] r[i], #[trigger] r[j])
        }),
{
    if count > 0 && usable(rule) {
        let n = (HORIZON * count) as nat;
        lemma_within_in_order(rule, after, n, work);
        let all = dates_within(rule, after, n, work);
        if all.len() > count {
            let r = all.take(count as int);
            assert forall|i: int| 0 <= i < r.len() implies falls_on_spec(rule, #[trigger] r[i], work) && earlier_date(after, r[i]) by {
                assert(r[i] == all[i]);
            }
            assert forall|i: int, j: int| 0 <= i < j < r.len() implies earlier_date(#[trigger] r[i], #[trigger] r[j]) by {
                assert(r[i] == all[i] && r[j] == all[j]);
            }
        }
    }
}

} // verus!
