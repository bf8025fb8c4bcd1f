//! The settings, as one value with its own defaults, validation and text
//! codec.
//!
//! What a setting may hold and what it means is a rule, so it lives here:
//! every number is held to its range by the setter that takes it, and
//! the codec reads a table of key and value rows back into the value,
//! leaving at its default whatever it does not recognise.

use vstd::prelude::*;

use super::rule::{Weekday, week};
use super::time::{Date, Stamp};
use crate::text::{
    append_all, append_str, chars_of, decimal, decimal_of, find_char, first_at, integer_of, is, joined,
    parse_i64, pieces, slice_of, split_on, string_of, trim, trimmed, views,
};

verus! {

/// Whether a date can be the working day of an instant under settings:
/// a date of the calendar, within two days of the UTC day of the moment
/// the settings' day-start hour before the instant. Which of those days
/// it is, the instant's time zone decides.
pub open spec fn working_day_of(settings: SettingsView, instant: int, day: Date) -> bool {
    &&& super::time::valid(day)
    &&& super::time::near_day(day, super::time::moment_before(instant, settings.day_starts_at as int))
}

/// Where a week begins.
#[derive(Clone, Copy, Debug, PartialEq, Eq, Structural)]
pub enum WeekStart {
    Monday,
    Sunday,
}

/// Which days "every work day" and the move card's "next work day" mean.
/// A set of weekdays, held as one bit a day, Monday lowest.
#[derive(Clone, Copy, Debug, PartialEq, Eq, Structural)]
pub struct WorkDays(u8);

/// The bit a day is held in.
pub open spec fn bit_of(day: Weekday) -> u8 {
    match day {
        Weekday::Mon => 1,
        Weekday::Tue => 2,
        Weekday::Wed => 4,
        Weekday::Thu => 8,
        Weekday::Fri => 16,
        Weekday::Sat => 32,
        Weekday::Sun => 64,
    }
}

/// The place of a day in the week, Monday first.
pub open spec fn place_of(day: Weekday) -> u8 {
    match day {
        Weekday::Mon => 0,
        Weekday::Tue => 1,
        Weekday::Wed => 2,
        Weekday::Thu => 3,
        Weekday::Fri => 4,
        Weekday::Sat => 5,
        Weekday::Sun => 6,
    }
}

/// The set a run of days makes.
pub open spec fn set_of(days: Seq<Weekday>) -> Set<Weekday> {
    Set::new(|d: Weekday| days.contains(d))
}

/// A set of work days and the days it lists, Monday first, are the same
/// days: the list makes the set again, and it is empty exactly when the
/// set is.
pub proof fn lemma_work_days_listed(days: Set<Weekday>)
    ensures
        set_of(week().filter(|d: Weekday| days.contains(d))) == days,
        (week().filter(|d: Weekday| days.contains(d)).len() == 0) == (days == Set::<Weekday>::empty()),
{
    broadcast use vstd::seq_lib::group_filter_ensures;

    let f = |d: Weekday| days.contains(d);
    let l = week().filter(f);
    assert forall|d: Weekday| #[trigger] l.contains(d) == days.contains(d) by {
        if l.contains(d) {
            let j = choose|j: int| 0 <= j < l.len() && l[j] == d;
            assert(f(l[j]));
        }
        if days.contains(d) {
            let i: int = match d {
                Weekday::Mon => 0,
                Weekday::Tue => 1,
                Weekday::Wed => 2,
                Weekday::Thu => 3,
                Weekday::Fri => 4,
                Weekday::Sat => 5,
                Weekday::Sun => 6,
            };
            assert(week()[i] == d);
            week().lemma_filter_contains(f, i);
        }
    }
    assert(set_of(l) =~= days);
    if l.len() == 0 {
        assert(days =~= Set::<Weekday>::empty()) by {
            assert forall|d: Weekday| !days.contains(d) by {
                assert(!l.contains(d));
            }
        }
    } else {
        assert(l.contains(l[0]));
        assert(days.contains(l[0]));
    }
}

impl View for WorkDays {
    type V = Set<Weekday>;

    closed spec fn view(&self) -> Set<Weekday> {
        Set::new(|d: Weekday| self.0 & bit_of(d) != 0)
    }
}

impl Default for WorkDays {
    fn default() -> (r: WorkDays)
        ensures
            r@ == Set::new(|d: Weekday| super::rule::work_day(d)),
    {
        WorkDays::default_days()
    }
}

impl WorkDays {
    /// Only the seven bits that stand for days are ever set.
    #[verifier::type_invariant]
    closed spec fn wf(self) -> bool {
        self.0 < 128
    }

    /// Monday to Friday.
    pub fn default_days() -> (r: WorkDays)
        ensures
            r@ == Set::new(|d: Weekday| super::rule::work_day(d)),
    {
        let r = WorkDays(0x1f);
        proof {
            lemma_bits(0x1f);
            assert(r@ =~= Set::new(|d: Weekday| super::rule::work_day(d)));
        }
        r
    }

    /// The set of exactly these days.
    pub fn of(days: &[Weekday]) -> (r: WorkDays)
        ensures
            r@ == set_of(days@),
    {
        let mut set = WorkDays(0);
        let mut i: usize = 0;
        proof {
            lemma_bits(0);
        }
        while i < days.len()
            invariant
                i <= days@.len(),
                set.0 < 128,
                set@ == set_of(days@.subrange(0, i as int)),
            decreases days@.len() - i,
        {
            let b = bit(days[i]);
            let was = set.0;
            let ghost old_set = set;
            proof {
                lemma_or(was, days@[i as int]);
            }
            set = WorkDays(was | b);
            proof {
                let before = days@.subrange(0, i as int);
                let done = days@.subrange(0, i + 1);
                assert(done =~= before.push(days@[i as int]));
                assert forall|d: Weekday| set@.contains(d) == set_of(done).contains(d) by {
                    assert(set@.contains(d) == (set.0 & bit_of(d) != 0));
                    assert(old_set@.contains(d) == (was & bit_of(d) != 0));
                    assert(((was | bit_of(days@[i as int])) & bit_of(d) != 0) == (was & bit_of(d)
                        != 0 || d == days@[i as int]));
                    assert(done.contains(d) == (before.contains(d) || d == days@[i as int])) by {
                        if done.contains(d) {
                            let k = choose|k: int| 0 <= k < done.len() && done[k] == d;
                            if k < before.len() {
                                assert(before[k] == d);
                            }
                        }
                        if before.contains(d) {
                            let k = choose|k: int| 0 <= k < before.len() && before[k] == d;
                            assert(done[k] == d);
                        }
                        if d == days@[i as int] {
                            assert(done[before.len() as int] == d);
                        }
                    }
                }
                assert(set@ =~= set_of(done));
            }
            i = i + 1;
        }
        assert(days@.subrange(0, days@.len() as int) =~= days@);
        set
    }

    pub fn contains(self, day: Weekday) -> (r: bool)
        ensures
            r == self@.contains(day),
    {
        self.0 & bit(day) != 0
    }

    /// The day comes off the set when it is in it and goes on when it is
    /// not; every other day stays as it was.
    pub fn toggle(&mut self, day: Weekday)
        ensures
            final(self)@ == (if old(self)@.contains(day) {
                old(self)@.remove(day)
            } else {
                old(self)@.insert(day)
            }),
    {
        proof {
            use_type_invariant(&*self);
        }
        let was = self.0;
        proof {
            lemma_xor(was, day);
        }
        self.0 = was ^ bit(day);
        proof {
            if old(self)@.contains(day) {
                assert(self@ =~= old(self)@.remove(day));
            } else {
                assert(self@ =~= old(self)@.insert(day));
            }
        }
    }

    pub fn is_empty(self) -> (r: bool)
        ensures
            r == (self@ == Set::<Weekday>::empty()),
    {
        proof {
            use_type_invariant(&self);
            let x = self.0;
            lemma_bits(x);
            if x != 0 {
                assert(x != 0 && x < 128 ==> (x & 1 != 0 || x & 2 != 0 || x & 4 != 0 || x & 8 != 0
                    || x & 16 != 0 || x & 32 != 0 || x & 64 != 0)) by (bit_vector);
                if x & 1 != 0 {
                    assert(self@.contains(Weekday::Mon));
                } else if x & 2 != 0 {
                    assert(self@.contains(Weekday::Tue));
                } else if x & 4 != 0 {
                    assert(self@.contains(Weekday::Wed));
                } else if x & 8 != 0 {
                    assert(self@.contains(Weekday::Thu));
                } else if x & 16 != 0 {
                    assert(self@.contains(Weekday::Fri));
                } else if x & 32 != 0 {
                    assert(self@.contains(Weekday::Sat));
                } else {
                    assert(self@.contains(Weekday::Sun));
                }
            } else {
                assert(self@ =~= Set::<Weekday>::empty());
            }
        }
        self.0 == 0
    }

    /// The days in it, Monday first, whatever order they were added in.
    pub fn iter(self) -> (r: Vec<Weekday>)
        ensures
            r@ == week().filter(|d: Weekday| self@.contains(d)),
    {
        let all = Weekday::all();
        let mut r: Vec<Weekday> = Vec::new();
        let mut i: usize = 0;
        while i < all.len()
            invariant
                all@ == week(),
                i <= all@.len(),
                r@ == week().subrange(0, i as int).filter(|d: Weekday| self@.contains(d)),
            decreases all@.len() - i,
        {
            proof {
                let f = |d: Weekday| self@.contains(d);
                assert(week().subrange(0, i + 1).drop_last() =~= week().subrange(0, i as int));
                reveal_with_fuel(Seq::filter, 1);
            }
            if self.contains(all[i]) {
                r.push(all[i]);
            }
            i = i + 1;
        }
        assert(week().subrange(0, 7) =~= week());
        r
    }
}

/// What the bits of a set say, day by day.
proof fn lemma_bits(x: u8)
    ensures
        (x & 1 != 0) == (x & bit_of(Weekday::Mon) != 0),
        x == 0 ==> (x & 1 == 0 && x & 2 == 0 && x & 4 == 0 && x & 8 == 0 && x & 16 == 0 && x
            & 32 == 0 && x & 64 == 0),
        x == 0x1f ==> (x & 1 != 0 && x & 2 != 0 && x & 4 != 0 && x & 8 != 0 && x & 16 != 0 && x
            & 32 == 0 && x & 64 == 0),
{
    assert(x == 0 ==> (x & 1 == 0 && x & 2 == 0 && x & 4 == 0 && x & 8 == 0 && x & 16 == 0 && x
        & 32 == 0 && x & 64 == 0)) by (bit_vector);
    assert(x == 0x1f ==> (x & 1 != 0 && x & 2 != 0 && x & 4 != 0 && x & 8 != 0 && x & 16 != 0
        && x & 32 == 0 && x & 64 == 0)) by (bit_vector);
}

/// Setting a day's bit adds that day and no other.
proof fn lemma_or(x: u8, day: Weekday)
    requires
        x < 128,
    ensures
        (x | bit_of(day)) < 128,
        forall|d: Weekday|
            ((x | bit_of(day)) & #[trigger] bit_of(d) != 0) == (x & bit_of(d) != 0 || d == day),
{
    let b = bit_of(day);
    assert forall|d: Weekday|
        ((x | b) & #[trigger] bit_of(d) != 0) == (x & bit_of(d) != 0 || d == day) by {
        let c = bit_of(d);
        if d == day {
            assert(c == b);
            assert((b == 1 || b == 2 || b == 4 || b == 8 || b == 16 || b == 32 || b == 64) ==> (x
                | b) & b != 0) by (bit_vector);
        } else {
            assert((b == 1 || b == 2 || b == 4 || b == 8 || b == 16 || b == 32 || b == 64) && (c
                == 1 || c == 2 || c == 4 || c == 8 || c == 16 || c == 32 || c == 64) && b != c
                ==> (((x | b) & c != 0) == (x & c != 0))) by (bit_vector);
        }
    }
    assert((x < 128 && (b == 1 || b == 2 || b == 4 || b == 8 || b == 16 || b == 32 || b == 64))
        ==> (x | b) < 128) by (bit_vector);
}

/// Flipping a day's bit flips that day and no other.
proof fn lemma_xor(x: u8, day: Weekday)
    requires
        x < 128,
    ensures
        (x ^ bit_of(day)) < 128,
        forall|d: Weekday|
            ((x ^ bit_of(day)) & #[trigger] bit_of(d) != 0) == (if d == day {
                x & bit_of(d) == 0
            } else {
                x & bit_of(d) != 0
            }),
{
    let b = bit_of(day);
    assert forall|d: Weekday|
        ((x ^ b) & #[trigger] bit_of(d) != 0) == (if d == day {
            x & bit_of(d) == 0
        } else {
            x & bit_of(d) != 0
        }) by {
        let c = bit_of(d);
        if d == day {
            assert((b == 1 || b == 2 || b == 4 || b == 8 || b == 16 || b == 32 || b == 64) ==> (((x
                ^ b) & b != 0) == (x & b == 0))) by (bit_vector);
        } else {
            assert((b == 1 || b == 2 || b == 4 || b == 8 || b == 16 || b == 32 || b == 64) && (c
                == 1 || c == 2 || c == 4 || c == 8 || c == 16 || c == 32 || c == 64) && b != c
                ==> (((x ^ b) & c != 0) == (x & c != 0))) by (bit_vector);
        }
    }
    assert((x < 128 && (b == 1 || b == 2 || b == 4 || b == 8 || b == 16 || b == 32 || b == 64))
        ==> (x ^ b) < 128) by (bit_vector);
}

/// Two sets of days with the same days in them are one set.
proof fn lemma_same_days(a: WorkDays, b: WorkDays)
    requires
        a.0 < 128,
        b.0 < 128,
        a@ == b@,
    ensures
        a == b,
{
    let (x, y) = (a.0, b.0);
    assert(a@.contains(Weekday::Mon) == (x & 1 != 0));
    assert(a@.contains(Weekday::Tue) == (x & 2 != 0));
    assert(a@.contains(Weekday::Wed) == (x & 4 != 0));
    assert(a@.contains(Weekday::Thu) == (x & 8 != 0));
    assert(a@.contains(Weekday::Fri) == (x & 16 != 0));
    assert(a@.contains(Weekday::Sat) == (x & 32 != 0));
    assert(a@.contains(Weekday::Sun) == (x & 64 != 0));
    assert(b@.contains(Weekday::Mon) == (y & 1 != 0));
    assert(b@.contains(Weekday::Tue) == (y & 2 != 0));
    assert(b@.contains(Weekday::Wed) == (y & 4 != 0));
    assert(b@.contains(Weekday::Thu) == (y & 8 != 0));
    assert(b@.contains(Weekday::Fri) == (y & 16 != 0));
    assert(b@.contains(Weekday::Sat) == (y & 32 != 0));
    assert(b@.contains(Weekday::Sun) == (y & 64 != 0));
    assert(a@.contains(Weekday::Mon) == b@.contains(Weekday::Mon));
    assert(a@.contains(Weekday::Tue) == b@.contains(Weekday::Tue));
    assert(a@.contains(Weekday::Wed) == b@.contains(Weekday::Wed));
    assert(a@.contains(Weekday::Thu) == b@.contains(Weekday::Thu));
    assert(a@.contains(Weekday::Fri) == b@.contains(Weekday::Fri));
    assert(a@.contains(Weekday::Sat) == b@.contains(Weekday::Sat));
    assert(a@.contains(Weekday::Sun) == b@.contains(Weekday::Sun));
    assert((x < 128 && y < 128 && (x & 1 != 0) == (y & 1 != 0) && (x & 2 != 0) == (y & 2 != 0)
        && (x & 4 != 0) == (y & 4 != 0) && (x & 8 != 0) == (y & 8 != 0) && (x & 16 != 0) == (y
        & 16 != 0) && (x & 32 != 0) == (y & 32 != 0) && (x & 64 != 0) == (y & 64 != 0)) ==> x
        == y) by (bit_vector);
}

/// The bit a day is held in.
pub fn bit(day: Weekday) -> (r: u8)
    ensures
        r == bit_of(day),
{
    let p = position(day);
    assert(p == 0 ==> 1u8 << p == 1u8) by (bit_vector);
    assert(p == 1 ==> 1u8 << p == 2u8) by (bit_vector);
    assert(p == 2 ==> 1u8 << p == 4u8) by (bit_vector);
    assert(p == 3 ==> 1u8 << p == 8u8) by (bit_vector);
    assert(p == 4 ==> 1u8 << p == 16u8) by (bit_vector);
    assert(p == 5 ==> 1u8 << p == 32u8) by (bit_vector);
    assert(p == 6 ==> 1u8 << p == 64u8) by (bit_vector);
    1u8 << p
}

/// The place of a day in the week, Monday first.
pub fn position(day: Weekday) -> (r: u8)
    ensures
        r == place_of(day),
{
    match day {
        Weekday::Mon => 0,
        Weekday::Tue => 1,
        Weekday::Wed => 2,
        Weekday::Thu => 3,
        Weekday::Fri => 4,
        Weekday::Sat => 5,
        Weekday::Sun => 6,
    }
}


/// How a date is written, as the setting holds it.
#[derive(Clone, Copy, Debug, PartialEq, Eq, Structural)]
pub enum DateStyle {
    /// Whatever the locale writes, which the application resolves.
    Locale,
    DayFirst,
    MonthFirst,
}

/// How a date is written, once the locale has been consulted.
#[derive(Clone, Copy, Debug, PartialEq, Eq, Structural)]
pub enum DateOrder {
    DayFirst,
    MonthFirst,
}

/// The floating window's size in logical pixels.
#[derive(Clone, Copy, Debug, PartialEq, Eq, Structural)]
pub struct WindowSize {
    pub width: u16,
    pub height: u16,
}

/// The narrowest and widest a window may be asked to be.
pub const LEAST: i64 = 200;

pub const MOST: i64 = 10_000;

/// A number held to a range.
pub open spec fn held(value: int, least: int, most: int) -> int {
    if value < least {
        least
    } else if value > most {
        most
    } else {
        value
    }
}

/// The five sizes the settings page steps through, smallest first.
pub open spec fn preset_sizes() -> Seq<WindowSize> {
    seq![
        WindowSize { width: 730, height: 550 },
        WindowSize { width: 870, height: 650 },
        WindowSize { width: 1010, height: 755 },
        WindowSize { width: 1150, height: 860 },
        WindowSize { width: 1290, height: 960 },
    ]
}

/// The grid each preset gives, in the order the presets are in.
pub open spec fn preset_cells() -> Seq<(u16, u16)> {
    seq![(100u16, 30u16), (120u16, 36u16), (140u16, 42u16), (160u16, 48u16), (180u16, 54u16)]
}

/// A size each side of which is one a window may be asked to be.
pub open spec fn size_in_range(size: WindowSize) -> bool {
    LEAST <= size.width <= MOST && LEAST <= size.height <= MOST
}

impl WindowSize {
    /// The five sizes the page steps through, smallest first, each a
    /// whole number of cells in foot with Omarchy's default font.
    pub fn presets() -> (r: Vec<WindowSize>)
        ensures
            r@ == preset_sizes(),
    {
        let r = vec![
            WindowSize { width: 730, height: 550 },
            WindowSize { width: 870, height: 650 },
            WindowSize { width: 1010, height: 755 },
            WindowSize { width: 1150, height: 860 },
            WindowSize { width: 1290, height: 960 },
        ];
        assert(r@ =~= preset_sizes());
        r
    }

    /// A size, held to the range whatever it is given.
    pub fn new(width: i64, height: i64) -> (r: WindowSize)
        ensures
            r.width == held(width as int, LEAST as int, MOST as int),
            r.height == held(height as int, LEAST as int, MOST as int),
            size_in_range(r),
    {
        WindowSize {
            width: clamp(width, LEAST, MOST) as u16,
            height: clamp(height, LEAST, MOST) as u16,
        }
    }

    /// The grid this size gives, for the sizes that were chosen to give a
    /// whole one; any other size is a number of pixels and nothing more.
    pub fn cells(self) -> (r: Option<(u16, u16)>)
        ensures
            r == (if preset_sizes().contains(self) {
                Some(preset_cells()[preset_sizes().index_of(self)])
            } else {
                None::<(u16, u16)>
            }),
    {
        let presets = WindowSize::presets();
        let cells: Vec<(u16, u16)> = vec![(100, 30), (120, 36), (140, 42), (160, 48), (180, 54)];
        assert(cells@ =~= preset_cells());
        let mut at: usize = 0;
        while at < presets.len()
            invariant
                presets@ == preset_sizes(),
                cells@ == preset_cells(),
                at <= 5,
                forall|j: int| 0 <= j < at ==> presets@[j] != self,
            decreases 5 - at,
        {
            if presets[at] == self {
                proof {
                    assert(preset_sizes().contains(self));
                    preset_sizes().index_of_first_ensures(self);
                    assert(preset_sizes().index_of(self) == at);
                }
                return Some(cells[at]);
            }
            at = at + 1;
        }
        None
    }

    /// The middle preset, 120 by 36 cells in foot with Omarchy's default
    /// font, which is the size the wireframes are drawn at.
    pub fn default_size() -> (r: WindowSize)
        ensures
            r == preset_sizes()[1],
    {
        WindowSize { width: 870, height: 650 }
    }
}

impl Default for WindowSize {
    fn default() -> (r: WindowSize)
        ensures
            r == preset_sizes()[1],
    {
        WindowSize::default_size()
    }
}

/// `i64::clamp`.
pub fn clamp(value: i64, least: i64, most: i64) -> (r: i64)
    requires
        least <= most,
    ensures
        r == held(value as int, least as int, most as int),
{
    if value < least {
        least
    } else if value > most {
        most
    } else {
        value
    }
}


// ---- the settings ----------------------------------------------------

/// Every setting, as the contracts speak of it.
#[verifier::ext_equal]
pub struct SettingsView {
    pub day_starts_at: u8,
    pub week_starts_on: WeekStart,
    pub work_days: Set<Weekday>,
    pub review_opens_itself: bool,
    pub due_ahead_days: u16,
    pub backfill_days: u16,
    pub pile_horizon_days: u16,
    pub floating_window: bool,
    pub window_size: WindowSize,
    pub mouse: bool,
    pub message_seconds: u8,
    pub date_style: DateStyle,
    pub confirm_delete: bool,
    pub spell_check_notes: bool,
}

/// The ranges the numbers are held to.
pub open spec fn in_range(v: SettingsView) -> bool {
    &&& v.day_starts_at <= 23
    &&& v.due_ahead_days <= 365
    &&& v.backfill_days <= 365
    &&& v.pile_horizon_days <= 3650
    &&& v.message_seconds <= 60
}

/// What every setting is until somebody changes it.
pub open spec fn default_view() -> SettingsView {
    SettingsView {
        day_starts_at: 5,
        week_starts_on: WeekStart::Monday,
        work_days: Set::new(|d: Weekday| super::rule::work_day(d)),
        review_opens_itself: true,
        due_ahead_days: 0,
        backfill_days: 0,
        pile_horizon_days: 0,
        floating_window: true,
        window_size: preset_sizes()[1],
        mouse: true,
        message_seconds: 4,
        date_style: DateStyle::Locale,
        confirm_delete: false,
        spell_check_notes: false,
    }
}

/// Every setting, as one value. The fields are private because each has
/// a range and the type may not hold a value outside it: a setter takes
/// what a page or a codec has, and holds it to the range.
#[derive(Clone, Copy, Debug, PartialEq, Eq, Structural)]
pub struct Settings {
    day_starts_at: u8,
    week_starts_on: WeekStart,
    work_days: WorkDays,
    review_opens_itself: bool,
    due_ahead_days: u16,
    backfill_days: u16,
    pile_horizon_days: u16,
    floating_window: bool,
    window_size: WindowSize,
    mouse: bool,
    message_seconds: u8,
    date_style: DateStyle,
    confirm_delete: bool,
    spell_check_notes: bool,
}

impl View for Settings {
    type V = SettingsView;

    closed spec fn view(&self) -> SettingsView {
        SettingsView {
            day_starts_at: self.day_starts_at,
            week_starts_on: self.week_starts_on,
            work_days: self.work_days@,
            review_opens_itself: self.review_opens_itself,
            due_ahead_days: self.due_ahead_days,
            backfill_days: self.backfill_days,
            pile_horizon_days: self.pile_horizon_days,
            floating_window: self.floating_window,
            window_size: self.window_size,
            mouse: self.mouse,
            message_seconds: self.message_seconds,
            date_style: self.date_style,
            confirm_delete: self.confirm_delete,
            spell_check_notes: self.spell_check_notes,
        }
    }
}

impl Default for Settings {
    fn default() -> (r: Settings)
        ensures
            r@ == default_view(),
    {
        Settings::defaults()
    }
}

impl Settings {
    #[verifier::type_invariant]
    closed spec fn held_to_range(self) -> bool {
        in_range(self@)
    }

    /// Every setting at its default.
    pub fn defaults() -> (r: Settings)
        ensures
            r@ == default_view(),
    {
        let r = Settings {
            day_starts_at: 5,
            week_starts_on: WeekStart::Monday,
            work_days: WorkDays::default_days(),
            review_opens_itself: true,
            due_ahead_days: 0,
            backfill_days: 0,
            pile_horizon_days: 0,
            floating_window: true,
            window_size: WindowSize::default_size(),
            mouse: true,
            message_seconds: 4,
            date_style: DateStyle::Locale,
            confirm_delete: false,
            spell_check_notes: false,
        };
        assert(r@ =~~= default_view());
        r
    }

    /// The working day of an instant: the date it falls on once the
    /// hours before the day began are taken off it, so 01:30 on Saturday
    /// belongs to Friday while the day starts at 5.
    pub fn working_day(&self, instant: &Stamp) -> (day: Date)
        ensures
            working_day_of(self@, instant@, day),
            instant.day_from(self@.day_starts_at as int) matches Some(d) ==> day == d,
    {
        instant.date_before(self.day_starts_at())
    }

    pub fn day_starts_at(&self) -> (r: u8)
        ensures
            r == self@.day_starts_at,
            r <= 23,
    {
        proof {
            use_type_invariant(self);
        }
        self.day_starts_at
    }

    /// The hour the day begins, held to `0..=23`.
    pub fn set_day_starts_at(&mut self, hour: i64)
        ensures
            final(self)@ == (SettingsView {
                day_starts_at: held(hour as int, 0, 23) as u8,
                ..old(self)@
            }),
    {
        proof {
            use_type_invariant(&*self);
        }
        self.day_starts_at = clamp(hour, 0, 23) as u8;
    }

    pub fn week_starts_on(&self) -> (r: WeekStart)
        ensures
            r == self@.week_starts_on,
    {
        self.week_starts_on
    }

    pub fn set_week_starts_on(&mut self, start: WeekStart)
        ensures
            final(self)@ == (SettingsView { week_starts_on: start, ..old(self)@ }),
    {
        proof {
            use_type_invariant(&*self);
        }
        self.week_starts_on = start;
    }

    pub fn work_days(&self) -> (r: WorkDays)
        ensures
            r@ == self@.work_days,
    {
        self.work_days
    }

    /// An empty set is held here and refused by the change that would
    /// save it, so that the last day can be turned off on the way to
    /// turning another one on.
    pub fn set_work_days(&mut self, days: WorkDays)
        ensures
            final(self)@ == (SettingsView { work_days: days@, ..old(self)@ }),
    {
        proof {
            use_type_invariant(&*self);
        }
        self.work_days = days;
    }

    pub fn toggle_work_day(&mut self, day: Weekday)
        ensures
            final(self)@ == (SettingsView {
                work_days: if old(self)@.work_days.contains(day) {
                    old(self)@.work_days.remove(day)
                } else {
                    old(self)@.work_days.insert(day)
                },
                ..old(self)@
            }),
    {
        proof {
            use_type_invariant(&*self);
        }
        let mut days = self.work_days;
        days.toggle(day);
        self.work_days = days;
    }

    pub fn review_opens_itself(&self) -> (r: bool)
        ensures
            r == self@.review_opens_itself,
    {
        self.review_opens_itself
    }

    pub fn set_review_opens_itself(&mut self, opens: bool)
        ensures
            final(self)@ == (SettingsView { review_opens_itself: opens, ..old(self)@ }),
    {
        proof {
            use_type_invariant(&*self);
        }
        self.review_opens_itself = opens;
    }

    pub fn due_ahead_days(&self) -> (r: u16)
        ensures
            r == self@.due_ahead_days,
            r <= 365,
    {
        proof {
            use_type_invariant(self);
        }
        self.due_ahead_days
    }

    pub fn set_due_ahead_days(&mut self, days: i64)
        ensures
            final(self)@ == (SettingsView {
                due_ahead_days: held(days as int, 0, 365) as u16,
                ..old(self)@
            }),
    {
        proof {
            use_type_invariant(&*self);
        }
        self.due_ahead_days = clamp(days, 0, 365) as u16;
    }

    pub fn backfill_days(&self) -> (r: u16)
        ensures
            r == self@.backfill_days,
            r <= 365,
    {
        proof {
            use_type_invariant(self);
        }
        self.backfill_days
    }

    /// Zero is no cap: every copy of a schedule is made.
    pub fn set_backfill_days(&mut self, days: i64)
        ensures
            final(self)@ == (SettingsView {
                backfill_days: held(days as int, 0, 365) as u16,
                ..old(self)@
            }),
    {
        proof {
            use_type_invariant(&*self);
        }
        self.backfill_days = clamp(days, 0, 365) as u16;
    }

    pub fn pile_horizon_days(&self) -> (r: u16)
        ensures
            r == self@.pile_horizon_days,
            r <= 3650,
    {
        proof {
            use_type_invariant(self);
        }
        self.pile_horizon_days
    }

    /// Zero hides nothing: the whole pile is on the pile.
    pub fn set_pile_horizon_days(&mut self, days: i64)
        ensures
            final(self)@ == (SettingsView {
                pile_horizon_days: held(days as int, 0, 3650) as u16,
                ..old(self)@
            }),
    {
        proof {
            use_type_invariant(&*self);
        }
        self.pile_horizon_days = clamp(days, 0, 3650) as u16;
    }

    pub fn floating_window(&self) -> (r: bool)
        ensures
            r == self@.floating_window,
    {
        self.floating_window
    }

    pub fn set_floating_window(&mut self, floating: bool)
        ensures
            final(self)@ == (SettingsView { floating_window: floating, ..old(self)@ }),
    {
        proof {
            use_type_invariant(&*self);
        }
        self.floating_window = floating;
    }

    pub fn window_size(&self) -> (r: WindowSize)
        ensures
            r == self@.window_size,
    {
        self.window_size
    }

    pub fn set_window_size(&mut self, size: WindowSize)
        ensures
            final(self)@ == (SettingsView { window_size: size, ..old(self)@ }),
    {
        proof {
            use_type_invariant(&*self);
        }
        self.window_size = size;
    }

    pub fn mouse(&self) -> (r: bool)
        ensures
            r == self@.mouse,
    {
        self.mouse
    }

    pub fn set_mouse(&mut self, mouse: bool)
        ensures
            final(self)@ == (SettingsView { mouse: mouse, ..old(self)@ }),
    {
        proof {
            use_type_invariant(&*self);
        }
        self.mouse = mouse;
    }

    pub fn message_seconds(&self) -> (r: u8)
        ensures
            r == self@.message_seconds,
            r <= 60,
    {
        proof {
            use_type_invariant(self);
        }
        self.message_seconds
    }

    /// Zero keeps a message until the next key.
    pub fn set_message_seconds(&mut self, seconds: i64)
        ensures
            final(self)@ == (SettingsView {
                message_seconds: held(seconds as int, 0, 60) as u8,
                ..old(self)@
            }),
    {
        proof {
            use_type_invariant(&*self);
        }
        self.message_seconds = clamp(seconds, 0, 60) as u8;
    }

    pub fn date_style(&self) -> (r: DateStyle)
        ensures
            r == self@.date_style,
    {
        self.date_style
    }

    pub fn set_date_style(&mut self, style: DateStyle)
        ensures
            final(self)@ == (SettingsView { date_style: style, ..old(self)@ }),
    {
        proof {
            use_type_invariant(&*self);
        }
        self.date_style = style;
    }

    pub fn confirm_delete(&self) -> (r: bool)
        ensures
            r == self@.confirm_delete,
    {
        self.confirm_delete
    }

    pub fn set_confirm_delete(&mut self, confirm: bool)
        ensures
            final(self)@ == (SettingsView { confirm_delete: confirm, ..old(self)@ }),
    {
        proof {
            use_type_invariant(&*self);
        }
        self.confirm_delete = confirm;
    }

    pub fn spell_check_notes(&self) -> (r: bool)
        ensures
            r == self@.spell_check_notes,
    {
        self.spell_check_notes
    }

    pub fn set_spell_check_notes(&mut self, check: bool)
        ensures
            final(self)@ == (SettingsView { spell_check_notes: check, ..old(self)@ }),
    {
        proof {
            use_type_invariant(&*self);
        }
        self.spell_check_notes = check;
    }
}


// ---- the text codec --------------------------------------------------

/// A number as the codec reads one: a whole number that fits an `i64`.
pub open spec fn number_of(value: Seq<char>) -> Option<int> {
    match integer_of(value) {
        Some(n) => if i64::MIN <= n <= i64::MAX {
            Some(n)
        } else {
            None
        },
        None => None,
    }
}

/// `true` and `false`, and nothing else.
pub open spec fn flag_of(value: Seq<char>) -> Option<bool> {
    if value == "true"@ {
        Some(true)
    } else if value == "false"@ {
        Some(false)
    } else {
        None
    }
}

/// The key a day is written under in the list of work days.
pub open spec fn day_key(day: Weekday) -> Seq<char> {
    match day {
        Weekday::Mon => "mon"@,
        Weekday::Tue => "tue"@,
        Weekday::Wed => "wed"@,
        Weekday::Thu => "thu"@,
        Weekday::Fri => "fri"@,
        Weekday::Sat => "sat"@,
        Weekday::Sun => "sun"@,
    }
}

/// The day whose key a name is.
pub open spec fn day_named(name: Seq<char>) -> Option<Weekday> {
    if name == "mon"@ {
        Some(Weekday::Mon)
    } else if name == "tue"@ {
        Some(Weekday::Tue)
    } else if name == "wed"@ {
        Some(Weekday::Wed)
    } else if name == "thu"@ {
        Some(Weekday::Thu)
    } else if name == "fri"@ {
        Some(Weekday::Fri)
    } else if name == "sat"@ {
        Some(Weekday::Sat)
    } else if name == "sun"@ {
        Some(Weekday::Sun)
    } else {
        None
    }
}

/// The days a list of names names, the blank ones left out. A name that
/// is not a day makes it no list at all, rather than a shorter one.
pub open spec fn days_of_names(names: Seq<Seq<char>>) -> Option<Seq<Weekday>>
    decreases names.len(),
{
    if names.len() == 0 {
        Some(Seq::empty())
    } else {
        match days_of_names(names.drop_last()) {
            None => None,
            Some(days) => {
                let name = trimmed(names.last());
                if name.len() == 0 {
                    Some(days)
                } else {
                    match day_named(name) {
                        Some(day) => Some(days.push(day)),
                        None => None,
                    }
                }
            },
        }
    }
}

/// `mon,tue,wed,thu,fri`.
pub open spec fn work_days_of(value: Seq<char>) -> Option<Set<Weekday>> {
    match days_of_names(pieces(value, ',')) {
        Some(days) => Some(set_of(days)),
        None => None,
    }
}

/// `870x650`: two numbers either side of the first `x`, held to the
/// range a window may be.
pub open spec fn size_of(value: Seq<char>) -> Option<WindowSize> {
    if value.contains('x') {
        let at = choose|k: int| first_at(value, 'x', k);
        let width = number_of(trimmed(value.subrange(0, at)));
        let height = number_of(trimmed(value.subrange(at + 1, value.len() as int)));
        match (width, height) {
            (Some(w), Some(h)) => Some(
                WindowSize {
                    width: held(w, LEAST as int, MOST as int) as u16,
                    height: held(h, LEAST as int, MOST as int) as u16,
                },
            ),
            _ => None,
        }
    } else {
        None
    }
}

/// One row of the table read into the settings: the value is trimmed,
/// an unknown key is ignored and a value that cannot be read leaves the
/// setting as it was.
#[verifier::opaque]
pub open spec fn read_pair(s: SettingsView, key: Seq<char>, raw: Seq<char>) -> SettingsView {
    let value = trimmed(raw);
    if key == "day_starts_at"@ {
        match number_of(value) {
            Some(n) => SettingsView { day_starts_at: held(n, 0, 23) as u8, ..s },
            None => s,
        }
    } else if key == "week_starts_on"@ {
        if value == "monday"@ {
            SettingsView { week_starts_on: WeekStart::Monday, ..s }
        } else if value == "sunday"@ {
            SettingsView { week_starts_on: WeekStart::Sunday, ..s }
        } else {
            s
        }
    } else if key == "work_days"@ {
        match work_days_of(value) {
            Some(days) => SettingsView { work_days: days, ..s },
            None => s,
        }
    } else if key == "review_opens_itself"@ {
        match flag_of(value) {
            Some(on) => SettingsView { review_opens_itself: on, ..s },
            None => s,
        }
    } else if key == "due_ahead_days"@ {
        match number_of(value) {
            Some(n) => SettingsView { due_ahead_days: held(n, 0, 365) as u16, ..s },
            None => s,
        }
    } else if key == "backfill_days"@ {
        match number_of(value) {
            Some(n) => SettingsView { backfill_days: held(n, 0, 365) as u16, ..s },
            None => s,
        }
    } else if key == "pile_horizon_days"@ {
        match number_of(value) {
            Some(n) => SettingsView { pile_horizon_days: held(n, 0, 3650) as u16, ..s },
            None => s,
        }
    } else if key == "floating_window"@ {
        match flag_of(value) {
            Some(on) => SettingsView { floating_window: on, ..s },
            None => s,
        }
    } else if key == "window_size"@ {
        match size_of(value) {
            Some(size) => SettingsView { window_size: size, ..s },
            None => s,
        }
    } else if key == "mouse"@ {
        match flag_of(value) {
            Some(on) => SettingsView { mouse: on, ..s },
            None => s,
        }
    } else if key == "message_seconds"@ {
        match number_of(value) {
            Some(n) => SettingsView { message_seconds: held(n, 0, 60) as u8, ..s },
            None => s,
        }
    } else if key == "date_style"@ {
        if value == "locale"@ {
            SettingsView { date_style: DateStyle::Locale, ..s }
        } else if value == "day_first"@ {
            SettingsView { date_style: DateStyle::DayFirst, ..s }
        } else if value == "month_first"@ {
            SettingsView { date_style: DateStyle::MonthFirst, ..s }
        } else {
            s
        }
    } else if key == "confirm_delete"@ {
        match flag_of(value) {
            Some(on) => SettingsView { confirm_delete: on, ..s },
            None => s,
        }
    } else if key == "spell_check_notes"@ {
        match flag_of(value) {
            Some(on) => SettingsView { spell_check_notes: on, ..s },
            None => s,
        }
    } else {
        s
    }
}

/// The rows of the table read in order, from the defaults: a later row
/// for a key wins over an earlier one.
pub open spec fn read_pairs(pairs: Seq<(Seq<char>, Seq<char>)>) -> SettingsView
    decreases pairs.len(),
{
    if pairs.len() == 0 {
        default_view()
    } else {
        read_pair(read_pairs(pairs.drop_last()), pairs.last().0, pairs.last().1)
    }
}

/// The rows as their characters.
pub open spec fn rows_of(pairs: Seq<(String, String)>) -> Seq<(Seq<char>, Seq<char>)> {
    pairs.map_values(|p: (String, String)| (p.0@, p.1@))
}

pub open spec fn bool_text(b: bool) -> Seq<char> {
    if b {
        "true"@
    } else {
        "false"@
    }
}

/// Every setting as a row, the ones at their default included.
pub open spec fn written(s: SettingsView) -> Seq<(Seq<char>, Seq<char>)> {
    seq![
        ("day_starts_at"@, decimal(s.day_starts_at as nat)),
        ("week_starts_on"@, if s.week_starts_on == WeekStart::Monday {
            "monday"@
        } else {
            "sunday"@
        }),
        ("work_days"@, joined(
            week().filter(|d: Weekday| s.work_days.contains(d)).map_values(|d: Weekday| day_key(d)),
            ","@,
        )),
        ("review_opens_itself"@, bool_text(s.review_opens_itself)),
        ("due_ahead_days"@, decimal(s.due_ahead_days as nat)),
        ("backfill_days"@, decimal(s.backfill_days as nat)),
        ("pile_horizon_days"@, decimal(s.pile_horizon_days as nat)),
        ("floating_window"@, bool_text(s.floating_window)),
        ("window_size"@, decimal(s.window_size.width as nat) + "x"@ + decimal(
            s.window_size.height as nat,
        )),
        ("mouse"@, bool_text(s.mouse)),
        ("message_seconds"@, decimal(s.message_seconds as nat)),
        ("date_style"@, match s.date_style {
            DateStyle::Locale => "locale"@,
            DateStyle::DayFirst => "day_first"@,
            DateStyle::MonthFirst => "month_first"@,
        }),
        ("confirm_delete"@, bool_text(s.confirm_delete)),
        ("spell_check_notes"@, bool_text(s.spell_check_notes)),
    ]
}

/// A number, where the value is one.
fn number(value: &[char]) -> (r: Option<i64>)
    ensures
        match r {
            Some(n) => number_of(value@) == Some(n as int),
            None => number_of(value@).is_none(),
        },
{
    parse_i64(value)
}

/// `true` or `false`, where the value is one.
fn flag(value: &[char]) -> (r: Option<bool>)
    ensures
        r == flag_of(value@),
{
    if is(value, "true") {
        Some(true)
    } else if is(value, "false") {
        Some(false)
    } else {
        None
    }
}

/// The key a day is written under.
pub fn weekday_key(day: Weekday) -> (r: &'static str)
    ensures
        r@ == day_key(day),
{
    match day {
        Weekday::Mon => "mon",
        Weekday::Tue => "tue",
        Weekday::Wed => "wed",
        Weekday::Thu => "thu",
        Weekday::Fri => "fri",
        Weekday::Sat => "sat",
        Weekday::Sun => "sun",
    }
}

/// The day a key names.
pub fn weekday(name: &[char]) -> (r: Option<Weekday>)
    ensures
        r == day_named(name@),
{
    if is(name, "mon") {
        Some(Weekday::Mon)
    } else if is(name, "tue") {
        Some(Weekday::Tue)
    } else if is(name, "wed") {
        Some(Weekday::Wed)
    } else if is(name, "thu") {
        Some(Weekday::Thu)
    } else if is(name, "fri") {
        Some(Weekday::Fri)
    } else if is(name, "sat") {
        Some(Weekday::Sat)
    } else if is(name, "sun") {
        Some(Weekday::Sun)
    } else {
        None
    }
}

/// `mon,tue,wed,thu,fri`. A list with a name in it that is not a day is
/// no list at all, rather than a shorter one.
pub fn work_days(value: &[char]) -> (r: Option<WorkDays>)
    ensures
        match r {
            Some(days) => work_days_of(value@) == Some(days@),
            None => work_days_of(value@).is_none(),
        },
{
    let names = split_on(value, ',');
    let mut days: Vec<Weekday> = Vec::new();
    let mut i: usize = 0;
    while i < names.len()
        invariant
            i <= names@.len(),
            views(names@) == pieces(value@, ','),
            days_of_names(views(names@).subrange(0, i as int)) == Some(days@),
        decreases names@.len() - i,
    {
        let ghost done = views(names@).subrange(0, i as int);
        proof {
            assert(views(names@).subrange(0, i + 1).drop_last() =~= done);
            assert(views(names@).subrange(0, i + 1).last() == names@[i as int]@);
        }
        let name = trim(names[i].as_slice());
        if name.len() > 0 {
            match weekday(name.as_slice()) {
                Some(day) => days.push(day),
                None => {
                    proof {
                        let longer = views(names@).subrange(0, i + 1);
                        assert(days_of_names(longer).is_none());
                        lemma_none_stays_none(views(names@), i as int + 1);
                        assert(views(names@).subrange(0, names@.len() as int) =~= views(names@));
                    }
                    return None;
                },
            }
        }
        i = i + 1;
    }
    proof {
        assert(views(names@).subrange(0, names@.len() as int) =~= views(names@));
    }
    Some(WorkDays::of(days.as_slice()))
}

/// Once a name that is not a day has been met, no longer list is a list.
proof fn lemma_none_stays_none(names: Seq<Seq<char>>, k: int)
    requires
        0 <= k <= names.len(),
        days_of_names(names.subrange(0, k)).is_none(),
    ensures
        days_of_names(names).is_none(),
    decreases names.len() - k,
{
    if k < names.len() {
        assert(names.subrange(0, k + 1).drop_last() =~= names.subrange(0, k));
        lemma_none_stays_none(names, k + 1);
    } else {
        assert(names.subrange(0, k) =~= names);
    }
}

/// `870x650`.
pub fn window_size(value: &[char]) -> (r: Option<WindowSize>)
    ensures
        r == size_of(value@),
{
    match find_char(value, 'x') {
        None => None,
        Some(at) => {
            proof {
                assert(value@.contains('x'));
                let k = choose|k: int| first_at(value@, 'x', k);
                assert(k == at);
            }
            assert(at < value.len());
            let width = trim(slice_of(value, 0, at).as_slice());
            let height = trim(slice_of(value, at + 1, value.len()).as_slice());
            match (number(width.as_slice()), number(height.as_slice())) {
                (Some(w), Some(h)) => Some(WindowSize::new(w, h)),
                _ => None,
            }
        },
    }
}


/// One row of the table read into the settings.
fn read_row(settings: &mut Settings, key: &[char], raw: &[char])
    ensures
        final(settings)@ == read_pair(old(settings)@, key@, raw@),
{
    reveal(read_pair);
    let value = trim(raw);
    let value = value.as_slice();
    if is(key, "day_starts_at") {
        if let Some(hour) = number(value) {
            settings.set_day_starts_at(hour);
        }
    } else if is(key, "week_starts_on") {
        if is(value, "monday") {
            settings.set_week_starts_on(WeekStart::Monday);
        } else if is(value, "sunday") {
            settings.set_week_starts_on(WeekStart::Sunday);
        }
    } else if is(key, "work_days") {
        if let Some(days) = work_days(value) {
            settings.set_work_days(days);
        }
    } else if is(key, "review_opens_itself") {
        if let Some(on) = flag(value) {
            settings.set_review_opens_itself(on);
        }
    } else if is(key, "due_ahead_days") {
        if let Some(days) = number(value) {
            settings.set_due_ahead_days(days);
        }
    } else if is(key, "backfill_days") {
        if let Some(days) = number(value) {
            settings.set_backfill_days(days);
        }
    } else if is(key, "pile_horizon_days") {
        if let Some(days) = number(value) {
            settings.set_pile_horizon_days(days);
        }
    } else if is(key, "floating_window") {
        if let Some(on) = flag(value) {
            settings.set_floating_window(on);
        }
    } else if is(key, "window_size") {
        if let Some(size) = window_size(value) {
            settings.set_window_size(size);
        }
    } else if is(key, "mouse") {
        if let Some(on) = flag(value) {
            settings.set_mouse(on);
        }
    } else if is(key, "message_seconds") {
        if let Some(seconds) = number(value) {
            settings.set_message_seconds(seconds);
        }
    } else if is(key, "date_style") {
        if is(value, "locale") {
            settings.set_date_style(DateStyle::Locale);
        } else if is(value, "day_first") {
            settings.set_date_style(DateStyle::DayFirst);
        } else if is(value, "month_first") {
            settings.set_date_style(DateStyle::MonthFirst);
        }
    } else if is(key, "confirm_delete") {
        if let Some(on) = flag(value) {
            settings.set_confirm_delete(on);
        }
    } else if is(key, "spell_check_notes") {
        if let Some(on) = flag(value) {
            settings.set_spell_check_notes(on);
        }
    }
    proof {
        assert(final(settings)@ =~~= read_pair(old(settings)@, key@, raw@));
    }
}

impl Settings {
    /// The rows of the `settings` table, read into a value. Anything the
    /// codec does not recognise leaves that setting at its default.
    pub fn from_pairs(pairs: &[(String, String)]) -> (r: Settings)
        ensures
            r@ == read_pairs(rows_of(pairs@)),
    {
        let mut settings = Settings::defaults();
        let mut i: usize = 0;
        while i < pairs.len()
            invariant
                i <= pairs@.len(),
                settings@ == read_pairs(rows_of(pairs@).subrange(0, i as int)),
            decreases pairs@.len() - i,
        {
            proof {
                assert(rows_of(pairs@).subrange(0, i + 1).drop_last() =~= rows_of(
                    pairs@,
                ).subrange(0, i as int));
            }
            let key = chars_of(pairs[i].0.as_str());
            let raw = chars_of(pairs[i].1.as_str());
            read_row(&mut settings, key.as_slice(), raw.as_slice());
            proof {
                let row = rows_of(pairs@)[i as int];
                assert(row.0 == key@);
                assert(row.1 == raw@);
                assert(settings@ =~~= read_pairs(rows_of(pairs@).subrange(0, i + 1)));
            }
            i = i + 1;
        }
        proof {
            assert(rows_of(pairs@).subrange(0, pairs@.len() as int) =~= rows_of(pairs@));
        }
        settings
    }
}


/// One row of the table.
fn row(key: &str, value: &[char]) -> (r: (String, String))
    ensures
        r.0@ == key@,
        r.1@ == value@,
{
    (key.to_owned(), string_of(value))
}

fn number_text(n: u64) -> (r: Vec<char>)
    ensures
        r@ == decimal(n as nat),
{
    decimal_of(n)
}

fn flag_text(b: bool) -> (r: Vec<char>)
    ensures
        r@ == bool_text(b),
{
    if b {
        chars_of("true")
    } else {
        chars_of("false")
    }
}

/// The work days as the table writes them: their keys, Monday first,
/// between commas.
fn days_text(days: WorkDays) -> (r: Vec<char>)
    ensures
        r@ == joined(
            week().filter(|d: Weekday| days@.contains(d)).map_values(|d: Weekday| day_key(d)),
            ","@,
        ),
{
    let listed = days.iter();
    let ghost keys = listed@.map_values(|d: Weekday| day_key(d));
    let mut out: Vec<char> = Vec::new();
    let mut i: usize = 0;
    while i < listed.len()
        invariant
            i <= listed@.len(),
            keys == listed@.map_values(|d: Weekday| day_key(d)),
            out@ == joined(keys.subrange(0, i as int), ","@),
        decreases listed@.len() - i,
    {
        let ghost was = out@;
        if i > 0 {
            append_str(&mut out, ",");
        }
        append_str(&mut out, weekday_key(listed[i]));
        proof {
            let done = keys.subrange(0, i as int);
            assert(keys.subrange(0, i + 1) =~= done.push(keys[i as int]));
            if i > 0 {
                crate::text::lemma_joined_push(done, ","@, keys[i as int]);
            } else {
                assert(done.push(keys[i as int]) =~= seq![keys[i as int]]);
                assert(out@ =~= keys[i as int]);
            }
        }
        i = i + 1;
    }
    proof {
        assert(keys.subrange(0, listed@.len() as int) =~= keys);
    }
    out
}

impl Settings {
    /// Every setting as a row, including the ones left at their default,
    /// so that what the program is running with can be read off the
    /// table.
    pub fn to_pairs(&self) -> (r: Vec<(String, String)>)
        ensures
            rows_of(r@) == written(self@),
    {
        let week_start = match self.week_starts_on {
            WeekStart::Monday => chars_of("monday"),
            WeekStart::Sunday => chars_of("sunday"),
        };
        let mut size = number_text(self.window_size.width as u64);
        append_str(&mut size, "x");
        append_all(&mut size, number_text(self.window_size.height as u64).as_slice());
        let style = match self.date_style {
            DateStyle::Locale => chars_of("locale"),
            DateStyle::DayFirst => chars_of("day_first"),
            DateStyle::MonthFirst => chars_of("month_first"),
        };
        let r = vec![
            row("day_starts_at", number_text(self.day_starts_at as u64).as_slice()),
            row("week_starts_on", week_start.as_slice()),
            row("work_days", days_text(self.work_days).as_slice()),
            row("review_opens_itself", flag_text(self.review_opens_itself).as_slice()),
            row("due_ahead_days", number_text(self.due_ahead_days as u64).as_slice()),
            row("backfill_days", number_text(self.backfill_days as u64).as_slice()),
            row("pile_horizon_days", number_text(self.pile_horizon_days as u64).as_slice()),
            row("floating_window", flag_text(self.floating_window).as_slice()),
            row("window_size", size.as_slice()),
            row("mouse", flag_text(self.mouse).as_slice()),
            row("message_seconds", number_text(self.message_seconds as u64).as_slice()),
            row("date_style", style.as_slice()),
            row("confirm_delete", flag_text(self.confirm_delete).as_slice()),
            row("spell_check_notes", flag_text(self.spell_check_notes).as_slice()),
        ];
        assert(rows_of(r@) =~= written(self@));
        r
    }

    /// What is wrong with these settings, as the sentence the hint bar
    /// shows. Everything a range can catch is caught by the setters, so
    /// the one thing left is a set that cannot be empty.
    pub fn problem(&self) -> (r: Option<&'static str>)
        ensures
            r.is_some() == (self@.work_days == Set::<Weekday>::empty()),
            r.is_some() ==> r.unwrap()@ == "At least one day of the week must be a work day."@,
    {
        if self.work_days.is_empty() {
            Some("At least one day of the week must be a work day.")
        } else {
            None
        }
    }
}


// ---- the codec reads back what it writes -----------------------------

proof fn lemma_number_back(n: nat)
    requires
        n <= i64::MAX,
    ensures
        number_of(trimmed(decimal(n))) == Some(n as int),
{
    crate::text::lemma_decimal_reads_back(n);
    let t = decimal(n);
    assert(crate::text::digit(t[0]));
    assert(crate::text::digit(t.last()));
    crate::text::lemma_trimmed_plain(t);
}

proof fn lemma_flag_back(b: bool)
    ensures
        flag_of(trimmed(bool_text(b))) == Some(b),
{
    reveal_strlit("true");
    reveal_strlit("false");
    crate::text::lemma_trimmed_plain(bool_text(b));
}

proof fn lemma_day_key(d: Weekday)
    ensures
        day_key(d).len() == 3,
        !day_key(d).contains(','),
        trimmed(day_key(d)) == day_key(d),
        day_named(day_key(d)) == Some(d),
        !crate::text::white(day_key(d)[0]),
        !crate::text::white(day_key(d)[2]),
{
    reveal_strlit("mon");
    reveal_strlit("tue");
    reveal_strlit("wed");
    reveal_strlit("thu");
    reveal_strlit("fri");
    reveal_strlit("sat");
    reveal_strlit("sun");
    crate::text::lemma_trimmed_plain(day_key(d));
}

/// The keys of some days, named again, are those days.
proof fn lemma_days_of_keys(days: Seq<Weekday>)
    ensures
        days_of_names(days.map_values(|d: Weekday| day_key(d))) == Some(days),
    decreases days.len(),
{
    let keys = days.map_values(|d: Weekday| day_key(d));
    if days.len() > 0 {
        lemma_days_of_keys(days.drop_last());
        assert(keys.drop_last() =~= days.drop_last().map_values(|d: Weekday| day_key(d)));
        lemma_day_key(days.last());
        assert(days.drop_last().push(days.last()) =~= days);
    } else {
        assert(keys =~= Seq::<Seq<char>>::empty());
    }
}

/// Every day of the week is in the week.
proof fn lemma_in_week(d: Weekday)
    ensures
        week().contains(d),
{
    match d {
        Weekday::Mon => assert(week()[0] == d),
        Weekday::Tue => assert(week()[1] == d),
        Weekday::Wed => assert(week()[2] == d),
        Weekday::Thu => assert(week()[3] == d),
        Weekday::Fri => assert(week()[4] == d),
        Weekday::Sat => assert(week()[5] == d),
        Weekday::Sun => assert(week()[6] == d),
    }
}

proof fn lemma_work_days_back(days: Set<Weekday>)
    ensures
        work_days_of(
            trimmed(
                joined(
                    week().filter(|d: Weekday| days.contains(d)).map_values(
                        |d: Weekday| day_key(d),
                    ),
                    ","@,
                ),
            ),
        ) == Some(days),
{
    reveal_strlit(",");
    let listed = week().filter(|d: Weekday| days.contains(d));
    let keys = listed.map_values(|d: Weekday| day_key(d));
    let text = joined(keys, ","@);
    assert(","@ =~= seq![',']);
    lemma_days_of_keys(listed);
    assert(set_of(listed) =~= days) by {
        assert forall|d: Weekday| set_of(listed).contains(d) == days.contains(d) by {
            lemma_in_week(d);
            let k = choose|k: int| 0 <= k < week().len() && week()[k] == d;
            broadcast use vstd::seq_lib::group_filter_ensures;
            if days.contains(d) {
                assert(listed.contains(d));
            }
        }
    }
    if keys.len() == 0 {
        assert(text =~= Seq::<char>::empty());
        crate::text::lemma_trimmed_plain(text);
        assert(pieces(text, ',') =~= seq![Seq::<char>::empty()]);
        assert(listed =~= Seq::<Weekday>::empty());
        let names = pieces(text, ',');
        assert(names.drop_last() =~= Seq::<Seq<char>>::empty());
        assert(trimmed(names.last()) =~= Seq::<char>::empty()) by {
            crate::text::lemma_trimmed_plain(Seq::<char>::empty());
        }
        assert(days_of_names(names.drop_last()) == Some(Seq::<Weekday>::empty()));
        assert(days_of_names(names) == Some(Seq::<Weekday>::empty()));
        assert(work_days_of(trimmed(text)) == Some(set_of(listed)));
    } else {
        assert forall|j: int| 0 <= j < keys.len() implies !(#[trigger] keys[j]).contains(',') && keys[j].len() == 3
            && !crate::text::white(keys[j][0]) && !crate::text::white(keys[j][2]) by {
            lemma_day_key(listed[j]);
        }
        crate::text::lemma_pieces_of_joined(keys, ',');
        lemma_joined_ends(keys);
        crate::text::lemma_trimmed_plain(text);
        assert(trimmed(text) == text);
        assert(pieces(text, ',') == keys);
        assert(days_of_names(keys) == Some(listed));
        assert(work_days_of(text) == Some(set_of(listed)));
    }
}

/// A list of keys joined by commas begins and ends with a letter.
proof fn lemma_joined_ends(keys: Seq<Seq<char>>)
    requires
        keys.len() >= 1,
        forall|j: int| 0 <= j < keys.len() ==> (#[trigger] keys[j]).len() == 3 && !crate::text::white(
            keys[j][0],
        ) && !crate::text::white(keys[j][2]),
    ensures
        joined(keys, seq![',']).len() > 0,
        !crate::text::white(joined(keys, seq![','])[0]),
        !crate::text::white(joined(keys, seq![',']).last()),
    decreases keys.len(),
{
    if keys.len() > 1 {
        let rest = keys.drop_first();
        assert forall|j: int| 0 <= j < rest.len() implies (#[trigger] rest[j]).len() == 3
            && !crate::text::white(rest[j][0]) && !crate::text::white(rest[j][2]) by {
            assert(rest[j] == keys[j + 1]);
        }
        lemma_joined_ends(rest);
    }
}

proof fn lemma_size_back(size: WindowSize)
    requires
        size_in_range(size),
    ensures
        size_of(
            trimmed(decimal(size.width as nat) + "x"@ + decimal(size.height as nat)),
        ) == Some(size),
{
    reveal_strlit("x");
    let w = decimal(size.width as nat);
    let h = decimal(size.height as nat);
    let text = w + "x"@ + h;
    crate::text::lemma_decimal_reads_back(size.width as nat);
    crate::text::lemma_decimal_reads_back(size.height as nat);
    assert(text[0] == w[0]);
    assert(text.last() == h.last());
    assert(crate::text::digit(w[0]));
    assert(crate::text::digit(h.last()));
    crate::text::lemma_trimmed_plain(text);
    let at = w.len() as int;
    assert(crate::text::first_at(text, 'x', at)) by {
        assert forall|j: int| 0 <= j < at implies text[j] != 'x' by {
            assert(text[j] == w[j]);
            assert(crate::text::digit(w[j]));
        }
    }
    assert(text.contains('x')) by {
        assert(text[at] == 'x');
    }
    let k = choose|k: int| crate::text::first_at(text, 'x', k);
    assert(k == at) by {
        if k < at {
            assert(text[k] != 'x');
        }
        if k > at {
            assert(text[at] != 'x');
        }
    }
    assert(text.subrange(0, at) =~= w);
    assert(text.subrange(at + 1, text.len() as int) =~= h);
    lemma_number_back(size.width as nat);
    lemma_number_back(size.height as nat);
}

proof fn lemma_read_step(rows: Seq<(Seq<char>, Seq<char>)>, k: int)
    requires
        0 <= k < rows.len(),
    ensures
        read_pairs(rows.subrange(0, k + 1)) == read_pair(
            read_pairs(rows.subrange(0, k)),
            rows[k].0,
            rows[k].1,
        ),
{
    assert(rows.subrange(0, k + 1).drop_last() =~= rows.subrange(0, k));
}

proof fn lemma_row_day_starts_at(x: SettingsView, s: SettingsView)
    requires
        in_range(s),
        size_in_range(s.window_size),
    ensures
        read_pair(x, written(s)[0].0, written(s)[0].1) == (SettingsView { day_starts_at: s.day_starts_at, ..x }),
{
    reveal(read_pair);
    reveal_strlit("day_starts_at");
    lemma_number_back(s.day_starts_at as nat);
    assert(written(s)[0].0 == "day_starts_at"@);
    assert(read_pair(x, written(s)[0].0, written(s)[0].1) =~~= (SettingsView { day_starts_at: s.day_starts_at, ..x }));
}

proof fn lemma_row_week_starts_on(x: SettingsView, s: SettingsView)
    requires
        in_range(s),
        size_in_range(s.window_size),
    ensures
        read_pair(x, written(s)[1].0, written(s)[1].1) == (SettingsView { week_starts_on: s.week_starts_on, ..x }),
{
    reveal(read_pair);
    reveal_strlit("day_starts_at");
    reveal_strlit("week_starts_on");
    reveal_strlit("monday");
    reveal_strlit("sunday");
    crate::text::lemma_trimmed_plain("monday"@);
    crate::text::lemma_trimmed_plain("sunday"@);
    assert(written(s)[1].0 == "week_starts_on"@);
    assert("week_starts_on"@.len() == 14);
    assert("day_starts_at"@.len() == 13);
    assert(written(s)[1].0 != "day_starts_at"@);
    assert(trimmed(written(s)[1].1) == written(s)[1].1);
    assert(written(s)[1].0 == "week_starts_on"@);
    assert("week_starts_on"@ != "day_starts_at"@) by {
        assert("week_starts_on"@.len() == 14);
        assert("day_starts_at"@.len() == 13);
    }
    assert(read_pair(x, written(s)[1].0, written(s)[1].1) =~~= (SettingsView { week_starts_on: s.week_starts_on, ..x }));
}

proof fn lemma_row_work_days(x: SettingsView, s: SettingsView)
    requires
        in_range(s),
        size_in_range(s.window_size),
    ensures
        read_pair(x, written(s)[2].0, written(s)[2].1) == (SettingsView { work_days: s.work_days, ..x }),
{
    reveal(read_pair);
    reveal_strlit("day_starts_at");
    reveal_strlit("week_starts_on");
    reveal_strlit("work_days");
    lemma_work_days_back(s.work_days);
    assert(written(s)[2].0 == "work_days"@);
    assert("work_days"@ != "day_starts_at"@) by {
        assert("work_days"@.len() == 9);
        assert("day_starts_at"@.len() == 13);
    }
    assert("work_days"@ != "week_starts_on"@) by {
        assert("work_days"@.len() == 9);
        assert("week_starts_on"@.len() == 14);
    }
    assert(read_pair(x, written(s)[2].0, written(s)[2].1) =~~= (SettingsView { work_days: s.work_days, ..x }));
}

proof fn lemma_row_review_opens_itself(x: SettingsView, s: SettingsView)
    requires
        in_range(s),
        size_in_range(s.window_size),
    ensures
        read_pair(x, written(s)[3].0, written(s)[3].1) == (SettingsView { review_opens_itself: s.review_opens_itself, ..x }),
{
    reveal(read_pair);
    reveal_strlit("day_starts_at");
    reveal_strlit("week_starts_on");
    reveal_strlit("work_days");
    reveal_strlit("review_opens_itself");
    lemma_flag_back(s.review_opens_itself);
    assert(written(s)[3].0 == "review_opens_itself"@);
    assert("review_opens_itself"@ != "day_starts_at"@) by {
        assert("review_opens_itself"@.len() == 19);
        assert("day_starts_at"@.len() == 13);
    }
    assert("review_opens_itself"@ != "week_starts_on"@) by {
        assert("review_opens_itself"@.len() == 19);
        assert("week_starts_on"@.len() == 14);
    }
    assert("review_opens_itself"@ != "work_days"@) by {
        assert("review_opens_itself"@.len() == 19);
        assert("work_days"@.len() == 9);
    }
    assert(read_pair(x, written(s)[3].0, written(s)[3].1) =~~= (SettingsView { review_opens_itself: s.review_opens_itself, ..x }));
}

proof fn lemma_row_due_ahead_days(x: SettingsView, s: SettingsView)
    requires
        in_range(s),
        size_in_range(s.window_size),
    ensures
        read_pair(x, written(s)[4].0, written(s)[4].1) == (SettingsView { due_ahead_days: s.due_ahead_days, ..x }),
{
    reveal(read_pair);
    reveal_strlit("day_starts_at");
    reveal_strlit("week_starts_on");
    reveal_strlit("work_days");
    reveal_strlit("review_opens_itself");
    reveal_strlit("due_ahead_days");
    lemma_number_back(s.due_ahead_days as nat);
    assert(written(s)[4].0 == "due_ahead_days"@);
    assert("due_ahead_days"@ != "day_starts_at"@) by {
        assert("due_ahead_days"@.len() == 14);
        assert("day_starts_at"@.len() == 13);
    }
    assert("due_ahead_days"@ != "week_starts_on"@) by {
        assert("due_ahead_days"@[0] == 'd');
        assert("week_starts_on"@[0] == 'w');
    }
    assert("due_ahead_days"@ != "work_days"@) by {
        assert("due_ahead_days"@.len() == 14);
        assert("work_days"@.len() == 9);
    }
    assert("due_ahead_days"@ != "review_opens_itself"@) by {
        assert("due_ahead_days"@.len() == 14);
        assert("review_opens_itself"@.len() == 19);
    }
    assert(read_pair(x, written(s)[4].0, written(s)[4].1) =~~= (SettingsView { due_ahead_days: s.due_ahead_days, ..x }));
}

proof fn lemma_row_backfill_days(x: SettingsView, s: SettingsView)
    requires
        in_range(s),
        size_in_range(s.window_size),
    ensures
        read_pair(x, written(s)[5].0, written(s)[5].1) == (SettingsView { backfill_days: s.backfill_days, ..x }),
{
    reveal(read_pair);
    reveal_strlit("day_starts_at");
    reveal_strlit("week_starts_on");
    reveal_strlit("work_days");
    reveal_strlit("review_opens_itself");
    reveal_strlit("due_ahead_days");
    reveal_strlit("backfill_days");
    lemma_number_back(s.backfill_days as nat);
    assert(written(s)[5].0 == "backfill_days"@);
    assert("backfill_days"@ != "day_starts_at"@) by {
        assert("backfill_days"@[0] == 'b');
        assert("day_starts_at"@[0] == 'd');
    }
    assert("backfill_days"@ != "week_starts_on"@) by {
        assert("backfill_days"@.len() == 13);
        assert("week_starts_on"@.len() == 14);
    }
    assert("backfill_days"@ != "work_days"@) by {
        assert("backfill_days"@.len() == 13);
        assert("work_days"@.len() == 9);
    }
    assert("backfill_days"@ != "review_opens_itself"@) by {
        assert("backfill_days"@.len() == 13);
        assert("review_opens_itself"@.len() == 19);
    }
    assert("backfill_days"@ != "due_ahead_days"@) by {
        assert("backfill_days"@.len() == 13);
        assert("due_ahead_days"@.len() == 14);
    }
    assert(read_pair(x, written(s)[5].0, written(s)[5].1) =~~= (SettingsView { backfill_days: s.backfill_days, ..x }));
}

proof fn lemma_row_pile_horizon_days(x: SettingsView, s: SettingsView)
    requires
        in_range(s),
        size_in_range(s.window_size),
    ensures
        read_pair(x, written(s)[6].0, written(s)[6].1) == (SettingsView { pile_horizon_days: s.pile_horizon_days, ..x }),
{
    reveal(read_pair);
    reveal_strlit("day_starts_at");
    reveal_strlit("week_starts_on");
    reveal_strlit("work_days");
    reveal_strlit("review_opens_itself");
    reveal_strlit("due_ahead_days");
    reveal_strlit("backfill_days");
    reveal_strlit("pile_horizon_days");
    lemma_number_back(s.pile_horizon_days as nat);
    assert(written(s)[6].0 == "pile_horizon_days"@);
    assert("pile_horizon_days"@ != "day_starts_at"@) by {
        assert("pile_horizon_days"@.len() == 17);
        assert("day_starts_at"@.len() == 13);
    }
    assert("pile_horizon_days"@ != "week_starts_on"@) by {
        assert("pile_horizon_days"@.len() == 17);
        assert("week_starts_on"@.len() == 14);
    }
    assert("pile_horizon_days"@ != "work_days"@) by {
        assert("pile_horizon_days"@.len() == 17);
        assert("work_days"@.len() == 9);
    }
    assert("pile_horizon_days"@ != "review_opens_itself"@) by {
        assert("pile_horizon_days"@.len() == 17);
        assert("review_opens_itself"@.len() == 19);
    }
    assert("pile_horizon_days"@ != "due_ahead_days"@) by {
        assert("pile_horizon_days"@.len() == 17);
        assert("due_ahead_days"@.len() == 14);
    }
    assert("pile_horizon_days"@ != "backfill_days"@) by {
        assert("pile_horizon_days"@.len() == 17);
        assert("backfill_days"@.len() == 13);
    }
    assert(read_pair(x, written(s)[6].0, written(s)[6].1) =~~= (SettingsView { pile_horizon_days: s.pile_horizon_days, ..x }));
}

proof fn lemma_row_floating_window(x: SettingsView, s: SettingsView)
    requires
        in_range(s),
        size_in_range(s.window_size),
    ensures
        read_pair(x, written(s)[7].0, written(s)[7].1) == (SettingsView { floating_window: s.floating_window, ..x }),
{
    reveal(read_pair);
    reveal_strlit("day_starts_at");
    reveal_strlit("week_starts_on");
    reveal_strlit("work_days");
    reveal_strlit("review_opens_itself");
    reveal_strlit("due_ahead_days");
    reveal_strlit("backfill_days");
    reveal_strlit("pile_horizon_days");
    reveal_strlit("floating_window");
    lemma_flag_back(s.floating_window);
    assert(written(s)[7].0 == "floating_window"@);
    assert("floating_window"@ != "day_starts_at"@) by {
        assert("floating_window"@.len() == 15);
        assert("day_starts_at"@.len() == 13);
    }
    assert("floating_window"@ != "week_starts_on"@) by {
        assert("floating_window"@.len() == 15);
        assert("week_starts_on"@.len() == 14);
    }
    assert("floating_window"@ != "work_days"@) by {
        assert("floating_window"@.len() == 15);
        assert("work_days"@.len() == 9);
    }
    assert("floating_window"@ != "review_opens_itself"@) by {
        assert("floating_window"@.len() == 15);
        assert("review_opens_itself"@.len() == 19);
    }
    assert("floating_window"@ != "due_ahead_days"@) by {
        assert("floating_window"@.len() == 15);
        assert("due_ahead_days"@.len() == 14);
    }
    assert("floating_window"@ != "backfill_days"@) by {
        assert("floating_window"@.len() == 15);
        assert("backfill_days"@.len() == 13);
    }
    assert("floating_window"@ != "pile_horizon_days"@) by {
        assert("floating_window"@.len() == 15);
        assert("pile_horizon_days"@.len() == 17);
    }
    assert(read_pair(x, written(s)[7].0, written(s)[7].1) =~~= (SettingsView { floating_window: s.floating_window, ..x }));
}

proof fn lemma_row_window_size(x: SettingsView, s: SettingsView)
    requires
        in_range(s),
        size_in_range(s.window_size),
    ensures
        read_pair(x, written(s)[8].0, written(s)[8].1) == (SettingsView { window_size: s.window_size, ..x }),
{
    reveal(read_pair);
    reveal_strlit("day_starts_at");
    reveal_strlit("week_starts_on");
    reveal_strlit("work_days");
    reveal_strlit("review_opens_itself");
    reveal_strlit("due_ahead_days");
    reveal_strlit("backfill_days");
    reveal_strlit("pile_horizon_days");
    reveal_strlit("floating_window");
    reveal_strlit("window_size");
    lemma_size_back(s.window_size);
    assert(written(s)[8].0 == "window_size"@);
    assert("window_size"@ != "day_starts_at"@) by {
        assert("window_size"@.len() == 11);
        assert("day_starts_at"@.len() == 13);
    }
    assert("window_size"@ != "week_starts_on"@) by {
        assert("window_size"@.len() == 11);
        assert("week_starts_on"@.len() == 14);
    }
    assert("window_size"@ != "work_days"@) by {
        assert("window_size"@.len() == 11);
        assert("work_days"@.len() == 9);
    }
    assert("window_size"@ != "review_opens_itself"@) by {
        assert("window_size"@.len() == 11);
        assert("review_opens_itself"@.len() == 19);
    }
    assert("window_size"@ != "due_ahead_days"@) by {
        assert("window_size"@.len() == 11);
        assert("due_ahead_days"@.len() == 14);
    }
    assert("window_size"@ != "backfill_days"@) by {
        assert("window_size"@.len() == 11);
        assert("backfill_days"@.len() == 13);
    }
    assert("window_size"@ != "pile_horizon_days"@) by {
        assert("window_size"@.len() == 11);
        assert("pile_horizon_days"@.len() == 17);
    }
    assert("window_size"@ != "floating_window"@) by {
        assert("window_size"@.len() == 11);
        assert("floating_window"@.len() == 15);
    }
    assert(read_pair(x, written(s)[8].0, written(s)[8].1) =~~= (SettingsView { window_size: s.window_size, ..x }));
}

proof fn lemma_row_mouse(x: SettingsView, s: SettingsView)
    requires
        in_range(s),
        size_in_range(s.window_size),
    ensures
        read_pair(x, written(s)[9].0, written(s)[9].1) == (SettingsView { mouse: s.mouse, ..x }),
{
    reveal(read_pair);
    reveal_strlit("day_starts_at");
    reveal_strlit("week_starts_on");
    reveal_strlit("work_days");
    reveal_strlit("review_opens_itself");
    reveal_strlit("due_ahead_days");
    reveal_strlit("backfill_days");
    reveal_strlit("pile_horizon_days");
    reveal_strlit("floating_window");
    reveal_strlit("window_size");
    reveal_strlit("mouse");
    lemma_flag_back(s.mouse);
    assert(written(s)[9].0 == "mouse"@);
    assert("mouse"@ != "day_starts_at"@) by {
        assert("mouse"@.len() == 5);
        assert("day_starts_at"@.len() == 13);
    }
    assert("mouse"@ != "week_starts_on"@) by {
        assert("mouse"@.len() == 5);
        assert("week_starts_on"@.len() == 14);
    }
    assert("mouse"@ != "work_days"@) by {
        assert("mouse"@.len() == 5);
        assert("work_days"@.len() == 9);
    }
    assert("mouse"@ != "review_opens_itself"@) by {
        assert("mouse"@.len() == 5);
        assert("review_opens_itself"@.len() == 19);
    }
    assert("mouse"@ != "due_ahead_days"@) by {
        assert("mouse"@.len() == 5);
        assert("due_ahead_days"@.len() == 14);
    }
    assert("mouse"@ != "backfill_days"@) by {
        assert("mouse"@.len() == 5);
        assert("backfill_days"@.len() == 13);
    }
    assert("mouse"@ != "pile_horizon_days"@) by {
        assert("mouse"@.len() == 5);
        assert("pile_horizon_days"@.len() == 17);
    }
    assert("mouse"@ != "floating_window"@) by {
        assert("mouse"@.len() == 5);
        assert("floating_window"@.len() == 15);
    }
    assert("mouse"@ != "window_size"@) by {
        assert("mouse"@.len() == 5);
        assert("window_size"@.len() == 11);
    }
    assert(read_pair(x, written(s)[9].0, written(s)[9].1) =~~= (SettingsView { mouse: s.mouse, ..x }));
}

proof fn lemma_row_message_seconds(x: SettingsView, s: SettingsView)
    requires
        in_range(s),
        size_in_range(s.window_size),
    ensures
        read_pair(x, written(s)[10].0, written(s)[10].1) == (SettingsView { message_seconds: s.message_seconds, ..x }),
{
    reveal(read_pair);
    reveal_strlit("day_starts_at");
    reveal_strlit("week_starts_on");
    reveal_strlit("work_days");
    reveal_strlit("review_opens_itself");
    reveal_strlit("due_ahead_days");
    reveal_strlit("backfill_days");
    reveal_strlit("pile_horizon_days");
    reveal_strlit("floating_window");
    reveal_strlit("window_size");
    reveal_strlit("mouse");
    reveal_strlit("message_seconds");
    lemma_number_back(s.message_seconds as nat);
    assert(written(s)[10].0 == "message_seconds"@);
    assert("message_seconds"@ != "day_starts_at"@) by {
        assert("message_seconds"@.len() == 15);
        assert("day_starts_at"@.len() == 13);
    }
    assert("message_seconds"@ != "week_starts_on"@) by {
        assert("message_seconds"@.len() == 15);
        assert("week_starts_on"@.len() == 14);
    }
    assert("message_seconds"@ != "work_days"@) by {
        assert("message_seconds"@.len() == 15);
        assert("work_days"@.len() == 9);
    }
    assert("message_seconds"@ != "review_opens_itself"@) by {
        assert("message_seconds"@.len() == 15);
        assert("review_opens_itself"@.len() == 19);
    }
    assert("message_seconds"@ != "due_ahead_days"@) by {
        assert("message_seconds"@.len() == 15);
        assert("due_ahead_days"@.len() == 14);
    }
    assert("message_seconds"@ != "backfill_days"@) by {
        assert("message_seconds"@.len() == 15);
        assert("backfill_days"@.len() == 13);
    }
    assert("message_seconds"@ != "pile_horizon_days"@) by {
        assert("message_seconds"@.len() == 15);
        assert("pile_horizon_days"@.len() == 17);
    }
    assert("message_seconds"@ != "floating_window"@) by {
        assert("message_seconds"@[0] == 'm');
        assert("floating_window"@[0] == 'f');
    }
    assert("message_seconds"@ != "window_size"@) by {
        assert("message_seconds"@.len() == 15);
        assert("window_size"@.len() == 11);
    }
    assert("message_seconds"@ != "mouse"@) by {
        assert("message_seconds"@.len() == 15);
        assert("mouse"@.len() == 5);
    }
    assert(read_pair(x, written(s)[10].0, written(s)[10].1) =~~= (SettingsView { message_seconds: s.message_seconds, ..x }));
}

proof fn lemma_row_date_style(x: SettingsView, s: SettingsView)
    requires
        in_range(s),
        size_in_range(s.window_size),
    ensures
        read_pair(x, written(s)[11].0, written(s)[11].1) == (SettingsView { date_style: s.date_style, ..x }),
{
    reveal(read_pair);
    reveal_strlit("day_starts_at");
    reveal_strlit("week_starts_on");
    reveal_strlit("work_days");
    reveal_strlit("review_opens_itself");
    reveal_strlit("due_ahead_days");
    reveal_strlit("backfill_days");
    reveal_strlit("pile_horizon_days");
    reveal_strlit("floating_window");
    reveal_strlit("window_size");
    reveal_strlit("mouse");
    reveal_strlit("message_seconds");
    reveal_strlit("date_style");
    reveal_strlit("locale");
    reveal_strlit("day_first");
    reveal_strlit("month_first");
    crate::text::lemma_trimmed_plain("locale"@);
    crate::text::lemma_trimmed_plain("day_first"@);
    crate::text::lemma_trimmed_plain("month_first"@);
    assert(written(s)[11].0 == "date_style"@);
    assert("date_style"@ != "day_starts_at"@) by {
        assert("date_style"@.len() == 10);
        assert("day_starts_at"@.len() == 13);
    }
    assert("date_style"@ != "week_starts_on"@) by {
        assert("date_style"@.len() == 10);
        assert("week_starts_on"@.len() == 14);
    }
    assert("date_style"@ != "work_days"@) by {
        assert("date_style"@.len() == 10);
        assert("work_days"@.len() == 9);
    }
    assert("date_style"@ != "review_opens_itself"@) by {
        assert("date_style"@.len() == 10);
        assert("review_opens_itself"@.len() == 19);
    }
    assert("date_style"@ != "due_ahead_days"@) by {
        assert("date_style"@.len() == 10);
        assert("due_ahead_days"@.len() == 14);
    }
    assert("date_style"@ != "backfill_days"@) by {
        assert("date_style"@.len() == 10);
        assert("backfill_days"@.len() == 13);
    }
    assert("date_style"@ != "pile_horizon_days"@) by {
        assert("date_style"@.len() == 10);
        assert("pile_horizon_days"@.len() == 17);
    }
    assert("date_style"@ != "floating_window"@) by {
        assert("date_style"@.len() == 10);
        assert("floating_window"@.len() == 15);
    }
    assert("date_style"@ != "window_size"@) by {
        assert("date_style"@.len() == 10);
        assert("window_size"@.len() == 11);
    }
    assert("date_style"@ != "mouse"@) by {
        assert("date_style"@.len() == 10);
        assert("mouse"@.len() == 5);
    }
    assert("date_style"@ != "message_seconds"@) by {
        assert("date_style"@.len() == 10);
        assert("message_seconds"@.len() == 15);
    }
    assert(read_pair(x, written(s)[11].0, written(s)[11].1) =~~= (SettingsView { date_style: s.date_style, ..x }));
}

proof fn lemma_row_confirm_delete(x: SettingsView, s: SettingsView)
    requires
        in_range(s),
        size_in_range(s.window_size),
    ensures
        read_pair(x, written(s)[12].0, written(s)[12].1) == (SettingsView { confirm_delete: s.confirm_delete, ..x }),
{
    reveal(read_pair);
    reveal_strlit("day_starts_at");
    reveal_strlit("week_starts_on");
    reveal_strlit("work_days");
    reveal_strlit("review_opens_itself");
    reveal_strlit("due_ahead_days");
    reveal_strlit("backfill_days");
    reveal_strlit("pile_horizon_days");
    reveal_strlit("floating_window");
    reveal_strlit("window_size");
    reveal_strlit("mouse");
    reveal_strlit("message_seconds");
    reveal_strlit("date_style");
    reveal_strlit("confirm_delete");
    lemma_flag_back(s.confirm_delete);
    assert(written(s)[12].0 == "confirm_delete"@);
    assert("confirm_delete"@ != "day_starts_at"@) by {
        assert("confirm_delete"@.len() == 14);
        assert("day_starts_at"@.len() == 13);
    }
    assert("confirm_delete"@ != "week_starts_on"@) by {
        assert("confirm_delete"@[0] == 'c');
        assert("week_starts_on"@[0] == 'w');
    }
    assert("confirm_delete"@ != "work_days"@) by {
        assert("confirm_delete"@.len() == 14);
        assert("work_days"@.len() == 9);
    }
    assert("confirm_delete"@ != "review_opens_itself"@) by {
        assert("confirm_delete"@.len() == 14);
        assert("review_opens_itself"@.len() == 19);
    }
    assert("confirm_delete"@ != "due_ahead_days"@) by {
        assert("confirm_delete"@[0] == 'c');
        assert("due_ahead_days"@[0] == 'd');
    }
    assert("confirm_delete"@ != "backfill_days"@) by {
        assert("confirm_delete"@.len() == 14);
        assert("backfill_days"@.len() == 13);
    }
    assert("confirm_delete"@ != "pile_horizon_days"@) by {
        assert("confirm_delete"@.len() == 14);
        assert("pile_horizon_days"@.len() == 17);
    }
    assert("confirm_delete"@ != "floating_window"@) by {
        assert("confirm_delete"@.len() == 14);
        assert("floating_window"@.len() == 15);
    }
    assert("confirm_delete"@ != "window_size"@) by {
        assert("confirm_delete"@.len() == 14);
        assert("window_size"@.len() == 11);
    }
    assert("confirm_delete"@ != "mouse"@) by {
        assert("confirm_delete"@.len() == 14);
        assert("mouse"@.len() == 5);
    }
    assert("confirm_delete"@ != "message_seconds"@) by {
        assert("confirm_delete"@.len() == 14);
        assert("message_seconds"@.len() == 15);
    }
    assert("confirm_delete"@ != "date_style"@) by {
        assert("confirm_delete"@.len() == 14);
        assert("date_style"@.len() == 10);
    }
    assert(read_pair(x, written(s)[12].0, written(s)[12].1) =~~= (SettingsView { confirm_delete: s.confirm_delete, ..x }));
}

proof fn lemma_row_spell_check_notes(x: SettingsView, s: SettingsView)
    requires
        in_range(s),
        size_in_range(s.window_size),
    ensures
        read_pair(x, written(s)[13].0, written(s)[13].1) == (SettingsView { spell_check_notes: s.spell_check_notes, ..x }),
{
    reveal(read_pair);
    reveal_strlit("day_starts_at");
    reveal_strlit("week_starts_on");
    reveal_strlit("work_days");
    reveal_strlit("review_opens_itself");
    reveal_strlit("due_ahead_days");
    reveal_strlit("backfill_days");
    reveal_strlit("pile_horizon_days");
    reveal_strlit("floating_window");
    reveal_strlit("window_size");
    reveal_strlit("mouse");
    reveal_strlit("message_seconds");
    reveal_strlit("date_style");
    reveal_strlit("confirm_delete");
    reveal_strlit("spell_check_notes");
    lemma_flag_back(s.spell_check_notes);
    assert(written(s)[13].0 == "spell_check_notes"@);
    assert("spell_check_notes"@ != "day_starts_at"@) by {
        assert("spell_check_notes"@.len() == 17);
        assert("day_starts_at"@.len() == 13);
    }
    assert("spell_check_notes"@ != "week_starts_on"@) by {
        assert("spell_check_notes"@.len() == 17);
        assert("week_starts_on"@.len() == 14);
    }
    assert("spell_check_notes"@ != "work_days"@) by {
        assert("spell_check_notes"@.len() == 17);
        assert("work_days"@.len() == 9);
    }
    assert("spell_check_notes"@ != "review_opens_itself"@) by {
        assert("spell_check_notes"@.len() == 17);
        assert("review_opens_itself"@.len() == 19);
    }
    assert("spell_check_notes"@ != "due_ahead_days"@) by {
        assert("spell_check_notes"@.len() == 17);
        assert("due_ahead_days"@.len() == 14);
    }
    assert("spell_check_notes"@ != "backfill_days"@) by {
        assert("spell_check_notes"@.len() == 17);
        assert("backfill_days"@.len() == 13);
    }
    assert("spell_check_notes"@ != "pile_horizon_days"@) by {
        assert("spell_check_notes"@[0] == 's');
        assert("pile_horizon_days"@[0] == 'p');
    }
    assert("spell_check_notes"@ != "floating_window"@) by {
        assert("spell_check_notes"@.len() == 17);
        assert("floating_window"@.len() == 15);
    }
    assert("spell_check_notes"@ != "window_size"@) by {
        assert("spell_check_notes"@.len() == 17);
        assert("window_size"@.len() == 11);
    }
    assert("spell_check_notes"@ != "mouse"@) by {
        assert("spell_check_notes"@.len() == 17);
        assert("mouse"@.len() == 5);
    }
    assert("spell_check_notes"@ != "message_seconds"@) by {
        assert("spell_check_notes"@.len() == 17);
        assert("message_seconds"@.len() == 15);
    }
    assert("spell_check_notes"@ != "date_style"@) by {
        assert("spell_check_notes"@.len() == 17);
        assert("date_style"@.len() == 10);
    }
    assert("spell_check_notes"@ != "confirm_delete"@) by {
        assert("spell_check_notes"@.len() == 17);
        assert("confirm_delete"@.len() == 14);
    }
    assert(read_pair(x, written(s)[13].0, written(s)[13].1) =~~= (SettingsView { spell_check_notes: s.spell_check_notes, ..x }));
}

/// What the codec writes, it reads back: every setting in its range, and
/// a window size a window may be, comes back from its rows unchanged.
pub proof fn lemma_settings_read_back(s: SettingsView)
    requires
        in_range(s),
        size_in_range(s.window_size),
    ensures
        read_pairs(written(s)) == s,
{
    let rows = written(s);
    let s0 = default_view();
    assert(read_pairs(rows.subrange(0, 0)) == s0);
    lemma_read_step(rows, 0);
    lemma_row_day_starts_at(s0, s);
    let s1 = SettingsView { day_starts_at: s.day_starts_at, ..s0 };
    lemma_read_step(rows, 1);
    lemma_row_week_starts_on(s1, s);
    let s2 = SettingsView { week_starts_on: s.week_starts_on, ..s1 };
    lemma_read_step(rows, 2);
    lemma_row_work_days(s2, s);
    let s3 = SettingsView { work_days: s.work_days, ..s2 };
    lemma_read_step(rows, 3);
    lemma_row_review_opens_itself(s3, s);
    let s4 = SettingsView { review_opens_itself: s.review_opens_itself, ..s3 };
    lemma_read_step(rows, 4);
    lemma_row_due_ahead_days(s4, s);
    let s5 = SettingsView { due_ahead_days: s.due_ahead_days, ..s4 };
    lemma_read_step(rows, 5);
    lemma_row_backfill_days(s5, s);
    let s6 = SettingsView { backfill_days: s.backfill_days, ..s5 };
    lemma_read_step(rows, 6);
    lemma_row_pile_horizon_days(s6, s);
    let s7 = SettingsView { pile_horizon_days: s.pile_horizon_days, ..s6 };
    lemma_read_step(rows, 7);
    lemma_row_floating_window(s7, s);
    let s8 = SettingsView { floating_window: s.floating_window, ..s7 };
    lemma_read_step(rows, 8);
    lemma_row_window_size(s8, s);
    let s9 = SettingsView { window_size: s.window_size, ..s8 };
    lemma_read_step(rows, 9);
    lemma_row_mouse(s9, s);
    let s10 = SettingsView { mouse: s.mouse, ..s9 };
    lemma_read_step(rows, 10);
    lemma_row_message_seconds(s10, s);
    let s11 = SettingsView { message_seconds: s.message_seconds, ..s10 };
    lemma_read_step(rows, 11);
    lemma_row_date_style(s11, s);
    let s12 = SettingsView { date_style: s.date_style, ..s11 };
    lemma_read_step(rows, 12);
    lemma_row_confirm_delete(s12, s);
    let s13 = SettingsView { confirm_delete: s.confirm_delete, ..s12 };
    lemma_read_step(rows, 13);
    lemma_row_spell_check_notes(s13, s);
    let s14 = SettingsView { spell_check_notes: s.spell_check_notes, ..s13 };
    assert(rows.subrange(0, 14) =~= rows);
    let at = s14;
    assert(at =~~= s);
}

/// What changing the settings comes to: refused where no day of the
/// week would be a work day; otherwise the settings put whole, or nothing
/// at all where they are the ones the model has.
pub open spec fn settings_change_spec(m: super::model::ModelView, settings: Settings) -> Result<Seq<super::model::WriteView>, Seq<char>> {
    if settings@.work_days == Set::<Weekday>::empty() {
        Err("At least one day of the week must be a work day."@)
    } else if settings == m.settings {
        Ok(Seq::empty())
    } else {
        Ok(seq![super::model::WriteView::PutSettings(settings)])
    }
}

/// The settings the program is to run with from now on. Not undoable and
/// nothing on the undo stack, like the system operations.
pub fn change_settings(model: &super::model::Model, settings: Settings) -> (r: Result<super::model::Change, super::Rejected>)
    ensures
        super::dictionary::change_view(r) == settings_change_spec(model@, settings),
{
    if settings.work_days().is_empty() {
        return Err(super::Rejected("At least one day of the week must be a work day.".to_owned()));
    }
    if settings == model.settings {
        let change = super::model::Change { writes: Vec::new() };
        assert(change@ =~= Seq::<super::model::WriteView>::empty());
        return Ok(change);
    }
    let change = super::model::Change { writes: vec![super::model::Write::PutSettings(settings)] };
    assert(change@ =~= seq![super::model::WriteView::PutSettings(settings)]);
    Ok(change)
}

} // verus!
