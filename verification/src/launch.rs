//! What the program decides about its surroundings when it starts: the
//! order the locale writes dates in, and which clipboard a desktop has.
//! Reading the environment is the program's edge; these are the rules it
//! reads it by.

use vstd::prelude::*;

use crate::domain::DateOrder;
use crate::text::{chars_of, string_of};

verus! {

/// The territories that write the month before the day. Everywhere else,
/// and `C`, `POSIX` and an unset locale, writes the day first.
pub const MONTH_FIRST: [&'static str; 11] = ["US", "PH", "FM", "MH", "PW", "GU", "PR", "VI", "AS", "MP", "UM"];

/// A string uppercased the way `str::to_uppercase` does it.
pub uninterp spec fn uppercase_of(s: Seq<char>) -> Seq<char>;

/// `str::to_uppercase`. Claimed: the result is a function of the
/// characters given; the case mapping itself is not stated.
#[verifier::external_body]
fn uppercase(s: &str) -> (r: String)
    ensures
        r@ == uppercase_of(s@),
{
    s.to_uppercase()
}

/// What comes before the first of two characters, or the whole text.
pub open spec fn before_either(s: Seq<char>, a: char, b: char) -> Seq<char>
    decreases s.len(),
{
    if s.len() == 0 {
        s
    } else if s[0] == a || s[0] == b {
        Seq::empty()
    } else {
        seq![s[0]] + before_either(s.drop_first(), a, b)
    }
}

/// What comes after the first of two characters, if either is there.
pub open spec fn after_either(s: Seq<char>, a: char, b: char) -> Option<Seq<char>>
    decreases s.len(),
{
    if s.len() == 0 {
        None
    } else if s[0] == a || s[0] == b {
        Some(s.drop_first())
    } else {
        after_either(s.drop_first(), a, b)
    }
}

/// The territory a locale name names: `en_US.UTF-8` is `US`, and a name
/// with no territory in it names none.
pub open spec fn territory_of(locale: Seq<char>) -> Seq<char> {
    match after_either(before_either(locale, '.', '@'), '_', '-') {
        Some(rest) => before_either(rest, '_', '-'),
        None => Seq::empty(),
    }
}

/// Whether a territory writes the month first.
pub open spec fn month_first(territory: Seq<char>) -> bool {
    exists|i: int| 0 <= i < 11 && #[trigger] MONTH_FIRST@[i]@ == territory
}

/// The order a locale writes dates in.
pub open spec fn date_order_of(locale: Seq<char>) -> DateOrder {
    if month_first(uppercase_of(territory_of(locale))) {
        DateOrder::MonthFirst
    } else {
        DateOrder::DayFirst
    }
}

/// What comes before the first of two characters, and where it stops.
fn split_before(s: &[char], from: usize, a: char, b: char) -> (r: (Vec<char>, Option<usize>))
    requires
        from <= s@.len(),
    ensures
        r.0@ == before_either(s@.subrange(from as int, s@.len() as int), a, b),
        match r.1 {
            Some(at) => from <= at < s@.len() && after_either(s@.subrange(from as int, s@.len() as int), a, b) == Some(
                s@.subrange(at + 1, s@.len() as int),
            ),
            None => after_either(s@.subrange(from as int, s@.len() as int), a, b) is None,
        },
    decreases s@.len() - from,
{
    if from == s.len() {
        return (Vec::new(), None);
    }
    let ghost tail = s@.subrange(from as int, s@.len() as int);
    assert(tail.drop_first() =~= s@.subrange(from + 1, s@.len() as int));
    if s[from] == a || s[from] == b {
        return (Vec::new(), Some(from));
    }
    let (rest, at) = split_before(s, from + 1, a, b);
    let mut out = vec![s[from]];
    let mut i: usize = 0;
    while i < rest.len()
        invariant
            i <= rest@.len(),
            out@ == seq![s@[from as int]] + rest@.subrange(0, i as int),
        decreases rest@.len() - i,
    {
        out.push(rest[i]);
        i = i + 1;
        assert(out@ =~= seq![s@[from as int]] + rest@.subrange(0, i as int));
    }
    assert(rest@.subrange(0, rest@.len() as int) =~= rest@);
    (out, at)
}

/// Whether two runs of characters are the same.
fn same_chars(a: &[char], b: &str) -> (r: bool)
    ensures
        r == (a@ == b@),
{
    crate::text::is(a, b)
}

/// The order a locale name writes dates in: the territories of
/// `MONTH_FIRST` write the month first, and every other name, one with
/// no territory in it included, writes the day first.
pub fn date_order(locale: &str) -> (order: DateOrder)
    ensures
        order == date_order_of(locale@),
{
    let all = chars_of(locale);
    let (first, _) = split_before(all.as_slice(), 0, '.', '@');
    assert(all@.subrange(0, all@.len() as int) =~= all@);
    let (_, at) = split_before(first.as_slice(), 0, '_', '-');
    assert(first@.subrange(0, first@.len() as int) =~= first@);
    let territory: Vec<char> = match at {
        Some(i) => {
            let (t, _) = split_before(first.as_slice(), i + 1, '_', '-');
            t
        },
        None => Vec::new(),
    };
    let upper = uppercase(string_of(territory.as_slice()).as_str());
    let upper_chars = chars_of(upper.as_str());
    let mut k: usize = 0;
    while k < 11
        invariant
            k <= 11,
            upper_chars@ == uppercase_of(territory_of(locale@)),
            forall|j: int| 0 <= j < k ==> MONTH_FIRST@[j]@ != upper_chars@,
        decreases 11 - k,
    {
        if same_chars(upper_chars.as_slice(), MONTH_FIRST[k]) {
            assert(MONTH_FIRST@[k as int]@ == upper_chars@);
            return DateOrder::MonthFirst;
        }
        k = k + 1;
    }
    DateOrder::DayFirst
}

/// The clipboard program a desktop has, and what it is given: Wayland's,
/// then X's, and none without a display.
pub open spec fn clipboard_of(wayland: bool, x11: bool) -> Option<(Seq<char>, Seq<Seq<char>>)> {
    if wayland {
        Some(("wl-copy"@, seq!["--type"@, "text/plain;charset=utf-8"@]))
    } else if x11 {
        Some(("xclip"@, seq!["-selection"@, "clipboard"@, "-in"@]))
    } else {
        None
    }
}

/// The clipboard program for a desktop, with its arguments, or the
/// sentence for there being none.
pub fn clipboard(wayland: bool, x11: bool) -> (r: Result<(&'static str, Vec<&'static str>), String>)
    ensures
        match r {
            Ok((program, arguments)) => clipboard_of(wayland, x11) == Some((program@, arguments@.map_values(|a: &str| a@))),
            Err(said) => clipboard_of(wayland, x11) is None && said@ == "there is no desktop clipboard here"@,
        },
{
    if wayland {
        let arguments = vec!["--type", "text/plain;charset=utf-8"];
        assert(arguments@.map_values(|a: &str| a@) =~= seq!["--type"@, "text/plain;charset=utf-8"@]);
        Ok(("wl-copy", arguments))
    } else if x11 {
        let arguments = vec!["-selection", "clipboard", "-in"];
        assert(arguments@.map_values(|a: &str| a@) =~= seq!["-selection"@, "clipboard"@, "-in"@]);
        Ok(("xclip", arguments))
    } else {
        Err(string_of(chars_of("there is no desktop clipboard here").as_slice()))
    }
}

} // verus!
