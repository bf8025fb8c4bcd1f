//! The service's answer read out as lines of text: a task row as the one
//! line it is, a repeat rule in words, and the review.
//!
//! Nothing here is coloured, boxed or padded to a width but the id; a
//! list is lines.

use vstd::prelude::*;

use super::json::{field_of, fields_view, key_at, lemma_fields_view, lemma_key_at, list_view, lemma_list_view, Json, JsonView};
use crate::domain::settings::DateOrder;
use crate::domain::time::{civil_date_of, day_label, day_label_of, parse_civil_date};
use crate::text::{append_all, append_str, chars_of, decimal, decimal_of, digit_char, same, string_of};

verus! {

// ---- reading fields --------------------------------------------------

/// The value of a field, where the value is an object that has one.
pub open spec fn get_of(v: JsonView, key: Seq<char>) -> Option<JsonView> {
    match v {
        JsonView::Object(fields) => field_of(fields, key),
        _ => None,
    }
}

/// A field that is there and is not null.
pub open spec fn at_of(v: JsonView, key: Seq<char>) -> Option<JsonView> {
    match get_of(v, key) {
        Some(JsonView::Null) => None,
        found => found,
    }
}

/// A field that is text.
pub open spec fn text_at_of(v: JsonView, key: Seq<char>) -> Option<Seq<char>> {
    match at_of(v, key) {
        Some(JsonView::Text(s)) => Some(s),
        _ => None,
    }
}

/// A field that is a whole number a 64-bit integer holds.
pub open spec fn number_at_of(v: JsonView, key: Seq<char>) -> Option<int> {
    match at_of(v, key) {
        Some(JsonView::Number(n)) => if i64::MIN <= n <= i64::MAX {
            Some(n)
        } else {
            None
        },
        _ => None,
    }
}

/// A field that is `true`; anything else, or none, is `false`.
pub open spec fn flag_at_of(v: JsonView, key: Seq<char>) -> bool {
    get_of(v, key) == Some(JsonView::Bool(true))
}

/// The items of a field that is a list; none for anything else.
pub open spec fn rows_of(v: JsonView, key: Seq<char>) -> Seq<JsonView> {
    match at_of(v, key) {
        Some(JsonView::List(items)) => items,
        _ => Seq::empty(),
    }
}

/// The value of a field of an object.
pub(crate) fn get<'a>(v: &'a Json, key: &str) -> (r: Option<&'a Json>)
    ensures
        match r {
            Some(x) => get_of(v@, key@) == Some(x@),
            None => get_of(v@, key@) is None,
        },
{
    match v {
        Json::Object(fields) => {
            let ghost fs = fields_view(fields@);
            proof {
                lemma_fields_view(fields@);
                lemma_key_at(fs, key@);
            }
            let k = chars_of(key);
            assert(v@ == JsonView::Object(fs));
            let mut i: usize = 0;
            while i < fields.len()
                invariant
                    i <= fields@.len(),
                    fs == fields_view(fields@),
                    fs.len() == fields@.len(),
                    forall|j: int| 0 <= j < fields@.len() ==> #[trigger] fs[j] == (fields@[j].0@, fields@[j].1.view_of()),
                    forall|j: int| 0 <= j < i ==> fs[j].0 != key@,
                    k@ == key@,
                    v@ == JsonView::Object(fs),
                    0 <= key_at(fs, key@) <= fs.len(),
                    key_at(fs, key@) < fs.len() ==> fs[key_at(fs, key@)].0 == key@,
                    forall|j: int| 0 <= j < key_at(fs, key@) ==> fs[j].0 != key@,
                decreases fields@.len() - i,
            {
                let name = chars_of(fields[i].0.as_str());
                if same(name.as_slice(), k.as_slice()) {
                    proof {
                        assert(fs[i as int].0 == key@);
                        if key_at(fs, key@) < i {
                            assert(fs[key_at(fs, key@)].0 == key@);
                        }
                        assert(key_at(fs, key@) == i);
                        assert(fs[i as int] == (fields@[i as int].0@, fields@[i as int].1.view_of()));
                        assert(field_of(fs, key@) == Some(fields@[i as int].1.view_of()));
                    }
                    return Some(&fields[i].1);
                }
                i = i + 1;
            }
            proof {
                if key_at(fs, key@) < fs.len() {
                    assert(fs[key_at(fs, key@)].0 == key@);
                }
            }
            None
        },
        _ => None,
    }
}

pub(crate) fn at<'a>(v: &'a Json, key: &str) -> (r: Option<&'a Json>)
    ensures
        match r {
            Some(x) => at_of(v@, key@) == Some(x@),
            None => at_of(v@, key@) is None,
        },
{
    match get(v, key) {
        Some(Json::Null) => None,
        found => found,
    }
}

pub(crate) fn text_at<'a>(v: &'a Json, key: &str) -> (r: Option<&'a String>)
    ensures
        match r {
            Some(s) => text_at_of(v@, key@) == Some(s@),
            None => text_at_of(v@, key@) is None,
        },
{
    match at(v, key) {
        Some(Json::Text(s)) => Some(s),
        _ => None,
    }
}

pub(crate) fn number_at(v: &Json, key: &str) -> (r: Option<i64>)
    ensures
        match r {
            Some(n) => number_at_of(v@, key@) == Some(n as int),
            None => number_at_of(v@, key@) is None,
        },
{
    match at(v, key) {
        Some(Json::Number(n)) => if -0x8000_0000_0000_0000 <= *n && *n <= 0x7fff_ffff_ffff_ffff {
            Some(*n as i64)
        } else {
            None
        },
        _ => None,
    }
}

pub(crate) fn flag_at(v: &Json, key: &str) -> (r: bool)
    ensures
        r == flag_at_of(v@, key@),
{
    match get(v, key) {
        Some(Json::Bool(b)) => *b,
        _ => false,
    }
}

pub(crate) fn rows<'a>(v: &'a Json, key: &str) -> (r: &'a [Json])
    ensures
        list_view(r@) == rows_of(v@, key@),
{
    match at(v, key) {
        Some(Json::List(items)) => items.as_slice(),
        _ => {
            let empty: &[Json] = &[];
            proof {
                assert(list_view(empty@) =~= Seq::<JsonView>::empty());
            }
            empty
        },
    }
}

// ---- dates and instants ----------------------------------------------

/// An ISO date, written the way the settings write one, with "(today)"
/// after the day that is today; text that is not a date as it is.
#[verifier::opaque]
pub open spec fn date_text(iso: Seq<char>, today: Option<Seq<char>>, order: DateOrder) -> Seq<char> {
    match civil_date_of(iso) {
        Some(d) => if today == Some(iso) {
            day_label_of(d, order) + " (today)"@
        } else {
            day_label_of(d, order)
        },
        None => iso,
    }
}

pub(crate) fn write_date(out: &mut Vec<char>, iso: &str, today: Option<&String>, order: DateOrder)
    ensures
        final(out)@ == old(out)@ + date_text(
            iso@,
            match today {
                Some(t) => Some(t@),
                None => None,
            },
            order,
        ),
{
    reveal(date_text);
    match parse_civil_date(iso) {
        Some(d) => {
            let label = day_label(d, order);
            append_all(out, label.as_slice());
            let is_today = match today {
                Some(t) => same(chars_of(t.as_str()).as_slice(), chars_of(iso).as_slice()),
                None => false,
            };
            if is_today {
                append_str(out, " (today)");
            }
        },
        None => {
            let cs = chars_of(iso);
            append_all(out, cs.as_slice());
        },
    }
}

/// How many bytes UTF-8 writes a character in.
pub open spec fn utf8_len(c: char) -> int {
    if (c as u32) < 0x80 {
        1
    } else if (c as u32) < 0x800 {
        2
    } else if (c as u32) < 0x10000 {
        3
    } else {
        4
    }
}

/// The characters of a text that take up its first `n` bytes, where a
/// character ends there; nothing where one runs past it or the text is
/// shorter (what `str::get(..n)` gives).
pub open spec fn first_bytes(s: Seq<char>, n: int) -> Option<Seq<char>>
    decreases s.len(),
{
    if n <= 0 {
        Some(Seq::empty())
    } else if s.len() == 0 || utf8_len(s[0]) > n {
        None
    } else {
        match first_bytes(s.drop_first(), n - utf8_len(s[0])) {
            Some(rest) => Some(seq![s[0]] + rest),
            None => None,
        }
    }
}

/// An instant, as the day and the time of it: the text before the first
/// `T` read as a date, and the first five bytes after it.
#[verifier::opaque]
pub open spec fn stamp_text(text: Seq<char>, order: DateOrder) -> Seq<char> {
    if text.contains('T') {
        let at = choose|i: int| 0 <= i < text.len() && text[i] == 'T' && forall|j: int| 0 <= j < i ==> text[j] != 'T';
        let day = text.subrange(0, at);
        let rest = text.subrange(at + 1, text.len() as int);
        let time = match first_bytes(rest, 5) {
            Some(t) => t,
            None => Seq::empty(),
        };
        let label = match civil_date_of(day) {
            Some(d) => day_label_of(d, order),
            None => day,
        };
        label + " "@ + time
    } else {
        text
    }
}

pub(crate) fn char_bytes(c: char) -> (n: usize)
    ensures
        n == utf8_len(c),
{
    let v = c as u32;
    if v < 0x80 {
        1
    } else if v < 0x800 {
        2
    } else if v < 0x10000 {
        3
    } else {
        4
    }
}

/// The characters `first_bytes` says, from `from` on.
fn leading_bytes(s: &[char], from: usize, n: usize) -> (r: Option<Vec<char>>)
    requires
        from <= s@.len(),
    ensures
        match r {
            Some(v) => first_bytes(s@.subrange(from as int, s@.len() as int), n as int) == Some(v@),
            None => first_bytes(s@.subrange(from as int, s@.len() as int), n as int) is None,
        },
    decreases s@.len() - from,
{
    let ghost rest = s@.subrange(from as int, s@.len() as int);
    if n == 0 {
        let v: Vec<char> = Vec::new();
        assert(v@ =~= Seq::<char>::empty());
        return Some(v);
    }
    if from == s.len() {
        return None;
    }
    let c = s[from];
    assert(rest[0] == c);
    let w = char_bytes(c);
    if w > n {
        return None;
    }
    proof {
        assert(rest.drop_first() =~= s@.subrange(from + 1, s@.len() as int));
    }
    match leading_bytes(s, from + 1, n - w) {
        Some(tail) => {
            let mut v: Vec<char> = Vec::new();
            v.push(c);
            append_all(&mut v, tail.as_slice());
            assert(v@ =~= seq![c] + tail@);
            Some(v)
        },
        None => None,
    }
}

pub(crate) fn write_stamp(out: &mut Vec<char>, text: &str, order: DateOrder)
    ensures
        final(out)@ == old(out)@ + stamp_text(text@, order),
{
    reveal(stamp_text);
    let cs = chars_of(text);
    let mut at: usize = 0;
    while at < cs.len() && cs[at] != 'T'
        invariant
            at <= cs@.len(),
            cs@ == text@,
            forall|j: int| 0 <= j < at ==> cs@[j] != 'T',
        decreases cs@.len() - at,
    {
        at = at + 1;
    }
    if at == cs.len() {
        proof {
            assert(!text@.contains('T'));
        }
        append_all(out, cs.as_slice());
        return;
    }
    proof {
        assert(text@[at as int] == 'T');
        assert(text@.contains('T'));
        let c = choose|i: int| 0 <= i < text@.len() && text@[i] == 'T' && forall|j: int| 0 <= j < i ==> text@[j] != 'T';
        if c < at {
            assert(cs@[c] != 'T');
        }
        if c > at {
            assert(text@[at as int] != 'T');
        }
        assert(c == at);
    }
    let day = crate::text::slice_of(cs.as_slice(), 0, at);
    let day_text = string_of(day.as_slice());
    match parse_civil_date(day_text.as_str()) {
        Some(d) => {
            let label = day_label(d, order);
            append_all(out, label.as_slice());
        },
        None => {
            append_all(out, day.as_slice());
        },
    }
    append_str(out, " ");
    match leading_bytes(cs.as_slice(), at + 1, 5) {
        Some(time) => append_all(out, time.as_slice()),
        None => {},
    }
}

// ---- values as JSON writes them --------------------------------------

/// A hex digit, lower case.
pub open spec fn hex_char(n: int) -> char {
    if n < 10 {
        digit_char(n as nat)
    } else if n == 10 {
        'a'
    } else if n == 11 {
        'b'
    } else if n == 12 {
        'c'
    } else if n == 13 {
        'd'
    } else if n == 14 {
        'e'
    } else {
        'f'
    }
}

/// A character inside a JSON string, escaped the way serde_json escapes
/// one.
pub open spec fn escaped(c: char) -> Seq<char> {
    if c == '"' {
        seq!['\\', '"']
    } else if c == '\\' {
        seq!['\\', '\\']
    } else if c == '\n' {
        seq!['\\', 'n']
    } else if c == '\r' {
        seq!['\\', 'r']
    } else if c == '\t' {
        seq!['\\', 't']
    } else if c == '\u{8}' {
        seq!['\\', 'b']
    } else if c == '\u{c}' {
        seq!['\\', 'f']
    } else if (c as u32) < 0x20 {
        seq!['\\', 'u', '0', '0', hex_char(((c as u32) / 16) as int), hex_char(((c as u32) % 16) as int)]
    } else {
        seq![c]
    }
}

pub open spec fn escaped_all(s: Seq<char>) -> Seq<char>
    decreases s.len(),
{
    if s.len() == 0 {
        Seq::empty()
    } else {
        escaped_all(s.drop_last()) + escaped(s.last())
    }
}

/// A string as JSON writes it.
pub open spec fn quoted(s: Seq<char>) -> Seq<char> {
    seq!['"'] + escaped_all(s) + seq!['"']
}

/// A whole number in decimal, with a minus sign where it is negative.
pub open spec fn signed_decimal(n: int) -> Seq<char> {
    if n < 0 {
        seq!['-'] + decimal((-n) as nat)
    } else {
        decimal(n as nat)
    }
}

/// A value as serde_json writes it, with no spaces.
pub open spec fn json_text(v: JsonView) -> Seq<char>
    decreases v, 1int,
{
    match v {
        JsonView::Null => "null"@,
        JsonView::Bool(b) => if b {
            "true"@
        } else {
            "false"@
        },
        JsonView::Number(n) => signed_decimal(n),
        JsonView::Text(s) => quoted(s),
        JsonView::List(items) => seq!['['] + items_text(items) + seq![']'],
        JsonView::Object(fields) => seq!['{'] + fields_text(fields) + seq!['}'],
    }
}

/// The items of a list as JSON writes them, a comma between each two.
pub open spec fn items_text(items: Seq<JsonView>) -> Seq<char>
    decreases items, 0int,
{
    if items.len() == 0 {
        Seq::empty()
    } else {
        let front = items.subrange(0, items.len() - 1);
        proof {
            assert(decreases_to!(items => front));
            assert(decreases_to!(items => items[items.len() - 1]));
        }
        let last = json_text(items[items.len() - 1]);
        if front.len() == 0 {
            last
        } else {
            items_text(front) + seq![','] + last
        }
    }
}

/// The fields of an object as JSON writes them.
pub open spec fn fields_text(fields: Seq<(Seq<char>, JsonView)>) -> Seq<char>
    decreases fields, 0int,
{
    if fields.len() == 0 {
        Seq::empty()
    } else {
        let front = fields.subrange(0, fields.len() - 1);
        let f = fields[fields.len() - 1];
        proof {
            assert(decreases_to!(fields => front));
            assert(decreases_to!(fields => f));
            assert(decreases_to!(f => f.1));
        }
        let last = quoted(f.0) + seq![':'] + json_text(f.1);
        if front.len() == 0 {
            last
        } else {
            fields_text(front) + seq![','] + last
        }
    }
}

fn hex_of(n: u32) -> (c: char)
    requires
        n < 16,
    ensures
        c == hex_char(n as int),
{
    if n < 10 {
        crate::text::char_of_digit(n)
    } else if n == 10 {
        'a'
    } else if n == 11 {
        'b'
    } else if n == 12 {
        'c'
    } else if n == 13 {
        'd'
    } else if n == 14 {
        'e'
    } else {
        'f'
    }
}

fn push_two(out: &mut Vec<char>, a: char, b: char)
    ensures
        final(out)@ == old(out)@ + seq![a, b],
{
    out.push(a);
    out.push(b);
    assert(out@ =~= old(out)@ + seq![a, b]);
}

pub(crate) fn write_escaped(out: &mut Vec<char>, c: char)
    ensures
        final(out)@ == old(out)@ + escaped(c),
{
    if c == '"' {
        push_two(out, '\\', '"');
    } else if c == '\\' {
        push_two(out, '\\', '\\');
    } else if c == '\n' {
        push_two(out, '\\', 'n');
    } else if c == '\r' {
        push_two(out, '\\', 'r');
    } else if c == '\t' {
        push_two(out, '\\', 't');
    } else if c == '\u{8}' {
        push_two(out, '\\', 'b');
    } else if c == '\u{c}' {
        push_two(out, '\\', 'f');
    } else if (c as u32) < 0x20 {
        let ghost start = out@;
        let v = c as u32;
        out.push('\\');
        out.push('u');
        out.push('0');
        out.push('0');
        out.push(hex_of(v / 16));
        out.push(hex_of(v % 16));
        assert(out@ =~= start + escaped(c));
    } else {
        out.push(c);
    }
}

pub(crate) fn write_quoted(out: &mut Vec<char>, s: &str)
    ensures
        final(out)@ == old(out)@ + quoted(s@),
{
    let ghost start = out@;
    let cs = chars_of(s);
    out.push('"');
    let mut i: usize = 0;
    while i < cs.len()
        invariant
            i <= cs@.len(),
            cs@ == s@,
            out@ == start + seq!['"'] + escaped_all(cs@.subrange(0, i as int)),
        decreases cs@.len() - i,
    {
        proof {
            assert(cs@.subrange(0, i + 1).drop_last() =~= cs@.subrange(0, i as int));
        }
        write_escaped(out, cs[i]);
        i = i + 1;
    }
    out.push('"');
    assert(cs@.subrange(0, cs@.len() as int) =~= cs@);
    assert(out@ =~= start + quoted(s@));
}

pub(crate) fn decimal_wide(n: u128) -> (r: Vec<char>)
    ensures
        r@ == decimal(n as nat),
    decreases n,
{
    if n < 10 {
        let c = crate::text::char_of_digit(n as u32);
        let mut r: Vec<char> = Vec::new();
        r.push(c);
        assert(r@ =~= seq![c]);
        r
    } else {
        let mut r = decimal_wide(n / 10);
        r.push(crate::text::char_of_digit((n % 10) as u32));
        r
    }
}

pub(crate) fn write_number(out: &mut Vec<char>, n: i128)
    ensures
        final(out)@ == old(out)@ + signed_decimal(n as int),
{
    let ghost start = out@;
    if n < 0 {
        let size: u128 = if n == i128::MIN {
            0x8000_0000_0000_0000_0000_0000_0000_0000
        } else {
            (-n) as u128
        };
        out.push('-');
        let digits = decimal_wide(size);
        append_all(out, digits.as_slice());
        assert(out@ =~= start + signed_decimal(n as int));
    } else {
        let digits = decimal_wide(n as u128);
        append_all(out, digits.as_slice());
    }
}

/// A value written as JSON.
pub(crate) fn write_json(out: &mut Vec<char>, v: &Json)
    ensures
        final(out)@ == old(out)@ + json_text(v@),
    decreases v,
{
    match v {
        Json::Null => append_str(out, "null"),
        Json::Bool(b) => if *b {
            append_str(out, "true")
        } else {
            append_str(out, "false")
        },
        Json::Number(n) => write_number(out, *n),
        Json::Text(s) => write_quoted(out, s.as_str()),
        Json::List(items) => {
            let ghost start = out@;
            let ghost all = list_view(items@);
            proof {
                lemma_list_view(items@);
            }
            out.push('[');
            assert(decreases_to!(*v => *items));
            let mut i: usize = 0;
            while i < items.len()
                invariant
                    decreases_to!(*v => *items),
                    v@ == JsonView::List(all),
                    i <= items@.len(),
                    all == list_view(items@),
                    all.len() == items@.len(),
                    forall|j: int| 0 <= j < items@.len() ==> #[trigger] all[j] == items@[j].view_of(),
                    out@ == start + seq!['['] + items_text(all.subrange(0, i as int)),
                decreases items@.len() - i,
            {
                let ghost before = out@;
                proof {
                    assert(all.subrange(0, i + 1).subrange(0, i as int) =~= all.subrange(0, i as int));
                    assert(decreases_to!(*items => items@));
                    assert(decreases_to!(items@ => items@[i as int]));
                }
                if i > 0 {
                    out.push(',');
                }
                write_json(out, &items[i]);
                proof {
                    assert(all.subrange(0, i + 1)[i as int] == all[i as int]);
                    assert(out@ =~= start + seq!['['] + items_text(all.subrange(0, i + 1)));
                }
                i = i + 1;
            }
            out.push(']');
            assert(all.subrange(0, all.len() as int) =~= all);
            assert(out@ =~= start + json_text(v@));
        },
        Json::Object(fields) => {
            let ghost start = out@;
            let ghost all = fields_view(fields@);
            proof {
                lemma_fields_view(fields@);
            }
            out.push('{');
            assert(decreases_to!(*v => *fields));
            let mut i: usize = 0;
            while i < fields.len()
                invariant
                    decreases_to!(*v => *fields),
                    v@ == JsonView::Object(all),
                    i <= fields@.len(),
                    all == fields_view(fields@),
                    all.len() == fields@.len(),
                    forall|j: int| 0 <= j < fields@.len() ==> #[trigger] all[j] == (fields@[j].0@, fields@[j].1.view_of()),
                    out@ == start + seq!['{'] + fields_text(all.subrange(0, i as int)),
                decreases fields@.len() - i,
            {
                proof {
                    assert(all.subrange(0, i + 1).subrange(0, i as int) =~= all.subrange(0, i as int));
                    assert(decreases_to!(*fields => fields@));
                    assert(decreases_to!(fields@ => fields@[i as int]));
                    assert(decreases_to!(fields@[i as int] => fields@[i as int].1));
                }
                if i > 0 {
                    out.push(',');
                }
                write_quoted(out, fields[i].0.as_str());
                out.push(':');
                write_json(out, &fields[i].1);
                proof {
                    assert(all.subrange(0, i + 1)[i as int] == all[i as int]);
                    assert(out@ =~= start + seq!['{'] + fields_text(all.subrange(0, i + 1)));
                }
                i = i + 1;
            }
            out.push('}');
            assert(all.subrange(0, all.len() as int) =~= all);
            assert(out@ =~= start + json_text(v@));
        },
    }
}

// ---- repeat rules in words -------------------------------------------

/// A settings value written without its JSON quoting: text as it is, a
/// flag as on or off, a list with commas, a size as width x height, and
/// anything else as JSON writes it.
pub open spec fn plain(v: JsonView) -> Seq<char>
    decreases v, 1int,
{
    match v {
        JsonView::Text(s) => s,
        JsonView::Bool(b) => if b {
            "on"@
        } else {
            "off"@
        },
        JsonView::List(items) => plain_items(items),
        JsonView::Object(fields) => {
            let w = key_at(fields, "width"@);
            let h = key_at(fields, "height"@);
            if 0 <= w < fields.len() && 0 <= h < fields.len() {
                proof {
                    assert(decreases_to!(v => fields));
                    assert(decreases_to!(fields => fields[w]));
                    assert(decreases_to!(fields[w] => fields[w].1));
                    assert(decreases_to!(fields => fields[h]));
                    assert(decreases_to!(fields[h] => fields[h].1));
                }
                plain(fields[w].1) + seq!['x'] + plain(fields[h].1)
            } else {
                json_text(v)
            }
        },
        _ => json_text(v),
    }
}

/// The items of a list, each written plainly, a comma between each two.
pub open spec fn plain_items(items: Seq<JsonView>) -> Seq<char>
    decreases items, 0int,
{
    if items.len() == 0 {
        Seq::empty()
    } else {
        let front = items.subrange(0, items.len() - 1);
        proof {
            assert(decreases_to!(items => front));
            assert(decreases_to!(items => items[items.len() - 1]));
        }
        let last = plain(items[items.len() - 1]);
        if front.len() == 0 {
            last
        } else {
            plain_items(front) + seq![','] + last
        }
    }
}

/// Where a field stands in an object, or the number of its fields.
fn find_field(fields: &Vec<(String, Json)>, key: &str) -> (r: usize)
    ensures
        r == key_at(fields_view(fields@), key@),
{
    let ghost fs = fields_view(fields@);
    proof {
        lemma_fields_view(fields@);
        lemma_key_at(fs, key@);
    }
    let k = chars_of(key);
    let mut i: usize = 0;
    while i < fields.len()
        invariant
            i <= fields@.len(),
            fs == fields_view(fields@),
            fs.len() == fields@.len(),
            forall|j: int| 0 <= j < fields@.len() ==> #[trigger] fs[j] == (fields@[j].0@, fields@[j].1.view_of()),
            forall|j: int| 0 <= j < i ==> fs[j].0 != key@,
            k@ == key@,
            0 <= key_at(fs, key@) <= fs.len(),
            key_at(fs, key@) < fs.len() ==> fs[key_at(fs, key@)].0 == key@,
            forall|j: int| 0 <= j < key_at(fs, key@) ==> fs[j].0 != key@,
        decreases fields@.len() - i,
    {
        let name = chars_of(fields[i].0.as_str());
        if same(name.as_slice(), k.as_slice()) {
            proof {
                assert(fs[i as int].0 == key@);
                if key_at(fs, key@) < i {
                    assert(fs[key_at(fs, key@)].0 == key@);
                }
            }
            return i;
        }
        i = i + 1;
    }
    proof {
        if key_at(fs, key@) < fs.len() {
            assert(fs[key_at(fs, key@)].0 == key@);
        }
    }
    i
}

pub(crate) fn write_plain(out: &mut Vec<char>, v: &Json)
    ensures
        final(out)@ == old(out)@ + plain(v@),
    decreases v,
{
    match v {
        Json::Text(s) => {
            let cs = chars_of(s.as_str());
            append_all(out, cs.as_slice());
        },
        Json::Bool(b) => if *b {
            append_str(out, "on")
        } else {
            append_str(out, "off")
        },
        Json::List(items) => {
            let ghost start = out@;
            let ghost all = list_view(items@);
            proof {
                lemma_list_view(items@);
            }
            assert(decreases_to!(*v => *items));
            let mut i: usize = 0;
            while i < items.len()
                invariant
                    decreases_to!(*v => *items),
                    v@ == JsonView::List(all),
                    i <= items@.len(),
                    all == list_view(items@),
                    all.len() == items@.len(),
                    forall|j: int| 0 <= j < items@.len() ==> #[trigger] all[j] == items@[j].view_of(),
                    out@ == start + plain_items(all.subrange(0, i as int)),
                decreases items@.len() - i,
            {
                proof {
                    assert(all.subrange(0, i + 1).subrange(0, i as int) =~= all.subrange(0, i as int));
                    assert(decreases_to!(*items => items@));
                    assert(decreases_to!(items@ => items@[i as int]));
                }
                if i > 0 {
                    out.push(',');
                }
                write_plain(out, &items[i]);
                proof {
                    assert(all.subrange(0, i + 1)[i as int] == all[i as int]);
                    assert(out@ =~= start + plain_items(all.subrange(0, i + 1)));
                }
                i = i + 1;
            }
            assert(all.subrange(0, all.len() as int) =~= all);
        },
        Json::Object(fields) => {
            let w = find_field(fields, "width");
            let h = find_field(fields, "height");
            proof {
                lemma_fields_view(fields@);
            }
            if w < fields.len() && h < fields.len() {
                proof {
                    assert(decreases_to!(*v => *fields));
                    assert(decreases_to!(*fields => fields@));
                    assert(decreases_to!(fields@ => fields@[w as int]));
                    assert(decreases_to!(fields@[w as int] => fields@[w as int].1));
                    assert(decreases_to!(fields@ => fields@[h as int]));
                    assert(decreases_to!(fields@[h as int] => fields@[h as int].1));
                    assert(fields_view(fields@)[w as int].1 == fields@[w as int].1.view_of());
                    assert(fields_view(fields@)[h as int].1 == fields@[h as int].1.view_of());
                }
                write_plain(out, &fields[w].1);
                out.push('x');
                write_plain(out, &fields[h].1);
                let ghost o = out@;
                assert(o =~= old(out)@ + plain(v@));
            } else {
                write_json(out, v);
            }
        },
        _ => write_json(out, v),
    }
}

/// The texts among a list's items, in order.
pub open spec fn texts_of(items: Seq<JsonView>) -> Seq<Seq<char>>
    decreases items.len(),
{
    if items.len() == 0 {
        Seq::empty()
    } else {
        let front = texts_of(items.drop_last());
        match items.last() {
            JsonView::Text(t) => front.push(t),
            _ => front,
        }
    }
}

/// Texts joined by a comma and a space.
pub open spec fn joined(texts: Seq<Seq<char>>) -> Seq<char>
    decreases texts.len(),
{
    if texts.len() == 0 {
        Seq::empty()
    } else if texts.len() == 1 {
        texts[0]
    } else {
        joined(texts.drop_last()) + ", "@ + texts.last()
    }
}

/// A repeat rule, in the words the app uses for it.
#[verifier::opaque]
pub open spec fn rule_text(rule: JsonView) -> Seq<char> {
    let kind = text_at_of(rule, "kind"@);
    if kind == Some("workdays"@) {
        "every work day"@
    } else if kind == Some("daily"@) {
        "every day"@
    } else if kind == Some("weekly"@) {
        "every "@ + joined(texts_of(rows_of(rule, "weekdays"@)))
    } else if kind == Some("monthly"@) {
        match at_of(rule, "day"@) {
            Some(day) => if day == JsonView::Text("last"@) {
                "the last day of the month"@
            } else {
                "the "@ + plain(day) + " of the month"@
            },
            None => "monthly"@,
        }
    } else if kind == Some("every_n_weeks"@) {
        let n = match number_at_of(rule, "n"@) {
            Some(n) => n,
            None => 1,
        };
        let from = match text_at_of(rule, "from"@) {
            Some(t) => t,
            None => Seq::empty(),
        };
        if n == 1 {
            "every week from "@ + from
        } else {
            "every "@ + signed_decimal(n) + " weeks from "@ + from
        }
    } else {
        "on a schedule"@
    }
}

pub(crate) fn is_text(s: &String, word: &str) -> (r: bool)
    ensures
        r == (s@ == word@),
{
    crate::text::is(chars_of(s.as_str()).as_slice(), word)
}

pub(crate) fn write_rule(out: &mut Vec<char>, rule: &Json)
    ensures
        final(out)@ == old(out)@ + rule_text(rule@),
{
    reveal(rule_text);
    let kind = text_at(rule, "kind");
    let named = |word: &str| -> (r: bool)
        ensures
            r == (text_at_of(rule@, "kind"@) == Some(word@)),
        {
            match kind {
                Some(k) => is_text(k, word),
                None => false,
            }
        };
    if named("workdays") {
        append_str(out, "every work day");
    } else if named("daily") {
        append_str(out, "every day");
    } else if named("weekly") {
        append_str(out, "every ");
        let ghost start = out@;
        let days = rows(rule, "weekdays");
        let ghost all = list_view(days@);
        proof {
            lemma_list_view(days@);
        }
        let mut first = true;
        let mut i: usize = 0;
        while i < days.len()
            invariant
                i <= days@.len(),
                all == list_view(days@),
                all.len() == days@.len(),
                forall|j: int| 0 <= j < days@.len() ==> #[trigger] all[j] == days@[j].view_of(),
                out@ == start + joined(texts_of(all.subrange(0, i as int))),
                first == (texts_of(all.subrange(0, i as int)).len() == 0),
            decreases days@.len() - i,
        {
            proof {
                assert(all.subrange(0, i + 1).drop_last() =~= all.subrange(0, i as int));
            }
            let ghost ts = texts_of(all.subrange(0, i as int));
            let ghost here = all.subrange(0, i + 1);
            proof {
                assert(here.last() == all[i as int]);
            }
            match &days[i] {
                Json::Text(t) => {
                    proof {
                        assert(all[i as int] == JsonView::Text(t@));
                        assert(texts_of(here) == ts.push(t@));
                        assert(ts.push(t@).drop_last() =~= ts);
                    }
                    if !first {
                        append_str(out, ", ");
                    }
                    let cs = chars_of(t.as_str());
                    append_all(out, cs.as_slice());
                    first = false;
                    proof {
                        assert(out@ =~= start + joined(texts_of(here)));
                    }
                },
                _ => {
                    proof {
                        assert(texts_of(here) == ts);
                    }
                },
            }
            i = i + 1;
        }
        assert(all.subrange(0, all.len() as int) =~= all);
    } else if named("monthly") {
        match at(rule, "day") {
            Some(day) => {
                let last = match day {
                    Json::Text(t) => is_text(t, "last"),
                    _ => false,
                };
                if last {
                    append_str(out, "the last day of the month");
                } else {
                    append_str(out, "the ");
                    write_plain(out, day);
                    append_str(out, " of the month");
                }
            },
            None => append_str(out, "monthly"),
        }
    } else if named("every_n_weeks") {
        let n: i64 = match number_at(rule, "n") {
            Some(n) => n,
            None => 1,
        };
        if n == 1 {
            append_str(out, "every week from ");
        } else {
            append_str(out, "every ");
            write_number(out, n as i128);
            append_str(out, " weeks from ");
        }
        match text_at(rule, "from") {
            Some(t) => {
                let cs = chars_of(t.as_str());
                append_all(out, cs.as_slice());
            },
            None => {},
        }
    } else {
        append_str(out, "on a schedule");
    }
}

// ---- a task row ------------------------------------------------------

/// The text an optional string holds, as the contracts read it.
pub open spec fn opt_text(t: Option<&String>) -> Option<Seq<char>> {
    match t {
        Some(s) => Some(s@),
        None => None,
    }
}

/// `today`, `Fri 5 Sep` or `backlog`.
#[verifier::opaque]
pub open spec fn place_text(place: JsonView, today: Option<Seq<char>>, order: DateOrder) -> Seq<char> {
    let kind = text_at_of(place, "kind"@);
    if kind == Some("backlog"@) {
        "backlog"@
    } else if kind == Some("day"@) {
        match text_at_of(place, "day"@) {
            Some(day) => date_text(day, today, order),
            None => "a day"@,
        }
    } else {
        "somewhere"@
    }
}

/// One thing a row says about itself, after a `·`.
pub open spec fn note(said: bool, text: Seq<char>) -> Seq<char> {
    if said {
        " · "@ + text
    } else {
        Seq::empty()
    }
}

/// Where a task is, where the row is to say it.
#[verifier::opaque]
pub open spec fn place_note(row: JsonView, place: bool, today: Option<Seq<char>>, order: DateOrder) -> Seq<char> {
    match at_of(row, "place"@) {
        Some(p) => note(place, place_text(p, today, order)),
        None => Seq::empty(),
    }
}

/// The due chip of a view row, or the bare due date of a task row.
#[verifier::opaque]
pub open spec fn due_note(row: JsonView, today: Option<Seq<char>>, order: DateOrder) -> Seq<char> {
    match at_of(row, "due"@) {
        Some(JsonView::Object(f)) => {
            let due = JsonView::Object(f);
            let on = match text_at_of(due, "on"@) {
                Some(t) => t,
                None => Seq::empty(),
            };
            " · due "@ + date_text(on, today, order) + if flag_at_of(due, "overdue"@) {
                ", overdue"@
            } else {
                Seq::empty()
            }
        },
        _ => due_on_note(row, today, order),
    }
}

/// The reminder chip of a view row, or the bare reminder date.
#[verifier::opaque]
pub open spec fn remind_note(row: JsonView, today: Option<Seq<char>>, order: DateOrder) -> Seq<char> {
    match at_of(row, "remind"@) {
        Some(JsonView::Object(f)) => match text_at_of(JsonView::Object(f), "on"@) {
            Some(on) => " · remind "@ + date_text(on, today, order),
            None => Seq::empty(),
        },
        Some(JsonView::Text(on)) => " · remind "@ + date_text(on, today, order),
        _ => match text_at_of(row, "remind_on"@) {
            Some(on) => " · remind "@ + date_text(on, today, order),
            None => Seq::empty(),
        },
    }
}

/// The rule a row repeats by, its own or its schedule's.
#[verifier::opaque]
pub open spec fn repeat_note(row: JsonView) -> Seq<char> {
    match at_of(row, "repeat"@) {
        Some(r) => " · repeats "@ + rule_text(r),
        None => match at_of(row, "schedule"@) {
            Some(s) => " · repeats "@ + match at_of(s, "rule"@) {
                Some(r) => rule_text(r),
                None => "on a schedule"@,
            },
            None => Seq::empty(),
        },
    }
}

#[verifier::opaque]
pub open spec fn closed_note(row: JsonView, order: DateOrder) -> Seq<char> {
    match text_at_of(row, "closed_at"@) {
        Some(c) => " · closed "@ + stamp_text(c, order),
        None => Seq::empty(),
    }
}

/// A run of spaces.
pub open spec fn spaces(n: nat) -> Seq<char> {
    Seq::new(n, |i: int| ' ')
}

/// Text right-aligned in four columns.
pub open spec fn right4(s: Seq<char>) -> Seq<char> {
    if s.len() < 4 {
        spaces((4 - s.len()) as nat) + s
    } else {
        s
    }
}

/// `[ ]` open, `[*]` a focus item, `[x]` closed.
pub open spec fn mark_of(row: JsonView) -> Seq<char> {
    if at_of(row, "closed_at"@) is Some || get_of(row, "open"@) == Some(JsonView::Bool(false)) {
        "[x]"@
    } else if flag_at_of(row, "focus"@) {
        "[*]"@
    } else {
        "[ ]"@
    }
}

/// The start of a row: its id in four columns, its mark and its title.
pub open spec fn row_head(row: JsonView) -> Seq<char> {
    let id = match number_at_of(row, "id"@) {
        Some(n) => n,
        None => 0,
    };
    let title = match text_at_of(row, "title"@) {
        Some(t) => t,
        None => Seq::empty(),
    };
    "  "@ + right4(signed_decimal(id)) + "  "@ + mark_of(row) + " "@ + title
}

/// Whatever a row says about itself, each thing after a `·`.
pub open spec fn row_notes(row: JsonView, place: bool, today: Option<Seq<char>>, order: DateOrder) -> Seq<char> {
    place_note(row, place, today, order) + note(flag_at_of(row, "waiting"@), "waiting"@) + note(
        flag_at_of(row, "was_focus"@),
        "was focus"@,
    ) + due_note(row, today, order) + remind_note(row, today, order) + repeat_note(row) + note(
        flag_at_of(row, "on_the_pile"@),
        "on the pile"@,
    ) + note(flag_at_of(row, "still_open"@), "still open"@) + note(
        flag_at_of(row, "from_backlog"@),
        "from the backlog"@,
    ) + closed_note(row, order)
}

/// The one line a task row is: its id, its mark and its title, and then
/// whatever the row says about itself.
pub open spec fn row_text(row: JsonView, place: bool, today: Option<Seq<char>>, order: DateOrder) -> Seq<char> {
    row_head(row) + row_notes(row, place, today, order)
}

pub(crate) fn write_place(out: &mut Vec<char>, place: &Json, today: Option<&String>, order: DateOrder)
    ensures
        final(out)@ == old(out)@ + place_text(place@, opt_text(today), order),
{
    reveal(place_text);
    let kind = text_at(place, "kind");
    let is_kind = |word: &str| -> (r: bool)
        ensures
            r == (text_at_of(place@, "kind"@) == Some(word@)),
        {
            match kind {
                Some(k) => is_text(k, word),
                None => false,
            }
        };
    if is_kind("backlog") {
        append_str(out, "backlog");
    } else if is_kind("day") {
        match text_at(place, "day") {
            Some(day) => write_date(out, day.as_str(), today, order),
            None => append_str(out, "a day"),
        }
    } else {
        append_str(out, "somewhere");
    }
}

pub(crate) fn write_note(out: &mut Vec<char>, said: bool, text: &str)
    ensures
        final(out)@ == old(out)@ + note(said, text@),
{
    if said {
        let ghost start = out@;
        append_str(out, " · ");
        append_str(out, text);
        assert(out@ =~= start + note(said, text@));
    } else {
        assert(old(out)@ + note(said, text@) =~= old(out)@);
    }
}

pub(crate) fn write_place_note(out: &mut Vec<char>, row: &Json, place: bool, today: Option<&String>, order: DateOrder)
    ensures
        final(out)@ == old(out)@ + place_note(row@, place, opt_text(today), order),
{
    reveal(place_note);
    let ghost start = out@;
    match at(row, "place") {
        Some(p) => {
            if place {
                append_str(out, " · ");
                write_place(out, p, today, order);
                assert(out@ =~= start + place_note(row@, place, opt_text(today), order));
            } else {
                assert(start + place_note(row@, place, opt_text(today), order) =~= start);
            }
        },
        None => {
            assert(start + place_note(row@, place, opt_text(today), order) =~= start);
        },
    }
}

/// The bare due date of a task row.
pub open spec fn due_on_note(row: JsonView, today: Option<Seq<char>>, order: DateOrder) -> Seq<char> {
    match text_at_of(row, "due_on"@) {
        Some(on) => " · due "@ + date_text(on, today, order),
        None => Seq::empty(),
    }
}

pub(crate) fn write_due_on(out: &mut Vec<char>, row: &Json, today: Option<&String>, order: DateOrder)
    ensures
        final(out)@ == old(out)@ + due_on_note(row@, opt_text(today), order),
{
    let ghost start = out@;
    match text_at(row, "due_on") {
        Some(on) => {
            append_str(out, " · due ");
            write_date(out, on.as_str(), today, order);
            assert(out@ =~= start + due_on_note(row@, opt_text(today), order));
        },
        None => {
            assert(start + due_on_note(row@, opt_text(today), order) =~= start);
        },
    }
}

pub(crate) fn write_due(out: &mut Vec<char>, row: &Json, today: Option<&String>, order: DateOrder)
    ensures
        final(out)@ == old(out)@ + due_note(row@, opt_text(today), order),
{
    reveal(due_note);
    let ghost start = out@;
    match at(row, "due") {
        Some(due) => match due {
            Json::Object(_) => {
                assert(due@ is Object);
                append_str(out, " · due ");
                match text_at(due, "on") {
                    Some(on) => write_date(out, on.as_str(), today, order),
                    None => {
                        proof {
                            reveal_strlit("");
                            assert(""@ =~= Seq::<char>::empty());
                        }
                        write_date(out, "", today, order);
                    },
                }
                let ghost mid = out@;
                let ghost dv = due@;
                let ghost on_text = match text_at_of(dv, "on"@) {
                    Some(t) => t,
                    None => Seq::<char>::empty(),
                };
                assert(at_of(row@, "due"@) == Some(dv));
                assert(mid == start + " · due "@ + date_text(on_text, opt_text(today), order));
                if flag_at(due, "overdue") {
                    append_str(out, ", overdue");
                } else {
                    assert(mid + Seq::<char>::empty() =~= mid);
                }
                assert(out@ =~= start + due_note(row@, opt_text(today), order));
            },
            _ => {
                write_due_on(out, row, today, order);
            },
        },
        None => {
            write_due_on(out, row, today, order);
        },
    }
}

pub(crate) fn write_remind(out: &mut Vec<char>, row: &Json, today: Option<&String>, order: DateOrder)
    ensures
        final(out)@ == old(out)@ + remind_note(row@, opt_text(today), order),
{
    reveal(remind_note);
    let ghost start = out@;
    match at(row, "remind") {
        Some(remind) if matches!(remind, Json::Object(_)) => match text_at(remind, "on") {
            Some(on) => {
                append_str(out, " · remind ");
                write_date(out, on.as_str(), today, order);
                assert(out@ =~= start + remind_note(row@, opt_text(today), order));
            },
            None => {
                assert(start + remind_note(row@, opt_text(today), order) =~= start);
            },
        },
        Some(Json::Text(on)) => {
            append_str(out, " · remind ");
            write_date(out, on.as_str(), today, order);
            assert(out@ =~= start + remind_note(row@, opt_text(today), order));
        },
        _ => match text_at(row, "remind_on") {
            Some(on) => {
                append_str(out, " · remind ");
                write_date(out, on.as_str(), today, order);
                assert(out@ =~= start + remind_note(row@, opt_text(today), order));
            },
            None => {
                assert(start + remind_note(row@, opt_text(today), order) =~= start);
            },
        },
    }
}

pub(crate) fn write_repeat(out: &mut Vec<char>, row: &Json)
    ensures
        final(out)@ == old(out)@ + repeat_note(row@),
{
    reveal(repeat_note);
    let ghost start = out@;
    match at(row, "repeat") {
        Some(r) => {
            append_str(out, " · repeats ");
            write_rule(out, r);
            assert(out@ =~= start + repeat_note(row@));
        },
        None => match at(row, "schedule") {
            Some(s) => {
                append_str(out, " · repeats ");
                match at(s, "rule") {
                    Some(r) => write_rule(out, r),
                    None => append_str(out, "on a schedule"),
                }
                assert(out@ =~= start + repeat_note(row@));
            },
            None => {
                assert(start + repeat_note(row@) =~= start);
            },
        },
    }
}

pub(crate) fn write_closed(out: &mut Vec<char>, row: &Json, order: DateOrder)
    ensures
        final(out)@ == old(out)@ + closed_note(row@, order),
{
    reveal(closed_note);
    let ghost start = out@;
    match text_at(row, "closed_at") {
        Some(c) => {
            append_str(out, " · closed ");
            write_stamp(out, c.as_str(), order);
            assert(out@ =~= start + closed_note(row@, order));
        },
        None => {
            assert(start + closed_note(row@, order) =~= start);
        },
    }
}

pub(crate) fn write_id(out: &mut Vec<char>, id: i64)
    ensures
        final(out)@ == old(out)@ + right4(signed_decimal(id as int)),
{
    let mut digits: Vec<char> = Vec::new();
    write_number(&mut digits, id as i128);
    assert(digits@ =~= signed_decimal(id as int));
    let ghost start = out@;
    let mut k = digits.len();
    while k < 4
        invariant
            digits.len() <= k <= 4 || (k == digits.len() && k >= 4),
            out@ == start + spaces((k - digits@.len()) as nat),
        decreases 4 - k,
    {
        out.push(' ');
        k = k + 1;
        assert(out@ =~= start + spaces((k - digits@.len()) as nat));
    }
    append_all(out, digits.as_slice());
    assert(out@ =~= start + right4(signed_decimal(id as int)));
}

pub(crate) fn write_head(out: &mut Vec<char>, row: &Json)
    ensures
        final(out)@ == old(out)@ + row_head(row@),
{
    let ghost start = out@;
    let id: i64 = match number_at(row, "id") {
        Some(n) => n,
        None => 0,
    };
    append_str(out, "  ");
    write_id(out, id);
    append_str(out, "  ");
    let closed = at(row, "closed_at").is_some() || matches!(get(row, "open"), Some(Json::Bool(false)));
    if closed {
        append_str(out, "[x]");
    } else if flag_at(row, "focus") {
        append_str(out, "[*]");
    } else {
        append_str(out, "[ ]");
    }
    append_str(out, " ");
    match text_at(row, "title") {
        Some(t) => {
            let cs = chars_of(t.as_str());
            append_all(out, cs.as_slice());
        },
        None => {
            proof {
                reveal_strlit("");
            }
        },
    }
    assert(out@ =~= start + row_head(row@));
}

pub(crate) proof fn lemma_add_assoc(a: Seq<char>, b: Seq<char>, c: Seq<char>)
    ensures
        (a + b) + c == a + (b + c),
{
    assert((a + b) + c =~= a + (b + c));
}

pub(crate) fn write_notes(out: &mut Vec<char>, row: &Json, place: bool, today: Option<&String>, order: DateOrder)
    ensures
        final(out)@ == old(out)@ + row_notes(row@, place, opt_text(today), order),
{
    let ghost start = out@;
    let ghost t = opt_text(today);
    write_place_note(out, row, place, today, order);
    let ghost acc = place_note(row@, place, t, order);
    let w = flag_at(row, "waiting");
    write_note(out, w, "waiting");
    proof {
        lemma_add_assoc(start, acc, note(w, "waiting"@));
        acc = acc + note(w, "waiting"@);
    }
    let f = flag_at(row, "was_focus");
    write_note(out, f, "was focus");
    proof {
        lemma_add_assoc(start, acc, note(f, "was focus"@));
        acc = acc + note(f, "was focus"@);
    }
    write_due(out, row, today, order);
    proof {
        lemma_add_assoc(start, acc, due_note(row@, t, order));
        acc = acc + due_note(row@, t, order);
    }
    write_remind(out, row, today, order);
    proof {
        lemma_add_assoc(start, acc, remind_note(row@, t, order));
        acc = acc + remind_note(row@, t, order);
    }
    write_repeat(out, row);
    proof {
        lemma_add_assoc(start, acc, repeat_note(row@));
        acc = acc + repeat_note(row@);
    }
    let p1 = flag_at(row, "on_the_pile");
    write_note(out, p1, "on the pile");
    proof {
        lemma_add_assoc(start, acc, note(p1, "on the pile"@));
        acc = acc + note(p1, "on the pile"@);
    }
    let s1 = flag_at(row, "still_open");
    write_note(out, s1, "still open");
    proof {
        lemma_add_assoc(start, acc, note(s1, "still open"@));
        acc = acc + note(s1, "still open"@);
    }
    let b1 = flag_at(row, "from_backlog");
    write_note(out, b1, "from the backlog");
    proof {
        lemma_add_assoc(start, acc, note(b1, "from the backlog"@));
        acc = acc + note(b1, "from the backlog"@);
    }
    write_closed(out, row, order);
    proof {
        lemma_add_assoc(start, acc, closed_note(row@, order));
        acc = acc + closed_note(row@, order);
        assert(acc == row_notes(row@, place, t, order));
    }
}

pub(crate) fn write_row(out: &mut Vec<char>, row: &Json, place: bool, today: Option<&String>, order: DateOrder)
    ensures
        final(out)@ == old(out)@ + row_text(row@, place, opt_text(today), order),
{
    let ghost start = out@;
    write_head(out, row);
    write_notes(out, row, place, today, order);
    assert(out@ =~= start + row_text(row@, place, opt_text(today), order));
}

// ---- the review ------------------------------------------------------

pub open spec fn or_null(v: Option<JsonView>) -> JsonView {
    match v {
        Some(x) => x,
        None => JsonView::Null,
    }
}

pub open spec fn yes_no(b: bool) -> Seq<char> {
    if b {
        "yes"@
    } else {
        "no"@
    }
}

/// `1 day ago` or `4 days ago`: both forms written out.
pub open spec fn count_text(n: int, one: Seq<char>, many: Seq<char>) -> Seq<char> {
    if n == 1 {
        signed_decimal(n) + " "@ + one
    } else {
        signed_decimal(n) + " "@ + many
    }
}

/// Rows, one line each, each after an indent.
pub open spec fn lines_of(
    rows: Seq<JsonView>,
    indent: Seq<char>,
    place: bool,
    today: Option<Seq<char>>,
    order: DateOrder,
) -> Seq<char>
    decreases rows.len(),
{
    if rows.len() == 0 {
        Seq::empty()
    } else {
        lines_of(rows.drop_last(), indent, place, today, order) + indent + row_text(rows.last(), place, today, order)
            + "\n"@
    }
}

/// A group of rows under its name, or nothing where the group is empty.
pub open spec fn group_text(
    name: Seq<char>,
    rows: Seq<JsonView>,
    place: bool,
    today: Option<Seq<char>>,
    order: DateOrder,
) -> Seq<char> {
    if rows.len() == 0 {
        Seq::empty()
    } else {
        name + "\n"@ + lines_of(rows, Seq::empty(), place, today, order)
    }
}

/// The line a day of the pile starts with: the day and how long ago it
/// was.
pub open spec fn pile_day_head(day: JsonView, today: Option<Seq<char>>, order: DateOrder) -> Seq<char> {
    let age = match number_at_of(day, "age"@) {
        Some(n) => n,
        None => 0,
    };
    let d = match text_at_of(day, "day"@) {
        Some(t) => t,
        None => Seq::empty(),
    };
    "  "@ + date_text(d, today, order) + " · "@ + count_text(age, "day ago"@, "days ago"@) + "\n"@
}

/// A day of the pile: the day, how long ago it was, and its rows.
pub open spec fn pile_day(day: JsonView, today: Option<Seq<char>>, order: DateOrder) -> Seq<char> {
    pile_day_head(day, today, order) + lines_of(rows_of(day, "rows"@), "  "@, false, today, order)
}

pub open spec fn pile_days(days: Seq<JsonView>, today: Option<Seq<char>>, order: DateOrder) -> Seq<char>
    decreases days.len(),
{
    if days.len() == 0 {
        Seq::empty()
    } else {
        pile_days(days.drop_last(), today, order) + pile_day(days.last(), today, order)
    }
}

/// Whether the review was started by this answer, where it says.
pub open spec fn started_line(data: JsonView) -> Seq<char> {
    match get_of(data, "started"@) {
        Some(JsonView::Bool(b)) => if b {
            "The review has been started.\n"@
        } else {
            "The review had already been started today.\n"@
        },
        _ => Seq::empty(),
    }
}

pub open spec fn review_header(pile: JsonView, surfaced: JsonView) -> Seq<char> {
    let on_pile = match number_at_of(pile, "total"@) {
        Some(n) => n,
        None => 0,
    };
    let up = match number_at_of(surfaced, "total"@) {
        Some(n) => n,
        None => 0,
    };
    "Review · "@ + signed_decimal(on_pile) + " on the pile · "@ + signed_decimal(up) + " surfaced\n"@
}

pub open spec fn gate_line(gate: JsonView) -> Seq<char> {
    if gate != JsonView::Null {
        "started today: "@ + yes_no(flag_at_of(gate, "started_today"@)) + " · opens itself: "@ + yes_no(
            flag_at_of(gate, "opens_itself"@),
        ) + " · would open: "@ + yes_no(flag_at_of(gate, "would_open"@)) + "\n"@
    } else {
        Seq::empty()
    }
}

pub open spec fn pile_part(pile: JsonView, today: Option<Seq<char>>, order: DateOrder) -> Seq<char> {
    let days = rows_of(pile, "days"@);
    if days.len() == 0 {
        Seq::empty()
    } else {
        "Pile\n"@ + pile_days(days, today, order)
    }
}

/// What the review says: whether it began now, its counts, when it
/// opens, the pile day by day, and what came up.
pub open spec fn review_text(data: JsonView, today: Option<Seq<char>>, order: DateOrder) -> Seq<char> {
    let pile = or_null(get_of(data, "pile"@));
    let surfaced = or_null(get_of(data, "surfaced"@));
    let gate = or_null(get_of(data, "gate"@));
    started_line(data) + review_header(pile, surfaced) + gate_line(gate) + "\n"@ + pile_part(pile, today, order)
        + group_text("Due"@, rows_of(surfaced, "due"@), false, today, order) + group_text(
        "Reminders"@,
        rows_of(surfaced, "reminders"@),
        false,
        today,
        order,
    ) + group_text("Also starting today"@, rows_of(surfaced, "also_starting_today"@), false, today, order)
}

pub(crate) fn write_lines(out: &mut Vec<char>, rows: &[Json], indent: &str, place: bool, today: Option<&String>, order: DateOrder)
    ensures
        final(out)@ == old(out)@ + lines_of(list_view(rows@), indent@, place, opt_text(today), order),
{
    let ghost start = out@;
    let ghost all = list_view(rows@);
    let ghost t = opt_text(today);
    proof {
        lemma_list_view(rows@);
    }
    let mut i: usize = 0;
    while i < rows.len()
        invariant
            i <= rows@.len(),
            all == list_view(rows@),
            all.len() == rows@.len(),
            t == opt_text(today),
            forall|j: int| 0 <= j < rows@.len() ==> #[trigger] all[j] == rows@[j].view_of(),
            out@ == start + lines_of(all.subrange(0, i as int), indent@, place, t, order),
        decreases rows@.len() - i,
    {
        let ghost before = all.subrange(0, i as int);
        proof {
            assert(all.subrange(0, i + 1).drop_last() =~= before);
            assert(all.subrange(0, i + 1).last() == all[i as int]);
        }
        append_str(out, indent);
        write_row(out, &rows[i], place, today, order);
        append_str(out, "\n");
        proof {
            assert(out@ =~= start + lines_of(all.subrange(0, i + 1), indent@, place, t, order));
        }
        i = i + 1;
    }
    assert(all.subrange(0, all.len() as int) =~= all);
}

pub(crate) fn write_group(out: &mut Vec<char>, name: &str, rows: &[Json], today: Option<&String>, order: DateOrder)
    ensures
        final(out)@ == old(out)@ + group_text(name@, list_view(rows@), false, opt_text(today), order),
{
    let ghost start = out@;
    proof {
        lemma_list_view(rows@);
    }
    if rows.len() == 0 {
        assert(start + group_text(name@, list_view(rows@), false, opt_text(today), order) =~= start);
        return;
    }
    append_str(out, name);
    append_str(out, "\n");
    proof {
        reveal_strlit("");
        assert(""@ =~= Seq::<char>::empty());
    }
    write_lines(out, rows, "", false, today, order);
    assert(out@ =~= start + group_text(name@, list_view(rows@), false, opt_text(today), order));
}

pub(crate) fn write_count(out: &mut Vec<char>, n: i64, one: &str, many: &str)
    ensures
        final(out)@ == old(out)@ + count_text(n as int, one@, many@),
{
    let ghost start = out@;
    write_number(out, n as i128);
    append_str(out, " ");
    if n == 1 {
        append_str(out, one);
    } else {
        append_str(out, many);
    }
    assert(out@ =~= start + count_text(n as int, one@, many@));
}

pub(crate) fn write_pile_day_head(out: &mut Vec<char>, day: &Json, today: Option<&String>, order: DateOrder)
    ensures
        final(out)@ == old(out)@ + pile_day_head(day@, opt_text(today), order),
{
    let ghost start = out@;
    let age: i64 = match number_at(day, "age") {
        Some(n) => n,
        None => 0,
    };
    let ghost d = match text_at_of(day@, "day"@) {
        Some(t) => t,
        None => Seq::<char>::empty(),
    };
    append_str(out, "  ");
    match text_at(day, "day") {
        Some(x) => write_date(out, x.as_str(), today, order),
        None => {
            proof {
                reveal_strlit("");
                assert(""@ =~= Seq::<char>::empty());
            }
            write_date(out, "", today, order);
        },
    }
    let ghost a = out@;
    assert(a == start + "  "@ + date_text(d, opt_text(today), order));
    append_str(out, " · ");
    write_count(out, age, "day ago", "days ago");
    append_str(out, "\n");
    assert(out@ =~= start + pile_day_head(day@, opt_text(today), order));
}

pub(crate) fn write_pile_day(out: &mut Vec<char>, day: &Json, today: Option<&String>, order: DateOrder)
    ensures
        final(out)@ == old(out)@ + pile_day(day@, opt_text(today), order),
{
    let ghost start = out@;
    write_pile_day_head(out, day, today, order);
    let rows = rows(day, "rows");
    write_lines(out, rows, "  ", false, today, order);
    assert(out@ =~= start + pile_day(day@, opt_text(today), order));
}

pub(crate) fn write_pile(out: &mut Vec<char>, pile: &Json, today: Option<&String>, order: DateOrder)
    ensures
        final(out)@ == old(out)@ + pile_part(pile@, opt_text(today), order),
{
    let ghost start = out@;
    let days = rows(pile, "days");
    let ghost all = list_view(days@);
    let ghost t = opt_text(today);
    proof {
        lemma_list_view(days@);
    }
    if days.len() == 0 {
        assert(start + pile_part(pile@, t, order) =~= start);
        return;
    }
    append_str(out, "Pile\n");
    let ghost head = out@;
    let mut i: usize = 0;
    while i < days.len()
        invariant
            i <= days@.len(),
            all == list_view(days@),
            all.len() == days@.len(),
            t == opt_text(today),
            forall|j: int| 0 <= j < days@.len() ==> #[trigger] all[j] == days@[j].view_of(),
            out@ == head + pile_days(all.subrange(0, i as int), t, order),
        decreases days@.len() - i,
    {
        proof {
            assert(all.subrange(0, i + 1).drop_last() =~= all.subrange(0, i as int));
            assert(all.subrange(0, i + 1).last() == all[i as int]);
        }
        write_pile_day(out, &days[i], today, order);
        proof {
            assert(out@ =~= head + pile_days(all.subrange(0, i + 1), t, order));
        }
        i = i + 1;
    }
    assert(all.subrange(0, all.len() as int) =~= all);
    assert(out@ =~= start + pile_part(pile@, t, order));
}

pub(crate) fn write_yes_no(out: &mut Vec<char>, b: bool)
    ensures
        final(out)@ == old(out)@ + yes_no(b),
{
    if b {
        append_str(out, "yes");
    } else {
        append_str(out, "no");
    }
}

pub(crate) fn write_gate(out: &mut Vec<char>, gate: &Json)
    ensures
        final(out)@ == old(out)@ + gate_line(gate@),
{
    let ghost start = out@;
    match gate {
        Json::Null => {
            assert(start + gate_line(gate@) =~= start);
        },
        _ => {
            append_str(out, "started today: ");
            write_yes_no(out, flag_at(gate, "started_today"));
            append_str(out, " · opens itself: ");
            write_yes_no(out, flag_at(gate, "opens_itself"));
            append_str(out, " · would open: ");
            write_yes_no(out, flag_at(gate, "would_open"));
            append_str(out, "\n");
            assert(out@ =~= start + gate_line(gate@));
        },
    }
}

pub(crate) fn write_header(out: &mut Vec<char>, pile: &Json, surfaced: &Json)
    ensures
        final(out)@ == old(out)@ + review_header(pile@, surfaced@),
{
    let ghost start = out@;
    let on_pile: i64 = match number_at(pile, "total") {
        Some(n) => n,
        None => 0,
    };
    let up: i64 = match number_at(surfaced, "total") {
        Some(n) => n,
        None => 0,
    };
    append_str(out, "Review · ");
    write_number(out, on_pile as i128);
    append_str(out, " on the pile · ");
    write_number(out, up as i128);
    append_str(out, " surfaced\n");
    assert(out@ =~= start + review_header(pile@, surfaced@));
}

pub(crate) fn write_started(out: &mut Vec<char>, data: &Json)
    ensures
        final(out)@ == old(out)@ + started_line(data@),
{
    match get(data, "started") {
        Some(Json::Bool(b)) => if *b {
            append_str(out, "The review has been started.\n");
        } else {
            append_str(out, "The review had already been started today.\n");
        },
        _ => {
            assert(old(out)@ + started_line(data@) =~= old(out)@);
        },
    }
}

/// One answer being read: its data, the day the service says is today,
/// and the order the settings write dates in.
pub struct Reading {
    pub data: Json,
    pub today: Option<String>,
    pub dates: DateOrder,
}

impl Reading {
    pub open spec fn today_view(&self) -> Option<Seq<char>> {
        match self.today {
            Some(t) => Some(t@),
            None => None,
        }
    }

    fn today_ref(&self) -> (r: Option<&String>)
        ensures
            opt_text(r) == self.today_view(),
    {
        match &self.today {
            Some(t) => Some(t),
            None => None,
        }
    }

    /// The one line a task row is, saying where the task is when `place`
    /// asks for it; see `row_text`.
    pub fn row(&self, row: &Json, place: bool) -> (line: String)
        ensures
            line@ == row_text(row@, place, self.today_view(), self.dates),
    {
        let mut out: Vec<char> = Vec::new();
        write_row(&mut out, row, place, self.today_ref(), self.dates);
        assert(out@ =~= row_text(row@, place, self.today_view(), self.dates));
        string_of(out.as_slice())
    }

    /// The review read out; see `review_text`.
    pub fn review(&self) -> (text: String)
        ensures
            text@ == review_text(self.data@, self.today_view(), self.dates),
    {
        let mut out: Vec<char> = Vec::new();
        write_review(&mut out, &self.data, self.today_ref(), self.dates);
        assert(out@ =~= review_text(self.data@, self.today_view(), self.dates));
        string_of(out.as_slice())
    }
}

/// The review, written after what is there.
pub(crate) fn write_review(out: &mut Vec<char>, data: &Json, today: Option<&String>, order: DateOrder)
    ensures
        final(out)@ == old(out)@ + review_text(data@, opt_text(today), order),
{
    let ghost start = out@;
    let null = Json::Null;
    let pile = match get(data, "pile") {
        Some(p) => p,
        None => &null,
    };
    let surfaced = match get(data, "surfaced") {
        Some(p) => p,
        None => &null,
    };
    let gate = match get(data, "gate") {
        Some(p) => p,
        None => &null,
    };
    let ghost t = opt_text(today);
    let ghost pv = or_null(get_of(data@, "pile"@));
    let ghost sv = or_null(get_of(data@, "surfaced"@));
    let ghost gv = or_null(get_of(data@, "gate"@));
    assert(pile@ == pv && surfaced@ == sv && gate@ == gv);
    write_started(out, data);
    let ghost acc = started_line(data@);
    write_header(out, pile, surfaced);
    proof {
        lemma_add_assoc(start, acc, review_header(pv, sv));
        acc = acc + review_header(pv, sv);
    }
    write_gate(out, gate);
    proof {
        lemma_add_assoc(start, acc, gate_line(gv));
        acc = acc + gate_line(gv);
    }
    append_str(out, "\n");
    proof {
        lemma_add_assoc(start, acc, "\n"@);
        acc = acc + "\n"@;
    }
    write_pile(out, pile, today, order);
    proof {
        lemma_add_assoc(start, acc, pile_part(pv, t, order));
        acc = acc + pile_part(pv, t, order);
    }
    write_group(out, "Due", rows(surfaced, "due"), today, order);
    proof {
        lemma_add_assoc(start, acc, group_text("Due"@, rows_of(sv, "due"@), false, t, order));
        acc = acc + group_text("Due"@, rows_of(sv, "due"@), false, t, order);
    }
    write_group(out, "Reminders", rows(surfaced, "reminders"), today, order);
    proof {
        lemma_add_assoc(start, acc, group_text("Reminders"@, rows_of(sv, "reminders"@), false, t, order));
        acc = acc + group_text("Reminders"@, rows_of(sv, "reminders"@), false, t, order);
    }
    write_group(out, "Also starting today", rows(surfaced, "also_starting_today"), today, order);
    proof {
        lemma_add_assoc(
            start,
            acc,
            group_text("Also starting today"@, rows_of(sv, "also_starting_today"@), false, t, order),
        );
        acc = acc + group_text("Also starting today"@, rows_of(sv, "also_starting_today"@), false, t, order);
        assert(acc == review_text(data@, t, order));
    }
}

/// A repeat rule, in the words the app uses for it; see `rule_text`.
pub fn rule(value: &Json) -> (words: String)
    ensures
        words@ == rule_text(value@),
{
    let mut out: Vec<char> = Vec::new();
    write_rule(&mut out, value);
    assert(out@ =~= rule_text(value@));
    string_of(out.as_slice())
}

} // verus!
