//! Text as the rest of the crate reads it: a string as its characters,
//! the whitespace Unicode names, trimming, and whole numbers written in
//! decimal.

use vstd::prelude::*;
use vstd::string::StrSliceExecFns;

verus! {

// ---- strings and their characters ------------------------------------

/// The characters of a string, in order.
pub fn chars_of(s: &str) -> (r: Vec<char>)
    ensures
        r@ == s@,
{
    let n = s.unicode_len();
    let mut r: Vec<char> = Vec::new();
    let mut i: usize = 0;
    while i < n
        invariant
            n == s@.len(),
            i <= n,
            r@ == s@.subrange(0, i as int),
        decreases n - i,
    {
        r.push(s.get_char(i));
        i = i + 1;
    }
    r
}

/// `String::push`: the string with one more character at its end.
#[verifier::external_body]
pub fn push_char(s: &mut String, c: char)
    ensures
        final(s)@ == old(s)@.push(c),
{
    s.push(c);
}

/// The string made of these characters.
pub fn string_of(cs: &[char]) -> (r: String)
    ensures
        r@ == cs@,
{
    let mut r = String::new();
    let mut i: usize = 0;
    while i < cs.len()
        invariant
            i <= cs@.len(),
            r@ == cs@.subrange(0, i as int),
        decreases cs@.len() - i,
    {
        push_char(&mut r, cs[i]);
        i = i + 1;
    }
    r
}

/// Whether two runs of characters are the same.
pub fn same(a: &[char], b: &[char]) -> (r: bool)
    ensures
        r == (a@ == b@),
{
    if a.len() != b.len() {
        return false;
    }
    let mut i: usize = 0;
    while i < a.len()
        invariant
            a@.len() == b@.len(),
            i <= a@.len(),
            forall|j: int| 0 <= j < i ==> a@[j] == b@[j],
        decreases a@.len() - i,
    {
        if a[i] != b[i] {
            return false;
        }
        i = i + 1;
    }
    assert(a@ =~= b@);
    true
}

/// Whether a run of characters is exactly the string.
pub fn is(a: &[char], s: &str) -> (r: bool)
    ensures
        r == (a@ == s@),
{
    let b = chars_of(s);
    same(a, b.as_slice())
}

/// Whether `prefix` begins `a`.
pub open spec fn starts_with(a: Seq<char>, prefix: Seq<char>) -> bool {
    prefix.len() <= a.len() && a.subrange(0, prefix.len() as int) == prefix
}

pub fn begins_with(a: &[char], prefix: &str) -> (r: bool)
    ensures
        r == starts_with(a@, prefix@),
{
    let p = chars_of(prefix);
    begins_with_run(a, p.as_slice())
}

/// Whether the run `p` begins `a`.
pub fn begins_with_run(a: &[char], p: &[char]) -> (r: bool)
    ensures
        r == starts_with(a@, p@),
{
    if p.len() > a.len() {
        return false;
    }
    let mut i: usize = 0;
    while i < p.len()
        invariant
            p@.len() <= a@.len(),
            i <= p@.len(),
            forall|j: int| 0 <= j < i ==> a@[j] == p@[j],
        decreases p@.len() - i,
    {
        if a[i] != p[i] {
            return false;
        }
        i = i + 1;
    }
    assert(a@.subrange(0, p@.len() as int) =~= p@);
    true
}

/// The first place `c` stands in `a`.
pub open spec fn first_at(a: Seq<char>, c: char, at: int) -> bool {
    0 <= at < a.len() && a[at] == c && forall|j: int| 0 <= j < at ==> a[j] != c
}

/// There is one first place a character stands.
pub proof fn lemma_first_at_unique(a: Seq<char>, c: char, i: int, j: int)
    requires
        first_at(a, c, i),
        first_at(a, c, j),
    ensures
        i == j,
{
}

pub fn find_char(a: &[char], c: char) -> (r: Option<usize>)
    ensures
        match r {
            Some(at) => first_at(a@, c, at as int),
            None => !a@.contains(c),
        },
{
    let mut i: usize = 0;
    while i < a.len()
        invariant
            i <= a@.len(),
            forall|j: int| 0 <= j < i ==> a@[j] != c,
        decreases a@.len() - i,
    {
        if a[i] == c {
            return Some(i);
        }
        i = i + 1;
    }
    None
}

pub fn slice_of(a: &[char], from: usize, to: usize) -> (r: Vec<char>)
    requires
        from <= to <= a@.len(),
    ensures
        r@ == a@.subrange(from as int, to as int),
{
    let mut r: Vec<char> = Vec::new();
    let mut i = from;
    while i < to
        invariant
            from <= i <= to <= a@.len(),
            r@ == a@.subrange(from as int, i as int),
        decreases to - i,
    {
        r.push(a[i]);
        i = i + 1;
    }
    r
}

pub fn append_all(r: &mut Vec<char>, a: &[char])
    ensures
        final(r)@ == old(r)@ + a@,
{
    let ghost start = r@;
    let mut i: usize = 0;
    while i < a.len()
        invariant
            i <= a@.len(),
            r@ == start + a@.subrange(0, i as int),
        decreases a@.len() - i,
    {
        r.push(a[i]);
        i = i + 1;
    }
    assert(a@.subrange(0, a@.len() as int) =~= a@);
}

pub fn append_str(r: &mut Vec<char>, s: &str)
    ensures
        final(r)@ == old(r)@ + s@,
{
    let cs = chars_of(s);
    append_all(r, cs.as_slice());
}

// ---- pieces and joins -----------------------------------------------

/// `str::split` on one character: the runs between the separators, an
/// empty one wherever two separators meet or one stands at an end.
pub open spec fn pieces(s: Seq<char>, sep: char) -> Seq<Seq<char>>
    decreases s.len(),
{
    if s.len() == 0 {
        seq![Seq::<char>::empty()]
    } else {
        let rest = pieces(s.drop_first(), sep);
        if s[0] == sep {
            seq![Seq::<char>::empty()] + rest
        } else {
            rest.update(0, seq![s[0]] + rest[0])
        }
    }
}

/// `join`: the parts with the separator between each two of them.
pub open spec fn joined(parts: Seq<Seq<char>>, sep: Seq<char>) -> Seq<char>
    decreases parts.len(),
{
    if parts.len() == 0 {
        Seq::empty()
    } else if parts.len() == 1 {
        parts[0]
    } else {
        parts[0] + sep + joined(parts.drop_first(), sep)
    }
}

pub proof fn lemma_pieces_nonempty(s: Seq<char>, sep: char)
    ensures
        pieces(s, sep).len() >= 1,
    decreases s.len(),
{
    if s.len() > 0 {
        lemma_pieces_nonempty(s.drop_first(), sep);
    }
}

/// A run with no separator in it joins the first piece of what follows.
pub proof fn lemma_pieces_prefix(x: Seq<char>, y: Seq<char>, sep: char)
    requires
        !x.contains(sep),
    ensures
        pieces(x + y, sep) == pieces(y, sep).update(0, x + pieces(y, sep)[0]),
    decreases x.len(),
{
    lemma_pieces_nonempty(y, sep);
    if x.len() == 0 {
        assert(x + y =~= y);
        assert(pieces(y, sep).update(0, x + pieces(y, sep)[0]) =~= pieces(y, sep));
    } else {
        let t = x.drop_first();
        assert(!t.contains(sep)) by {
            if t.contains(sep) {
                let k = choose|k: int| 0 <= k < t.len() && t[k] == sep;
                assert(x[k + 1] == sep);
            }
        }
        lemma_pieces_prefix(t, y, sep);
        assert((x + y).drop_first() =~= t + y);
        assert(x[0] != sep);
        lemma_pieces_nonempty(t + y, sep);
        assert(seq![x[0]] + (t + pieces(y, sep)[0]) =~= x + pieces(y, sep)[0]);
        assert(pieces(x + y, sep) =~= pieces(y, sep).update(0, x + pieces(y, sep)[0]));
    }
}

/// Parts with no separator in them, joined and split again, are the
/// parts they were.
pub proof fn lemma_pieces_of_joined(parts: Seq<Seq<char>>, sep: char)
    requires
        parts.len() >= 1,
        forall|j: int| 0 <= j < parts.len() ==> !(#[trigger] parts[j]).contains(sep),
    ensures
        pieces(joined(parts, seq![sep]), sep) == parts,
    decreases parts.len(),
{
    if parts.len() == 1 {
        assert(parts[0] + Seq::<char>::empty() =~= parts[0]);
        lemma_pieces_prefix(parts[0], Seq::<char>::empty(), sep);
        assert(pieces(Seq::<char>::empty(), sep) =~= seq![Seq::<char>::empty()]);
        assert(pieces(parts[0], sep) =~= parts);
    } else {
        let rest = parts.drop_first();
        assert forall|j: int| 0 <= j < rest.len() implies !(#[trigger] rest[j]).contains(sep) by {
            assert(rest[j] == parts[j + 1]);
        }
        lemma_pieces_of_joined(rest, sep);
        let tail = seq![sep] + joined(rest, seq![sep]);
        assert(joined(parts, seq![sep]) =~= parts[0] + tail);
        lemma_pieces_prefix(parts[0], tail, sep);
        assert(tail[0] == sep);
        assert(tail.drop_first() =~= joined(rest, seq![sep]));
        assert(pieces(tail, sep) =~= seq![Seq::<char>::empty()] + rest);
        assert(parts[0] + Seq::<char>::empty() =~= parts[0]);
        assert(pieces(joined(parts, seq![sep]), sep) =~= parts);
    }
}

/// One more part joins after the separator.
pub proof fn lemma_joined_push(parts: Seq<Seq<char>>, sep: Seq<char>, part: Seq<char>)
    requires
        parts.len() >= 1,
    ensures
        joined(parts.push(part), sep) == joined(parts, sep) + sep + part,
    decreases parts.len(),
{
    if parts.len() == 1 {
        assert(parts.push(part).drop_first() =~= seq![part]);
        assert(joined(seq![part], sep) == part);
        assert(parts.push(part)[0] == parts[0]);
    } else {
        lemma_joined_push(parts.drop_first(), sep, part);
        assert(parts.push(part).drop_first() =~= parts.drop_first().push(part));
    }
}

/// `join`: the runs with the separator between each two of them.
pub fn join(parts: &[Vec<char>], sep: char) -> (r: Vec<char>)
    ensures
        r@ == joined(views(parts@), seq![sep]),
{
    let ghost all = views(parts@);
    let mut out: Vec<char> = Vec::new();
    let mut i: usize = 0;
    while i < parts.len()
        invariant
            i <= parts@.len(),
            all == views(parts@),
            out@ == joined(all.subrange(0, i as int), seq![sep]),
        decreases parts@.len() - i,
    {
        if i > 0 {
            out.push(sep);
        }
        append_all(&mut out, parts[i].as_slice());
        proof {
            let done = all.subrange(0, i as int);
            assert(all.subrange(0, i + 1) =~= done.push(all[i as int]));
            if i > 0 {
                lemma_joined_push(done, seq![sep], all[i as int]);
            } else {
                assert(done.push(all[i as int]) =~= seq![all[i as int]]);
            }
        }
        i = i + 1;
    }
    proof {
        assert(all.subrange(0, parts@.len() as int) =~= all);
    }
    out
}

/// Whether `part` stands somewhere in `a`.
pub open spec fn holds_run(a: Seq<char>, part: Seq<char>) -> bool {
    exists|i: int| 0 <= i && i + part.len() <= a.len() && #[trigger] a.subrange(i, i + part.len()) == part
}

/// `str::contains` with a string to look for.
pub fn contains_run(a: &[char], part: &str) -> (r: bool)
    ensures
        r == holds_run(a@, part@),
{
    let p = chars_of(part);
    if p.len() > a.len() {
        return false;
    }
    if p.len() == 0 {
        assert(a@.subrange(0, 0 + part@.len() as int) =~= part@);
        return true;
    }
    let n = a.len();
    let last = n - p.len();
    let mut i: usize = 0;
    while i <= last
        invariant
            p@ == part@,
            0 < p@.len() <= a@.len(),
            n == a@.len(),
            last == a@.len() - p@.len(),
            i <= last + 1,
            forall|k: int| 0 <= k < i ==> #[trigger] a@.subrange(k, k + p@.len()) != p@,
        decreases a@.len() - i,
    {
        let mut j: usize = 0;
        let mut equal = true;
        while j < p.len()
            invariant
                i <= last,
                0 < p@.len() <= a@.len(),
                n == a@.len(),
                last == a@.len() - p@.len(),
                j <= p@.len(),
                equal == (forall|m: int| 0 <= m < j ==> a@[i + m] == p@[m]),
            decreases p@.len() - j,
        {
            if a[i + j] != p[j] {
                equal = false;
            }
            j = j + 1;
        }
        if equal {
            assert(a@.subrange(i as int, i + p@.len()) =~= p@);
            return true;
        }
        proof {
            let m = choose|m: int| 0 <= m < p@.len() && a@[i + m] != p@[m];
            assert(a@.subrange(i as int, i + p@.len())[m] != p@[m]);
        }
        i = i + 1;
    }
    false
}

/// The views of a list of runs.
pub open spec fn views(v: Seq<Vec<char>>) -> Seq<Seq<char>> {
    v.map_values(|r: Vec<char>| r@)
}

/// One more run, one more view.
pub proof fn lemma_views_push(v: Seq<Vec<char>>, x: Vec<char>)
    ensures
        views(v.push(x)) == views(v).push(x@),
{
    assert(views(v.push(x)) =~= views(v).push(x@));
}

/// `str::split` on one character.
pub fn split_on(s: &[char], sep: char) -> (r: Vec<Vec<char>>)
    ensures
        views(r@) == pieces(s@, sep),
{
    let mut done: Vec<Vec<char>> = Vec::new();
    let mut current: Vec<char> = Vec::new();
    let mut i: usize = 0;
    proof {
        lemma_pieces_nonempty(s@, sep);
        assert(s@.subrange(0, s@.len() as int) =~= s@);
    }
    while i < s.len()
        invariant
            i <= s@.len(),
            pieces(s@, sep) == views(done@) + seq![current@ + pieces(
                s@.subrange(i as int, s@.len() as int),
                sep,
            )[0]] + pieces(s@.subrange(i as int, s@.len() as int), sep).drop_first(),
        decreases s@.len() - i,
    {
        let ghost here = s@.subrange(i as int, s@.len() as int);
        let ghost next = s@.subrange(i + 1, s@.len() as int);
        proof {
            assert(here.drop_first() =~= next);
            lemma_pieces_nonempty(next, sep);
        }
        if s[i] == sep {
            let piece = current;
            done.push(piece);
            current = Vec::new();
            proof {
                assert(views(done@) =~= views(done@.drop_last()).push(piece@));
                assert(pieces(here, sep) =~= seq![Seq::<char>::empty()] + pieces(next, sep));
                assert(current@ + pieces(next, sep)[0] =~= pieces(next, sep)[0]);
                assert(pieces(s@, sep) =~= views(done@) + seq![current@ + pieces(next, sep)[0]]
                    + pieces(next, sep).drop_first());
            }
        } else {
            let ghost was = current@;
            current.push(s[i]);
            proof {
                assert(current@ + pieces(next, sep)[0] =~= was + (seq![s@[i as int]] + pieces(
                    next,
                    sep,
                )[0]));
                assert(pieces(here, sep).drop_first() =~= pieces(next, sep).drop_first());
            }
        }
        i = i + 1;
    }
    proof {
        let end = s@.subrange(s@.len() as int, s@.len() as int);
        assert(end =~= Seq::<char>::empty());
        assert(current@ + pieces(end, sep)[0] =~= current@);
    }
    let last = current;
    done.push(last);
    proof {
        assert(views(done@) =~= views(done@.drop_last()).push(last@));
        assert(views(done@) =~= pieces(s@, sep));
    }
    done
}

// ---- whitespace ------------------------------------------------------

/// The characters Unicode gives the White_Space property, which is what
/// `char::is_whitespace` answers for.
pub open spec fn white(c: char) -> bool {
    let n = c as u32;
    (0x09 <= n <= 0x0d) || n == 0x20 || n == 0x85 || n == 0xa0 || n == 0x1680 || (0x2000 <= n
        <= 0x200a) || n == 0x2028 || n == 0x2029 || n == 0x202f || n == 0x205f || n == 0x3000
}

pub fn is_white(c: char) -> (r: bool)
    ensures
        r == white(c),
{
    let n = c as u32;
    (0x09 <= n && n <= 0x0d) || n == 0x20 || n == 0x85 || n == 0xa0 || n == 0x1680 || (0x2000
        <= n && n <= 0x200a) || n == 0x2028 || n == 0x2029 || n == 0x202f || n == 0x205f || n
        == 0x3000
}

/// The characters with the whitespace at either end taken off.
pub open spec fn trimmed(s: Seq<char>) -> Seq<char>
    decreases s.len(),
{
    if s.len() > 0 && white(s[0]) {
        trimmed(s.drop_first())
    } else if s.len() > 0 && white(s.last()) {
        trimmed(s.drop_last())
    } else {
        s
    }
}

proof fn lemma_trimmed_inner(s: Seq<char>, lo: int, hi: int)
    requires
        0 <= lo <= hi <= s.len(),
        forall|j: int| 0 <= j < lo ==> white(#[trigger] s[j]),
        forall|j: int| hi <= j < s.len() ==> white(#[trigger] s[j]),
        lo < hi ==> !white(s[lo]),
        lo < hi ==> !white(s[hi - 1]),
    ensures
        trimmed(s) == s.subrange(lo, hi),
    decreases s.len(),
{
    if lo > 0 {
        assert(white(s[0]));
        let t = s.drop_first();
        assert forall|j: int| 0 <= j < lo - 1 implies white(#[trigger] t[j]) by {
            assert(t[j] == s[j + 1]);
        }
        assert forall|j: int| hi - 1 <= j < t.len() implies white(#[trigger] t[j]) by {
            assert(t[j] == s[j + 1]);
        }
        lemma_trimmed_inner(t, lo - 1, hi - 1);
        assert(t.subrange(lo - 1, hi - 1) =~= s.subrange(lo, hi));
    } else if hi < s.len() {
        if s.len() > 0 && white(s[0]) {
            assert(lo == hi);
            let t = s.drop_first();
            assert forall|j: int| 0 <= j < t.len() implies white(#[trigger] t[j]) by {
                assert(t[j] == s[j + 1]);
            }
            lemma_trimmed_inner(t, 0, 0);
            assert(t.subrange(0, 0) =~= s.subrange(lo, hi));
        } else {
            assert(white(s.last()));
            let t = s.drop_last();
            assert forall|j: int| hi <= j < t.len() implies white(#[trigger] t[j]) by {
                assert(t[j] == s[j]);
            }
            lemma_trimmed_inner(t, lo, hi);
            assert(t.subrange(lo, hi) =~= s.subrange(lo, hi));
        }
    } else {
        assert(s.subrange(lo, hi) =~= s);
        if s.len() > 0 {
            assert(lo < hi);
        }
    }
}

/// A run with no whitespace at either end is its own trimming.
pub proof fn lemma_trimmed_plain(s: Seq<char>)
    requires
        s.len() > 0 ==> !white(s[0]) && !white(s.last()),
    ensures
        trimmed(s) == s,
{
    lemma_trimmed_inner(s, 0, s.len() as int);
    assert(s.subrange(0, s.len() as int) =~= s);
}

/// `str::trim`, on characters.
pub fn trim(s: &[char]) -> (r: Vec<char>)
    ensures
        r@ == trimmed(s@),
{
    let mut lo: usize = 0;
    while lo < s.len() && is_white(s[lo])
        invariant
            lo <= s@.len(),
            forall|j: int| 0 <= j < lo ==> white(#[trigger] s@[j]),
        decreases s@.len() - lo,
    {
        lo = lo + 1;
    }
    let mut hi: usize = s.len();
    while hi > lo && is_white(s[hi - 1])
        invariant
            lo <= hi <= s@.len(),
            forall|j: int| 0 <= j < lo ==> white(#[trigger] s@[j]),
            forall|j: int| hi <= j < s@.len() ==> white(#[trigger] s@[j]),
            lo < s@.len() ==> !white(s@[lo as int]),
        decreases hi - lo,
    {
        hi = hi - 1;
    }
    proof {
        lemma_trimmed_inner(s@, lo as int, hi as int);
    }
    slice_of(s, lo, hi)
}

// ---- whole numbers in decimal ----------------------------------------

pub open spec fn digit(c: char) -> bool {
    '0' <= c <= '9'
}

pub open spec fn all_digits(s: Seq<char>) -> bool {
    forall|j: int| 0 <= j < s.len() ==> digit(#[trigger] s[j])
}

/// The number a run of decimal digits writes.
pub open spec fn digits_value(s: Seq<char>) -> nat
    decreases s.len(),
{
    if s.len() == 0 {
        0
    } else {
        digits_value(s.drop_last()) * 10 + ((s.last() as u32) - ('0' as u32)) as nat
    }
}

/// What `str::parse` reads a whole number as: an optional sign, then one
/// or more decimal digits, and nothing else. The value is unbounded here;
/// each parser says which of them fit its type.
pub open spec fn integer_of(s: Seq<char>) -> Option<int> {
    if s.len() > 0 && s[0] == '-' {
        let rest = s.drop_first();
        if rest.len() > 0 && all_digits(rest) {
            Some(-(digits_value(rest) as int))
        } else {
            None
        }
    } else if s.len() > 0 && s[0] == '+' {
        let rest = s.drop_first();
        if rest.len() > 0 && all_digits(rest) {
            Some(digits_value(rest) as int)
        } else {
            None
        }
    } else if s.len() > 0 && all_digits(s) {
        Some(digits_value(s) as int)
    } else {
        None
    }
}

/// The value of the digits `s[from..]`, or `None` where one is not a digit
/// or where the value passes `most`.
fn digits_up_to(s: &[char], from: usize, most: u64) -> (r: Option<u64>)
    requires
        from <= s@.len(),
        most >= 9,
    ensures
        match r {
            Some(v) => all_digits(s@.subrange(from as int, s@.len() as int)) && v == digits_value(
                s@.subrange(from as int, s@.len() as int),
            ) && v <= most,
            None => !all_digits(s@.subrange(from as int, s@.len() as int)) || digits_value(
                s@.subrange(from as int, s@.len() as int),
            ) > most,
        },
{
    let mut value: u64 = 0;
    let mut i = from;
    while i < s.len()
        invariant
            from <= i <= s@.len(),
            all_digits(s@.subrange(from as int, i as int)),
            value == digits_value(s@.subrange(from as int, i as int)),
            value <= most,
            most >= 9,
        decreases s@.len() - i,
    {
        let c = s[i];
        let ghost before = s@.subrange(from as int, i as int);
        let ghost after = s@.subrange(from as int, i + 1);
        assert(after.drop_last() =~= before);
        if !('0' <= c && c <= '9') {
            proof {
                let whole = s@.subrange(from as int, s@.len() as int);
                assert(whole[i - from] == c);
            }
            return None;
        }
        let d = (c as u32 - '0' as u32) as u64;
        assert(d <= 9);
        assert(all_digits(after)) by {
            assert forall|j: int| 0 <= j < after.len() implies digit(#[trigger] after[j]) by {
                if j < before.len() {
                    assert(after[j] == before[j]);
                }
            }
        }
        if value > (most - d) / 10 {
            proof {
                lemma_digits_grow(s@, from as int, i as int + 1);
                assert(digits_value(after) == value * 10 + d);
                assert(value * 10 + d > most) by (nonlinear_arith)
                    requires
                        value > (most - d) / 10,
                        d <= 9,
                        d <= most,
                ;
            }
            return None;
        }
        assert(value * 10 + d <= most) by (nonlinear_arith)
            requires
                value <= (most - d) / 10,
                d <= most,
        ;
        value = value * 10 + d;
        i = i + 1;
    }
    Some(value)
}

/// The digits past a prefix only ever add to the value.
proof fn lemma_digits_grow(s: Seq<char>, from: int, to: int)
    requires
        0 <= from <= to <= s.len(),
        all_digits(s.subrange(from, to)),
    ensures
        forall|k: int|
            to <= k <= s.len() && all_digits(s.subrange(from, k)) ==> digits_value(
                s.subrange(from, k),
            ) >= digits_value(s.subrange(from, to)),
{
    assert forall|k: int|
        to <= k <= s.len() && all_digits(s.subrange(from, k)) implies digits_value(
        s.subrange(from, k),
    ) >= digits_value(s.subrange(from, to)) by {
        lemma_digits_monotone(s, from, to, k);
    }
}

proof fn lemma_digits_monotone(s: Seq<char>, from: int, to: int, k: int)
    requires
        0 <= from <= to <= k <= s.len(),
    ensures
        digits_value(s.subrange(from, k)) >= digits_value(s.subrange(from, to)),
    decreases k - to,
{
    if k > to {
        lemma_digits_monotone(s, from, to, k - 1);
        assert(s.subrange(from, k).drop_last() =~= s.subrange(from, k - 1));
    }
}

/// `str::parse::<i64>`.
pub fn parse_i64(s: &[char]) -> (r: Option<i64>)
    ensures
        r == (match integer_of(s@) {
            Some(v) => if i64::MIN <= v <= i64::MAX {
                Some(v as i64)
            } else {
                None
            },
            None => None,
        }),
{
    if s.len() == 0 {
        return None;
    }
    let negative = s[0] == '-';
    let from: usize = if s[0] == '-' || s[0] == '+' {
        1
    } else {
        0
    };
    if from == 1 && s.len() == 1 {
        return None;
    }
    let most: u64 = if negative {
        0x8000_0000_0000_0000
    } else {
        0x7fff_ffff_ffff_ffff
    };
    let ghost rest = s@.subrange(from as int, s@.len() as int);
    proof {
        if from == 1 {
            assert(rest =~= s@.drop_first());
        } else {
            assert(rest =~= s@);
        }
    }
    match digits_up_to(s, from, most) {
        None => None,
        Some(v) => {
            if negative {
                if v == 0x8000_0000_0000_0000 {
                    Some(i64::MIN)
                } else {
                    Some(-(v as i64))
                }
            } else {
                Some(v as i64)
            }
        },
    }
}

/// `str::parse::<u64>`, which takes a `+` and no `-`.
pub fn parse_u64(s: &[char]) -> (r: Option<u64>)
    ensures
        r == (match integer_of(s@) {
            Some(v) => if s@[0] != '-' && 0 <= v <= u64::MAX {
                Some(v as u64)
            } else {
                None
            },
            None => None,
        }),
{
    if s.len() == 0 || s[0] == '-' {
        return None;
    }
    let from: usize = if s[0] == '+' {
        1
    } else {
        0
    };
    if from == 1 && s.len() == 1 {
        return None;
    }
    let ghost rest = s@.subrange(from as int, s@.len() as int);
    proof {
        if from == 1 {
            assert(rest =~= s@.drop_first());
        } else {
            assert(rest =~= s@);
        }
    }
    digits_up_to(s, from, u64::MAX)
}

/// `str::parse::<u8>`.
pub fn parse_u8(s: &[char]) -> (r: Option<u8>)
    ensures
        r == (match integer_of(s@) {
            Some(v) => if s@[0] != '-' && 0 <= v <= u8::MAX {
                Some(v as u8)
            } else {
                None
            },
            None => None,
        }),
{
    match parse_u64(s) {
        Some(v) => if v <= 255 {
            Some(v as u8)
        } else {
            None
        },
        None => None,
    }
}

/// A number written out in decimal, with no sign and no leading zero.
pub open spec fn decimal(n: nat) -> Seq<char>
    decreases n,
{
    if n < 10 {
        seq![digit_char(n)]
    } else {
        decimal(n / 10).push(digit_char(n % 10))
    }
}

/// The character that writes a digit.
pub open spec fn digit_char(d: nat) -> char {
    if d == 0 {
        '0'
    } else if d == 1 {
        '1'
    } else if d == 2 {
        '2'
    } else if d == 3 {
        '3'
    } else if d == 4 {
        '4'
    } else if d == 5 {
        '5'
    } else if d == 6 {
        '6'
    } else if d == 7 {
        '7'
    } else if d == 8 {
        '8'
    } else {
        '9'
    }
}

/// `to_string` of an unsigned number.
pub fn decimal_of(n: u64) -> (r: Vec<char>)
    ensures
        r@ == decimal(n as nat),
    decreases n,
{
    if n < 10 {
        let c = char_of_digit(n as u32);
        let mut r: Vec<char> = Vec::new();
        r.push(c);
        assert(r@ =~= seq![c]);
        r
    } else {
        let mut r = decimal_of(n / 10);
        r.push(char_of_digit((n % 10) as u32));
        r
    }
}

/// `char::from_digit` in base ten, for a digit that is one.
pub fn char_of_digit(d: u32) -> (c: char)
    requires
        d < 10,
    ensures
        c == digit_char(d as nat),
        digit(c),
{
    if d == 0 {
        '0'
    } else if d == 1 {
        '1'
    } else if d == 2 {
        '2'
    } else if d == 3 {
        '3'
    } else if d == 4 {
        '4'
    } else if d == 5 {
        '5'
    } else if d == 6 {
        '6'
    } else if d == 7 {
        '7'
    } else if d == 8 {
        '8'
    } else {
        '9'
    }
}

proof fn lemma_digit_char(d: nat)
    requires
        d < 10,
    ensures
        digit(digit_char(d)),
        (digit_char(d) as u32 - '0' as u32) == d,
{
}

/// Decimal digits read back are the number they were written from.
pub proof fn lemma_decimal_reads_back(n: nat)
    ensures
        all_digits(decimal(n)),
        decimal(n).len() > 0,
        digits_value(decimal(n)) == n,
        decimal(n)[0] != '-' && decimal(n)[0] != '+',
        integer_of(decimal(n)) == Some(n as int),
    decreases n,
{
    let s = decimal(n);
    if n < 10 {
        assert(s.drop_last() =~= Seq::<char>::empty());
        lemma_digit_char(n);
        assert(s.last() == digit_char(n));
        assert(digits_value(s.drop_last()) == 0);
        assert(digits_value(s) == n);
    } else {
        lemma_decimal_reads_back(n / 10);
        assert(s.drop_last() =~= decimal(n / 10));
        assert(n == (n / 10) * 10 + n % 10);
        lemma_digit_char((n % 10) as nat);
        assert(digits_value(s) == n);
        assert forall|j: int| 0 <= j < s.len() implies digit(#[trigger] s[j]) by {
            if j < s.len() - 1 {
                assert(s[j] == decimal(n / 10)[j]);
            }
        }
        assert(s[0] == decimal(n / 10)[0]);
    }
}

} // verus!
