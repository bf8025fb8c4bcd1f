//! Fuzzy matching: whether a query is in a text as scattered letters,
//! and how well it fits.
//!
//! A query is split into words on whitespace, and every word has to be
//! in the text as a subsequence: its letters in order, not necessarily
//! together. A word is scored on the best way its letters can be found,
//! and the words' scores are added. A letter at the start of a word in
//! the text scores more, so does one right after the letter before it,
//! and a gap between two letters costs a little for every character it
//! skips. Matching ignores case and Unicode composition, the way the
//! personal dictionary does. There is no query syntax.

use vstd::prelude::*;

use super::dictionary::{dictionary_key, key_of};
use crate::text::{chars_of, white};

verus! {

/// How well a query fits a text. Higher is better; scores are only ever
/// compared with each other.
#[derive(Clone, Copy, Debug, PartialEq, Eq, Structural, PartialOrd, Ord)]
pub struct Score(pub i64);

/// What every matched letter is worth.
pub const LETTER: i64 = 16;

/// Extra for a letter at the start of a word in the text.
pub const WORD_START: i64 = 8;

/// Extra for a letter right after the one before it.
pub const RUN: i64 = 6;

/// What a gap between two matched letters costs, and what each further
/// character of it costs.
pub const GAP_OPEN: i64 = 3;

pub const GAP_EXTEND: i64 = 1;

/// Nothing found here: far below any score, and far enough above the
/// least `i64` that a little taken off it cannot pass that.
pub const NONE: i64 = -2305843009213693952;

/// The length of text from which the gaps of an alignment can cost as much
/// as half of `NONE`, the floor below which a score in 64 bits is taken
/// for no alignment at all: every text shorter than it is scored exactly.
pub const LONGEST_TEXT: u64 = 0x1000_0000_0000_0000;

/// The number of letters from which a query's score, at most 30 a letter,
/// no longer fits in 64 bits.
pub const MOST_LETTERS: u64 = 0x0400_0000_0000_0000;

/// Whether a character is a letter or a digit, as
/// `char::is_alphanumeric` answers.
pub uninterp spec fn alphanumeric(c: char) -> bool;

/// `char::is_alphanumeric`. Claimed: a function of the character alone.
#[verifier::external_body]
fn is_alphanumeric(c: char) -> (r: bool)
    ensures
        r == alphanumeric(c),
{
    c.is_alphanumeric()
}

// ---- what a match is worth -------------------------------------------

/// Whether a word of the text starts at `at`.
pub open spec fn starts_at(text: Seq<char>, at: int) -> bool {
    at == 0 || !alphanumeric(text[at - 1])
}

/// What a letter matched at `at` is worth.
pub open spec fn worth(text: Seq<char>, at: int) -> int {
    LETTER + if starts_at(text, at) {
        WORD_START as int
    } else {
        0
    }
}

/// What passing from a letter matched at `j` to the next one at `i`
/// adds: the run bonus when they are side by side, or the cost of the
/// gap between them.
pub open spec fn link(j: int, i: int) -> int {
    if j == i - 1 {
        RUN as int
    } else {
        -(GAP_OPEN + GAP_EXTEND * (i - j - 2))
    }
}

/// The larger of two scores, either of which may not be there.
pub open spec fn better(a: Option<int>, b: Option<int>) -> Option<int> {
    match (a, b) {
        (Some(x), Some(y)) => Some(if x >= y {
            x
        } else {
            y
        }),
        (Some(x), None) => Some(x),
        (None, y) => y,
    }
}

/// The best score of the first `k + 1` letters of the word found in the
/// text in order, the last of them at `text[i]`; nothing where they
/// cannot be found that way.
pub open spec fn end_score(word: Seq<char>, text: Seq<char>, k: nat, i: int) -> Option<int>
    decreases k, 1nat, 0nat,
{
    if !(0 <= i < text.len()) || k >= word.len() || text[i] != word[k as int] {
        None
    } else if k == 0 {
        Some(worth(text, i))
    } else {
        match reach(word, text, k, i, i as nat) {
            Some(v) => Some(v + worth(text, i)),
            None => None,
        }
    }
}

/// The best way to arrive at letter `k` matched at `i` from letter
/// `k - 1` matched anywhere before `upto`.
pub open spec fn reach(word: Seq<char>, text: Seq<char>, k: nat, i: int, upto: nat) -> Option<
    int,
>
    decreases k, 0nat, upto,
{
    if k == 0 || upto == 0 {
        None
    } else {
        let j = upto - 1;
        let here = match end_score(word, text, (k - 1) as nat, j) {
            Some(v) => Some(v + link(j, i)),
            None => None,
        };
        better(reach(word, text, k, i, j as nat), here)
    }
}

/// The best score of the whole word with its last letter anywhere before
/// `upto`.
pub open spec fn best_upto(word: Seq<char>, text: Seq<char>, upto: nat) -> Option<int>
    decreases upto,
{
    if upto == 0 || word.len() == 0 {
        None
    } else {
        better(
            best_upto(word, text, (upto - 1) as nat),
            end_score(word, text, (word.len() - 1) as nat, upto - 1),
        )
    }
}

/// The best score of one word found as a subsequence of the text.
pub open spec fn best(word: Seq<char>, text: Seq<char>) -> Option<int> {
    best_upto(word, text, text.len())
}

/// A score as the table of the best ones holds it.
pub open spec fn held_as(o: Option<int>) -> int {
    match o {
        Some(v) => v,
        None => NONE as int,
    }
}

// ---- bounds ----------------------------------------------------------

proof fn lemma_end_bounds(word: Seq<char>, text: Seq<char>, k: nat, i: int)
    ensures
        end_score(word, text, k, i) matches Some(v) ==> 16 - i <= v <= 30 * (k + 1),
    decreases k, 1nat, 0nat,
{
    if 0 <= i < text.len() && k < word.len() && text[i] == word[k as int] && k > 0 {
        lemma_reach_bounds(word, text, k, i, i as nat);
    }
}

proof fn lemma_reach_bounds(word: Seq<char>, text: Seq<char>, k: nat, i: int, upto: nat)
    requires
        upto <= i,
    ensures
        reach(word, text, k, i, upto) matches Some(v) ==> -i <= v <= 30 * k + 6,
    decreases k, 0nat, upto,
{
    if k > 0 && upto > 0 {
        let j = upto - 1;
        lemma_end_bounds(word, text, (k - 1) as nat, j);
        lemma_reach_bounds(word, text, k, i, j as nat);
    }
}

// ---- the table of best scores, one letter at a time ------------------

/// The running best of arriving across a gap, as the table builds it.
pub open spec fn across(ends: Seq<i64>, at: int) -> int
    decreases at,
{
    if at < 2 {
        NONE as int
    } else {
        let carried = across(ends, at - 1) - GAP_EXTEND;
        let opened = ends[at - 2] - GAP_OPEN;
        if carried >= opened {
            carried
        } else {
            opened
        }
    }
}

/// Arriving at `i` from a letter matched more than one place before it is
/// arriving at `i - 1` from the same place, one character dearer.
proof fn lemma_reach_shift(word: Seq<char>, text: Seq<char>, k: nat, i: int, upto: nat)
    requires
        upto + 1 <= i,
    ensures
        reach(word, text, k, i + 1, upto) == (match reach(word, text, k, i, upto) {
            Some(v) => Some(v - 1),
            None => None,
        }),
    decreases upto,
{
    if k > 0 && upto > 0 {
        lemma_reach_shift(word, text, k, i, (upto - 1) as nat);
    }
}

/// The running best of the table is the best arrival across a gap.
proof fn lemma_across(word: Seq<char>, text: Seq<char>, ends: Seq<i64>, k: nat, at: int)
    requires
        k >= 1,
        2 <= at <= text.len(),
        ends.len() == text.len(),
        text.len() < LONGEST_TEXT,
        forall|j: int|
            0 <= j < text.len() ==> #[trigger] ends[j] == held_as(
                end_score(word, text, (k - 1) as nat, j),
            ),
    ensures
        match reach(word, text, k, at, (at - 1) as nat) {
            Some(v) => across(ends, at) == v,
            None => NONE - at <= across(ends, at) <= NONE - 1,
        },
    decreases at,
{
    let j = at - 2;
    lemma_end_bounds(word, text, (k - 1) as nat, j);
    let here = match end_score(word, text, (k - 1) as nat, j) {
        Some(v) => Some(v + link(j, at)),
        None => None,
    };
    assert(link(j, at) == -3);
    assert(reach(word, text, k, at, (at - 1) as nat) == better(
        reach(word, text, k, at, j as nat),
        here,
    ));
    assert(across(ends, at) == (if across(ends, at - 1) - 1 >= ends[j] - 3 {
        across(ends, at - 1) - 1
    } else {
        ends[j] - 3
    }));
    assert(ends[j] == held_as(end_score(word, text, (k - 1) as nat, j)));
    if at == 2 {
        assert(reach(word, text, k, at, 0) == None::<int>);
        assert(across(ends, 1) == NONE);
    } else {
        lemma_across(word, text, ends, k, at - 1);
        lemma_reach_shift(word, text, k, at - 1, (at - 2) as nat);
        lemma_reach_bounds(word, text, k, at - 1, (at - 2) as nat);
    }
}

/// What arriving at `at` from either side comes to in the table.
proof fn lemma_before(word: Seq<char>, text: Seq<char>, ends: Seq<i64>, k: nat, at: int)
    requires
        k >= 1,
        1 <= at < text.len(),
        ends.len() == text.len(),
        text.len() < LONGEST_TEXT,
        forall|j: int|
            0 <= j < text.len() ==> #[trigger] ends[j] == held_as(
                end_score(word, text, (k - 1) as nat, j),
            ),
    ensures
        ({
            let run = ends[at - 1] + RUN;
            let gap = if at >= 2 {
                across(ends, at)
            } else {
                NONE as int
            };
            let before = if run >= gap {
                run
            } else {
                gap
            };
            match reach(word, text, k, at, at as nat) {
                Some(v) => before == v && v > NONE / 2,
                None => NONE - at <= before <= NONE / 2,
            }
        }),
{
    lemma_end_bounds(word, text, (k - 1) as nat, at - 1);
    if at >= 2 {
        lemma_across(word, text, ends, k, at);
        lemma_reach_bounds(word, text, k, at, (at - 1) as nat);
    } else {
        assert(reach(word, text, k, at, 0) == None::<int>);
    }
}

/// The best score of one word found as a subsequence of the text, or
/// `None` where it is not in the text.
///
/// `ends[i]` is the best score of the letters of the word so far with
/// the last of them at `text[i]`. For the next letter, the best way to
/// reach `i` is straight from `i - 1`, with the run bonus, or from any
/// earlier position across a gap; `across` carries the best of those as
/// `i` moves right, paying one more `GAP_EXTEND` for each step.
fn best_alignment(word: &[char], text: &[char], starts: &[bool]) -> (r: Option<i64>)
    requires
        word@.len() >= 1,
        word@.len() < MOST_LETTERS,
        text@.len() < LONGEST_TEXT,
        starts@.len() == text@.len(),
        forall|at: int| 0 <= at < text@.len() ==> #[trigger] starts@[at] == starts_at(text@, at),
    ensures
        match r {
            Some(v) => best(word@, text@) == Some(v as int),
            None => best(word@, text@).is_none(),
        },
{
    let n = text.len();
    let mut ends: Vec<i64> = Vec::new();
    let mut at: usize = 0;
    while at < n
        invariant
            n == text@.len(),
            at <= n,
            ends@.len() == at,
            forall|j: int|
                0 <= j < at ==> #[trigger] ends@[j] == held_as(end_score(word@, text@, 0, j)),
            forall|a: int| 0 <= a < text@.len() ==> #[trigger] starts@[a] == starts_at(text@, a),
            starts@.len() == text@.len(),
            word@.len() >= 1,
        decreases n - at,
    {
        if text[at] == word[0] {
            ends.push(LETTER + if starts[at] { WORD_START } else { 0 });
        } else {
            ends.push(NONE);
        }
        at = at + 1;
    }

    let mut k: usize = 1;
    while k < word.len()
        invariant
            n == text@.len(),
            n < LONGEST_TEXT,
            word@.len() < MOST_LETTERS,
            1 <= k <= word@.len(),
            ends@.len() == n,
            forall|j: int|
                0 <= j < n ==> #[trigger] ends@[j] == held_as(
                    end_score(word@, text@, (k - 1) as nat, j),
                ),
            forall|a: int| 0 <= a < text@.len() ==> #[trigger] starts@[a] == starts_at(text@, a),
            starts@.len() == text@.len(),
        decreases word@.len() - k,
    {
        let letter = word[k];
        let mut next: Vec<i64> = Vec::new();
        let mut fill: usize = 0;
        while fill < n
            invariant
                fill <= n,
                next@.len() == fill,
                forall|j: int| 0 <= j < fill ==> #[trigger] next@[j] == NONE,
            decreases n - fill,
        {
            next.push(NONE);
            fill = fill + 1;
        }
        proof {
            if n > 0 {
                assert(end_score(word@, text@, k as nat, 0) == None::<int>) by {
                    assert(reach(word@, text@, k as nat, 0, 0) == None::<int>);
                }
            }
        }
        let mut carried: i64 = NONE;
        let mut at: usize = 1;
        while at < n
            invariant
                n == text@.len(),
                n < LONGEST_TEXT,
                word@.len() < MOST_LETTERS,
                1 <= k < word@.len(),
                letter == word@[k as int],
                1 <= at <= n || n == 0,
                ends@.len() == n,
                next@.len() == n,
                forall|j: int|
                    0 <= j < n ==> #[trigger] ends@[j] == held_as(
                        end_score(word@, text@, (k - 1) as nat, j),
                    ),
                forall|j: int|
                    0 <= j < at && j < n ==> #[trigger] next@[j] == held_as(
                        end_score(word@, text@, k as nat, j),
                    ),
                forall|j: int| at <= j < n ==> #[trigger] next@[j] == NONE,
                at >= 2 ==> carried == across(ends@, at as int - 1),
                at < 2 ==> carried == NONE,
                carried >= NONE - at,
                carried <= 30 * k + 6,
                forall|a: int| 0 <= a < text@.len() ==> #[trigger] starts@[a] == starts_at(text@, a),
                starts@.len() == text@.len(),
            decreases n - at,
        {
            proof {
                lemma_before(word@, text@, ends@, k as nat, at as int);
                lemma_end_bounds(word@, text@, (k - 1) as nat, at as int - 1);
                if at >= 2 {
                    lemma_end_bounds(word@, text@, (k - 1) as nat, at as int - 2);
                    lemma_across(word@, text@, ends@, k as nat, at as int);
                    lemma_reach_bounds(word@, text@, k as nat, at as int, (at - 1) as nat);
                }
            }
            if at >= 2 {
                let opened = ends[at - 2] - GAP_OPEN;
                let stretched = carried - GAP_EXTEND;
                carried = if stretched >= opened {
                    stretched
                } else {
                    opened
                };
            }
            if text[at] == letter {
                let run = ends[at - 1] + RUN;
                let before = if run >= carried {
                    run
                } else {
                    carried
                };
                if before > NONE / 2 {
                    proof {
                        lemma_reach_bounds(word@, text@, k as nat, at as int, at as nat);
                    }
                    next.set(at, before + if starts[at] { LETTER + WORD_START } else { LETTER });
                }
            }
            at = at + 1;
        }
        ends = next;
        k = k + 1;
    }

    let mut found: Option<i64> = None;
    let mut i: usize = 0;
    let ghost last = (word.len() - 1) as nat;
    while i < n
        invariant
            n == text@.len(),
            n < LONGEST_TEXT,
            word@.len() >= 1,
            last == word@.len() - 1,
            i <= n,
            ends@.len() == n,
            forall|j: int|
                0 <= j < n ==> #[trigger] ends@[j] == held_as(end_score(word@, text@, last, j)),
            match found {
                Some(v) => best_upto(word@, text@, i as nat) == Some(v as int),
                None => best_upto(word@, text@, i as nat).is_none(),
            },
        decreases n - i,
    {
        proof {
            lemma_end_bounds(word@, text@, last, i as int);
        }
        let s = ends[i];
        if s > NONE / 2 {
            found = match found {
                Some(v) => Some(if v >= s {
                    v
                } else {
                    s
                }),
                None => Some(s),
            };
        }
        i = i + 1;
    }
    found
}


// ---- words -----------------------------------------------------------

/// `str::split_whitespace`: the runs of characters between whitespace,
/// none of them empty.
pub open spec fn words_of(s: Seq<char>) -> Seq<Seq<char>>
    decreases s.len(),
{
    if s.len() == 0 {
        Seq::empty()
    } else if white(s[0]) {
        words_of(s.drop_first())
    } else {
        let rest = words_of(s.drop_first());
        if s.len() > 1 && !white(s[1]) {
            rest.update(0, seq![s[0]] + rest[0])
        } else {
            seq![seq![s[0]]] + rest
        }
    }
}

proof fn lemma_words_nonempty(s: Seq<char>)
    requires
        s.len() > 0,
        !white(s[0]),
    ensures
        words_of(s).len() >= 1,
    decreases s.len(),
{
    if s.len() > 1 && !white(s[1]) {
        lemma_words_nonempty(s.drop_first());
    }
}

/// A run of letters up to whitespace or the end is the first word.
proof fn lemma_word_prefix(x: Seq<char>, j: int)
    requires
        0 < j <= x.len(),
        forall|a: int| 0 <= a < j ==> !white(#[trigger] x[a]),
        j == x.len() || white(x[j]),
    ensures
        words_of(x) == seq![x.subrange(0, j)] + words_of(x.subrange(j, x.len() as int)),
    decreases j,
{
    let t = x.drop_first();
    if j == 1 {
        assert(x.subrange(0, 1) =~= seq![x[0]]);
        assert(t =~= x.subrange(1, x.len() as int));
    } else {
        assert forall|a: int| 0 <= a < j - 1 implies !white(#[trigger] t[a]) by {
            assert(t[a] == x[a + 1]);
        }
        lemma_word_prefix(t, j - 1);
        assert(t.subrange(j - 1, t.len() as int) =~= x.subrange(j, x.len() as int));
        assert(seq![x[0]] + t.subrange(0, j - 1) =~= x.subrange(0, j));
        assert(x[1] == t[0]);
        assert(words_of(x) =~= seq![x.subrange(0, j)] + words_of(x.subrange(j, x.len() as int)));
    }
}

/// No word is empty.
proof fn lemma_words_filled(s: Seq<char>)
    ensures
        forall|k: int| 0 <= k < words_of(s).len() ==> (#[trigger] words_of(s)[k]).len() >= 1,
    decreases s.len(),
{
    if s.len() > 0 {
        lemma_words_filled(s.drop_first());
        if !white(s[0]) && s.len() > 1 && !white(s[1]) {
            lemma_words_nonempty(s.drop_first());
        }
    }
}

/// `str::split_whitespace`.
pub fn split_whitespace(s: &[char]) -> (r: Vec<Vec<char>>)
    ensures
        crate::text::views(r@) == words_of(s@),
{
    let mut done: Vec<Vec<char>> = Vec::new();
    let mut i: usize = 0;
    proof {
        assert(s@.subrange(0, s@.len() as int) =~= s@);
    }
    while i < s.len()
        invariant
            i <= s@.len(),
            words_of(s@) == crate::text::views(done@) + words_of(
                s@.subrange(i as int, s@.len() as int),
            ),
        decreases s@.len() - i,
    {
        let ghost here = s@.subrange(i as int, s@.len() as int);
        if crate::text::is_white(s[i]) {
            proof {
                assert(here.drop_first() =~= s@.subrange(i + 1, s@.len() as int));
            }
            i = i + 1;
        } else {
            let mut j = i + 1;
            while j < s.len() && !crate::text::is_white(s[j])
                invariant
                    i < j <= s@.len(),
                    forall|a: int| i <= a < j ==> !white(#[trigger] s@[a]),
                decreases s@.len() - j,
            {
                j = j + 1;
            }
            let word = crate::text::slice_of(s, i, j);
            proof {
                assert forall|a: int| 0 <= a < j - i implies !white(#[trigger] here[a]) by {
                    assert(here[a] == s@[i + a]);
                }
                lemma_word_prefix(here, j - i);
                assert(here.subrange(0, j - i) =~= word@);
                assert(here.subrange(j - i, here.len() as int) =~= s@.subrange(
                    j as int,
                    s@.len() as int,
                ));
                assert(crate::text::views(done@.push(word)) =~= crate::text::views(done@).push(
                    word@,
                ));
            }
            done.push(word);
            i = j;
        }
    }
    proof {
        assert(s@.subrange(s@.len() as int, s@.len() as int) =~= Seq::<char>::empty());
        assert(crate::text::views(done@) + Seq::<Seq<char>>::empty() =~= crate::text::views(
            done@,
        ));
    }
    done
}

// ---- a query ---------------------------------------------------------

/// The number of letters in a list of words.
pub open spec fn letters(words: Seq<Seq<char>>) -> nat
    decreases words.len(),
{
    if words.len() == 0 {
        0
    } else {
        letters(words.drop_last()) + words.last().len()
    }
}

/// The sum of the best scores of every word, or nothing where one of them
/// is not in the text.
pub open spec fn fit(words: Seq<Seq<char>>, text: Seq<char>) -> Option<int>
    decreases words.len(),
{
    if words.len() == 0 {
        Some(0)
    } else {
        match (fit(words.drop_last(), text), best(words.last(), text)) {
            (Some(a), Some(b)) => Some(a + b),
            _ => None,
        }
    }
}

/// A score that 64 bits hold, or nothing.
pub open spec fn in_range(v: Option<int>) -> Option<int> {
    match v {
        Some(x) => if i64::MIN <= x <= i64::MAX {
            Some(x)
        } else {
            None
        },
        None => None,
    }
}

/// How well words fit a text whose key is `text`, as `Query::score`
/// answers: no words fit everything equally; past the lengths at which a
/// score in 64 bits stops being exact, and for a sum 64 bits cannot hold,
/// there is no score.
pub open spec fn query_fit(words: Seq<Seq<char>>, text: Seq<char>) -> Option<int> {
    if words.len() == 0 {
        Some(0)
    } else if letters(words) >= MOST_LETTERS || text.len() >= LONGEST_TEXT {
        None
    } else {
        in_range(fit(words, text))
    }
}

/// A query made ready to be matched against many texts.
#[derive(Clone, Debug)]
pub struct Query {
    words: Vec<Vec<char>>,
}

impl View for Query {
    type V = Seq<Seq<char>>;

    closed spec fn view(&self) -> Seq<Seq<char>> {
        crate::text::views(self.words@)
    }
}

proof fn lemma_letters_bound(words: Seq<Seq<char>>, k: int)
    requires
        0 <= k <= words.len(),
    ensures
        letters(words.subrange(0, k)) <= letters(words),
        k < words.len() ==> letters(words.subrange(0, k)) + words[k].len() <= letters(words),
    decreases words.len() - k,
{
    if k < words.len() {
        lemma_letters_bound(words, k + 1);
        assert(words.subrange(0, k + 1).drop_last() =~= words.subrange(0, k));
    } else {
        assert(words.subrange(0, k) =~= words);
    }
}

proof fn lemma_fit_bounds(words: Seq<Seq<char>>, text: Seq<char>)
    requires
        text.len() < LONGEST_TEXT,
    ensures
        fit(words, text) matches Some(v) ==> -(words.len() * text.len()) <= v <= 30 * letters(
            words,
        ),
    decreases words.len(),
{
    if words.len() > 0 {
        lemma_fit_bounds(words.drop_last(), text);
        lemma_best_bounds(words.last(), text, text.len());
        assert((words.len() - 1) * text.len() + text.len() == words.len() * text.len()) by (
        nonlinear_arith);
    }
}

proof fn lemma_best_bounds(word: Seq<char>, text: Seq<char>, upto: nat)
    requires
        upto <= text.len(),
    ensures
        best_upto(word, text, upto) matches Some(v) ==> -(text.len() as int) <= v <= 30
            * word.len(),
    decreases upto,
{
    if upto > 0 && word.len() > 0 {
        lemma_best_bounds(word, text, (upto - 1) as nat);
        lemma_end_bounds(word, text, (word.len() - 1) as nat, upto - 1);
    }
}

impl Query {
    pub fn new(query: &str) -> (r: Query)
        ensures
            r@ == words_of(key_of(query@)),
    {
        let key = dictionary_key(query);
        Query { words: split_whitespace(chars_of(key.as_str()).as_slice()) }
    }

    /// A query with no words matches everything equally.
    pub fn is_empty(&self) -> (r: bool)
        ensures
            r == (self@.len() == 0),
    {
        self.words.len() == 0
    }

    /// How well the query fits the text, or `None` when one of its words
    /// is not in it.
    pub fn score(&self, text: &str) -> (r: Option<Score>)
        requires
            forall|k: int| 0 <= k < self@.len() ==> (#[trigger] self@[k]).len() >= 1,
        ensures
            r == (match query_fit(self@, key_of(text@)) {
                Some(v) => Some(Score(v as i64)),
                None => None,
            }),
            r matches Some(found) ==> query_fit(self@, key_of(text@)) == Some(found.0 as int),
    {
        if self.is_empty() {
            return Some(Score(0));
        }
        let key = chars_of(dictionary_key(text).as_str());
        let mut count: u64 = 0;
        let mut w: usize = 0;
        while w < self.words.len()
            invariant
                w <= self@.len(),
                self@ == crate::text::views(self.words@),
                count == letters(self@.subrange(0, w as int)),
                count < MOST_LETTERS,
            decreases self@.len() - w,
        {
            proof {
                assert(self@.subrange(0, w + 1).drop_last() =~= self@.subrange(0, w as int));
            }
            let more = self.words[w].len() as u64;
            if more >= MOST_LETTERS - count {
                proof {
                    lemma_letters_bound(self@, w as int);
                }
                return None;
            }
            count = count + more;
            w = w + 1;
        }
        proof {
            assert(self@.subrange(0, self@.len() as int) =~= self@);
        }
        if key.len() as u64 >= LONGEST_TEXT {
            return None;
        }
        let mut starts: Vec<bool> = Vec::new();
        let mut at: usize = 0;
        while at < key.len()
            invariant
                at <= key@.len(),
                starts@.len() == at,
                forall|a: int| 0 <= a < at ==> #[trigger] starts@[a] == starts_at(key@, a),
            decreases key@.len() - at,
        {
            starts.push(at == 0 || !is_alphanumeric(key[at - 1]));
            at = at + 1;
        }
        let mut total: i128 = 0;
        let mut w: usize = 0;
        while w < self.words.len()
            invariant
                w <= self@.len(),
                self@ == crate::text::views(self.words@),
                forall|k: int| 0 <= k < self@.len() ==> (#[trigger] self@[k]).len() >= 1,
                letters(self@) < MOST_LETTERS,
                self@.len() > 0,
                key@.len() < LONGEST_TEXT,
                starts@.len() == key@.len(),
                forall|a: int| 0 <= a < key@.len() ==> #[trigger] starts@[a] == starts_at(key@, a),
                fit(self@.subrange(0, w as int), key@) == Some(total as int),
                key@ == key_of(text@),
            decreases self@.len() - w,
        {
            proof {
                assert(self@.subrange(0, w + 1).drop_last() =~= self@.subrange(0, w as int));
                assert(self@[w as int] == self.words@[w as int]@);
                lemma_letters_bound(self@, w as int);
                lemma_fit_bounds(self@.subrange(0, w + 1), key@);
                assert(letters(self@.subrange(0, w + 1)) <= letters(self@)) by {
                    lemma_letters_bound(self@, w + 1);
                }
                assert(self@.subrange(0, w + 1).len() <= letters(self@)) by {
                    lemma_count_words(self@.subrange(0, w + 1));
                    lemma_letters_bound(self@, w + 1);
                }
                assert(self@.subrange(0, w + 1).len() * key@.len() <= MOST_LETTERS * LONGEST_TEXT) by (
                nonlinear_arith)
                    requires
                        self@.subrange(0, w + 1).len() <= MOST_LETTERS,
                        key@.len() < LONGEST_TEXT,
                ;
            }
            match best_alignment(self.words[w].as_slice(), key.as_slice(), starts.as_slice()) {
                Some(best) => {
                    total = total + best as i128;
                },
                None => {
                    proof {
                        let sub = self@.subrange(0, w + 1);
                        assert(sub.last() == self@[w as int]);
                        assert(sub.drop_last() =~= self@.subrange(0, w as int));
                        assert(fit(sub, key@).is_none());
                        lemma_fit_none(self@, key@, w as int + 1);
                    }
                    return None;
                },
            }
            w = w + 1;
        }
        proof {
            assert(self@.subrange(0, self@.len() as int) =~= self@);
        }
        if total < -0x8000_0000_0000_0000 || total > 0x7fff_ffff_ffff_ffff {
            return None;
        }
        Some(Score(total as i64))
    }

    /// Every word of the query has a letter in it.
    pub proof fn lemma_filled(query: Seq<char>)
        ensures
            forall|k: int|
                0 <= k < words_of(key_of(query)).len() ==> (#[trigger] words_of(
                    key_of(query),
                )[k]).len() >= 1,
    {
        lemma_words_filled(key_of(query));
    }
}

/// A list of words with a letter in each has at least as many letters as
/// words.
proof fn lemma_count_words(words: Seq<Seq<char>>)
    requires
        forall|k: int| 0 <= k < words.len() ==> (#[trigger] words[k]).len() >= 1,
    ensures
        words.len() <= letters(words),
    decreases words.len(),
{
    if words.len() > 0 {
        let rest = words.drop_last();
        assert forall|k: int| 0 <= k < rest.len() implies (#[trigger] rest[k]).len() >= 1 by {
            assert(rest[k] == words[k]);
        }
        lemma_count_words(rest);
    }
}

/// Once one word is not found, no longer list of words fits.
proof fn lemma_fit_none(words: Seq<Seq<char>>, text: Seq<char>, k: int)
    requires
        0 <= k <= words.len(),
        fit(words.subrange(0, k), text).is_none(),
    ensures
        fit(words, text).is_none(),
    decreases words.len() - k,
{
    if k < words.len() {
        assert(words.subrange(0, k + 1).drop_last() =~= words.subrange(0, k));
        lemma_fit_none(words, text, k + 1);
    } else {
        assert(words.subrange(0, k) =~= words);
    }
}

/// How well a query fits a text, or `None` when it does not.
pub fn score(query: &str, text: &str) -> (r: Option<Score>)
    ensures
        r == (match query_fit(words_of(key_of(query@)), key_of(text@)) {
            Some(v) => Some(Score(v as i64)),
            None => None,
        }),
{
    let q = Query::new(query);
    proof {
        Query::lemma_filled(query@);
    }
    q.score(text)
}


// ---- ranking ---------------------------------------------------------

/// How well the query's words fit an item's text.
pub open spec fn item_fit<T>(words: Seq<Seq<char>>, items: Seq<(T, &str)>, i: int) -> Option<int> {
    query_fit(words, key_of(items[i].1@))
}

/// Whether one match comes before another: a better score first, and of
/// two equal scores the one given first.
pub open spec fn ahead(a: (int, int), b: (int, int)) -> bool {
    a.0 > b.0 || (a.0 == b.0 && a.1 < b.1)
}

/// The order `rank` gives: the index of every item that matched, each
/// once, best first and ties in the order they were given.
pub open spec fn ranked_order<T>(words: Seq<Seq<char>>, items: Seq<(T, &str)>, order: Seq<int>) -> bool {
    &&& forall|k: int|
        0 <= k < order.len() ==> 0 <= #[trigger] order[k] < items.len() && item_fit(
            words,
            items,
            order[k],
        ).is_some()
    &&& forall|i: int|
        0 <= i < items.len() && #[trigger] item_fit(words, items, i).is_some() ==> order.contains(i)
    &&& forall|a: int, b: int|
        0 <= a < b < order.len() ==> ahead(
            (item_fit(words, items, #[trigger] order[a]).unwrap(), order[a]),
            (item_fit(words, items, #[trigger] order[b]).unwrap(), order[b]),
        )
}

/// The ids of the texts the query matches, best first. Texts that score
/// the same keep the order they were given in, so an empty query gives
/// back every id in the order it came in.
pub fn rank<T: Copy>(query: &str, items: &[(T, &str)]) -> (r: Vec<T>)
    ensures
        exists|order: Seq<int>|
            {
                &&& ranked_order(words_of(key_of(query@)), items@, order)
                &&& r@.len() == order.len()
                &&& forall|k: int| 0 <= k < order.len() ==> r@[k] == items@[#[trigger] order[k]].0
            },
{
    let q = Query::new(query);
    let ghost words = words_of(key_of(query@));
    proof {
        Query::lemma_filled(query@);
    }
    let mut out: Vec<(i64, usize)> = Vec::new();
    let mut i: usize = 0;
    while i < items.len()
        invariant
            i <= items@.len(),
            q@ == words,
            forall|k: int| 0 <= k < q@.len() ==> (#[trigger] q@[k]).len() >= 1,
            forall|k: int|
                0 <= k < out@.len() ==> (#[trigger] out@[k]).1 < i && item_fit(
                    words,
                    items@,
                    out@[k].1 as int,
                ) == Some(out@[k].0 as int),
            forall|j: int|
                0 <= j < i && #[trigger] item_fit(words, items@, j).is_some() ==> exists|k: int|
                    0 <= k < out@.len() && out@[k].1 == j,
            forall|a: int, b: int|
                0 <= a < b < out@.len() ==> ahead(
                    ((#[trigger] out@[a]).0 as int, out@[a].1 as int),
                    ((#[trigger] out@[b]).0 as int, out@[b].1 as int),
                ),
        decreases items@.len() - i,
    {
        match q.score(items[i].1) {
            None => {},
            Some(found) => {
                let s = found.0;
                let mut p: usize = 0;
                while p < out.len() && out[p].0 >= s
                    invariant
                        p <= out@.len(),
                        forall|k: int| 0 <= k < p ==> (#[trigger] out@[k]).0 >= s,
                    decreases out@.len() - p,
                {
                    p = p + 1;
                }
                let ghost was = out@;
                out.insert(p, (s, i));
                proof {
                    assert forall|k: int| 0 <= k < out@.len() implies (#[trigger] out@[k]).1 < i + 1
                        && item_fit(words, items@, out@[k].1 as int) == Some(out@[k].0 as int) by {
                        if k < p {
                            assert(out@[k] == was[k]);
                        } else if k > p {
                            assert(out@[k] == was[k - 1]);
                        }
                    }
                    assert forall|j: int|
                        0 <= j < i + 1 && #[trigger] item_fit(words, items@, j).is_some()
                            implies exists|k: int| 0 <= k < out@.len() && out@[k].1 == j by {
                        if j == i {
                            assert(out@[p as int].1 == j);
                        } else {
                            let k = choose|k: int| 0 <= k < was.len() && was[k].1 == j;
                            if k < p {
                                assert(out@[k] == was[k]);
                            } else {
                                assert(out@[k + 1] == was[k]);
                            }
                        }
                    }
                    assert forall|a: int, b: int| 0 <= a < b < out@.len() implies ahead(
                        ((#[trigger] out@[a]).0 as int, out@[a].1 as int),
                        ((#[trigger] out@[b]).0 as int, out@[b].1 as int),
                    ) by {
                        let ea = if a < p {
                            was[a]
                        } else if a == p {
                            (s, i)
                        } else {
                            was[a - 1]
                        };
                        let eb = if b < p {
                            was[b]
                        } else if b == p {
                            (s, i)
                        } else {
                            was[b - 1]
                        };
                        assert(out@[a] == ea);
                        assert(out@[b] == eb);
                        if b == p {
                            assert(was[a].0 >= s);
                        } else if a == p {
                            assert(was[b - 1].0 < s) by {
                                if p < was.len() {
                                    assert(was[p as int].0 < s);
                                    if b - 1 > p {
                                        assert(ahead(
                                            (was[p as int].0 as int, was[p as int].1 as int),
                                            (was[b - 1].0 as int, was[b - 1].1 as int),
                                        ));
                                    }
                                }
                            }
                        }
                    }
                }
            },
        }
        i = i + 1;
    }
    let mut r: Vec<T> = Vec::new();
    let mut k: usize = 0;
    while k < out.len()
        invariant
            k <= out@.len(),
            r@.len() == k,
            forall|m: int| 0 <= m < out@.len() ==> (#[trigger] out@[m]).1 < items@.len(),
            forall|m: int| 0 <= m < k ==> r@[m] == items@[(#[trigger] out@[m]).1 as int].0,
        decreases out@.len() - k,
    {
        r.push(items[out[k].1].0);
        k = k + 1;
    }
    let ghost order = out@.map_values(|e: (i64, usize)| e.1 as int);
    proof {
        assert forall|j: int|
            0 <= j < items@.len() && #[trigger] item_fit(words, items@, j).is_some()
                implies order.contains(j) by {
            let m = choose|m: int| 0 <= m < out@.len() && out@[m].1 == j;
            assert(order[m] == j);
        }
        assert forall|a: int, b: int| 0 <= a < b < order.len() implies ahead(
            (item_fit(words, items@, #[trigger] order[a]).unwrap(), order[a]),
            (item_fit(words, items@, #[trigger] order[b]).unwrap(), order[b]),
        ) by {
            assert(ahead(
                (out@[a].0 as int, out@[a].1 as int),
                (out@[b].0 as int, out@[b].1 as int),
            ));
        }
        assert forall|m: int| 0 <= m < order.len() implies r@[m] == items@[#[trigger] order[m]].0 by {
            assert(r@[m] == items@[out@[m].1 as int].0);
        }
        assert(ranked_order(words, items@, order));
    }
    r
}

} // verus!
