//! The personal dictionary: the words this person has told the program
//! are spelt right, and the rules for what may go in it.
//!
//! An entry is one word, held under a canonical key so that the same word
//! in two capitalisations is one entry. The key is what a checker asks
//! with; the word is what was typed, which is what the manager shows.

use unicode_normalization::UnicodeNormalization;
use vstd::prelude::*;

use super::model::{find_key, first_with_key, lookup, Change, Model, ModelView, Write, WriteView};
use super::Rejected;
use crate::text::{chars_of, same, string_of, trim, trimmed, white};

verus! {

/// The longest word the dictionary takes. Past this it is a slip of the
/// keyboard rather than a word.
pub const MOST: usize = 128;

/// A string in Unicode Normalization Form C, as `unicode_normalization`
/// composes it.
pub uninterp spec fn nfc_of(s: Seq<char>) -> Seq<char>;

/// A string lowercased the way `str::to_lowercase` does it.
pub uninterp spec fn lowercase_of(s: Seq<char>) -> Seq<char>;

/// Whether a character has Unicode's Alphabetic property, as
/// `char::is_alphabetic` answers.
pub uninterp spec fn alphabetic(c: char) -> bool;

/// `UnicodeNormalization::nfc` from `unicode_normalization`, collected.
/// Claimed: the result is a function of the characters given and nothing
/// else; what that function is, is not stated.
#[verifier::external_body]
fn nfc(s: &str) -> (r: String)
    ensures
        r@ == nfc_of(s@),
{
    s.nfc().collect()
}

/// `str::to_lowercase`. Claimed: the result is a function of the
/// characters given; the case mapping itself is not stated.
#[verifier::external_body]
pub(crate) fn lowercase(s: &str) -> (r: String)
    ensures
        r@ == lowercase_of(s@),
{
    s.to_lowercase()
}

/// `char::is_alphabetic`. Claimed: a function of the character alone.
#[verifier::external_body]
pub fn is_alphabetic(c: char) -> (r: bool)
    ensures
        r == alphabetic(c),
{
    c.is_alphabetic()
}

/// The characters of general category Cc, which is what
/// `char::is_control` answers for.
pub open spec fn control(c: char) -> bool {
    (c as u32) <= 0x1f || (0x7f <= (c as u32) <= 0x9f)
}

pub fn is_control(c: char) -> (r: bool)
    ensures
        r == control(c),
{
    (c as u32) <= 0x1f || (0x7f <= (c as u32) && (c as u32) <= 0x9f)
}

/// The key an entry is held under: the word composed, lowercased, and
/// composed again.
pub open spec fn key_of(word: Seq<char>) -> Seq<char> {
    nfc_of(lowercase_of(nfc_of(word)))
}

/// The key an entry is held under: the same word in any capitalisation,
/// and in either Unicode composition, comes out as one string.
///
/// Composing first means the lowercasing sees whole characters; composing
/// again settles the few whose lowercase form decomposes.
pub fn dictionary_key(word: &str) -> (r: String)
    ensures
        r@ == key_of(word@),
{
    let composed = nfc(word);
    let lower = lowercase(composed.as_str());
    nfc(lower.as_str())
}

/// What is wrong with a word the dictionary is offered, already trimmed
/// and composed, as the sentence it is refused with.
pub open spec fn word_problem(word: Seq<char>) -> Option<Seq<char>> {
    if word.len() == 0 {
        Some("A dictionary word cannot be blank."@)
    } else if exists|j: int| 0 <= j < word.len() && white(#[trigger] word[j]) {
        Some("A dictionary word is one word."@)
    } else if exists|j: int| 0 <= j < word.len() && control(#[trigger] word[j]) {
        Some("A word cannot have control characters in it."@)
    } else if !(exists|j: int| 0 <= j < word.len() && alphabetic(#[trigger] word[j])) {
        Some("A word needs a letter in it."@)
    } else if word.len() > MOST {
        Some("A word is at most 128 characters."@)
    } else {
        None
    }
}

/// An entry is one word: the outer whitespace goes, and what is left has
/// to be a word rather than a phrase, a punctuation mark or a stretch of
/// something a terminal cannot draw.
pub fn valid_word(text: &str) -> (r: Result<String, Rejected>)
    ensures
        ({
            let word = nfc_of(trimmed(text@));
            match r {
                Ok(w) => word_problem(word).is_none() && w@ == word,
                Err(Rejected(why)) => word_problem(word) == Some(why@),
            }
        }),
{
    let trimmed_text = string_of(trim(chars_of(text).as_slice()).as_slice());
    let word = nfc(trimmed_text.as_str());
    let cs = chars_of(word.as_str());
    if cs.len() == 0 {
        return Err(Rejected("A dictionary word cannot be blank.".to_owned()));
    }
    let mut i: usize = 0;
    let mut white_at: Option<usize> = None;
    let mut control_at: Option<usize> = None;
    let mut letter = false;
    while i < cs.len()
        invariant
            i <= cs@.len(),
            white_at.is_none() ==> forall|j: int| 0 <= j < i ==> !white(#[trigger] cs@[j]),
            white_at.is_some() ==> white_at.unwrap() < cs@.len() && white(
                cs@[white_at.unwrap() as int],
            ),
            control_at.is_none() ==> forall|j: int| 0 <= j < i ==> !control(#[trigger] cs@[j]),
            control_at.is_some() ==> control_at.unwrap() < cs@.len() && control(
                cs@[control_at.unwrap() as int],
            ),
            letter == exists|j: int| 0 <= j < i && alphabetic(#[trigger] cs@[j]),
        decreases cs@.len() - i,
    {
        let c = cs[i];
        if crate::text::is_white(c) && white_at.is_none() {
            white_at = Some(i);
        }
        if is_control(c) && control_at.is_none() {
            control_at = Some(i);
        }
        if is_alphabetic(c) {
            letter = true;
        }
        proof {
            if letter {
                if alphabetic(c) {
                    assert(cs@[i as int] == c);
                }
            } else {
                assert forall|j: int| 0 <= j < i + 1 implies !alphabetic(#[trigger] cs@[j]) by {
                    if j == i {
                        assert(cs@[j] == c);
                    }
                }
            }
        }
        i = i + 1;
    }
    if white_at.is_some() {
        return Err(Rejected("A dictionary word is one word.".to_owned()));
    }
    if control_at.is_some() {
        return Err(Rejected("A word cannot have control characters in it.".to_owned()));
    }
    if !letter {
        return Err(Rejected("A word needs a letter in it.".to_owned()));
    }
    if cs.len() > MOST {
        return Err(Rejected("A word is at most 128 characters.".to_owned()));
    }
    Ok(word)
}

/// Whether the dictionary holds an entry under a key.
pub open spec fn holds_key(m: ModelView, key: Seq<char>) -> bool {
    first_with_key(m.dictionary, key) is Some
}

pub open spec fn already_said() -> Seq<char> {
    "That word is already in your dictionary."@
}

pub open spec fn missing_said() -> Seq<char> {
    "That word is not in your dictionary."@
}

/// What adding a word comes to: the entry put under its key, or why not.
pub open spec fn add_word_spec(m: ModelView, text: Seq<char>) -> Result<Seq<WriteView>, Seq<char>> {
    let word = nfc_of(trimmed(text));
    match word_problem(word) {
        Some(p) => Err(p),
        None => if holds_key(m, key_of(word)) {
            Err(already_said())
        } else {
            Ok(seq![WriteView::PutDictionaryWord { key: key_of(word), word }])
        },
    }
}

/// What rewriting an entry comes to: the new word under its key, and the
/// old key taken out where the word moved to another one; nothing at all
/// where the word is the one already there.
pub open spec fn edit_word_spec(m: ModelView, old_text: Seq<char>, text: Seq<char>) -> Result<Seq<WriteView>, Seq<char>> {
    let old = key_of(old_text);
    let word = nfc_of(trimmed(text));
    if !holds_key(m, old) {
        Err(missing_said())
    } else {
        match word_problem(word) {
            Some(p) => Err(p),
            None => {
                let key = key_of(word);
                if key != old && holds_key(m, key) {
                    Err(already_said())
                } else if key != old {
                    Ok(seq![WriteView::PutDictionaryWord { key, word }, WriteView::DeleteDictionaryWord { key: old }])
                } else if lookup(m.dictionary, old) == Some(word) {
                    Ok(Seq::empty())
                } else {
                    Ok(seq![WriteView::PutDictionaryWord { key, word }])
                }
            },
        }
    }
}

/// What taking an entry out comes to.
pub open spec fn remove_word_spec(m: ModelView, text: Seq<char>) -> Result<Seq<WriteView>, Seq<char>> {
    let key = key_of(text);
    if !holds_key(m, key) {
        Err(missing_said())
    } else {
        Ok(seq![WriteView::DeleteDictionaryWord { key }])
    }
}

/// A change or a refusal, as the contracts speak of it.
pub open spec fn change_view(r: Result<Change, Rejected>) -> Result<Seq<WriteView>, Seq<char>> {
    match r {
        Ok(c) => Ok(c@),
        Err(e) => Err(e.0@),
    }
}

/// The entry under a key, if the dictionary holds one.
fn entry_at(model: &Model, key: &String) -> (r: Option<usize>)
    ensures
        match r {
            Some(i) => i < model@.dictionary.len() && holds_key(model@, key@) && lookup(model@.dictionary, key@) == Some(
                model@.dictionary[i as int].1,
            ),
            None => !holds_key(model@, key@),
        },
{
    find_key(&model.personal_dictionary, key)
}

/// A word added to the personal dictionary, as it was typed. Like the
/// settings, a change here is not undoable and puts nothing on the undo
/// stack.
pub fn add_dictionary_word(model: &Model, word: &str) -> (r: Result<Change, Rejected>)
    ensures
        change_view(r) == add_word_spec(model@, word@),
{
    let w = match valid_word(word) {
        Ok(w) => w,
        Err(e) => {
            return Err(e);
        },
    };
    let key = dictionary_key(w.as_str());
    if entry_at(model, &key).is_some() {
        return Err(already());
    }
    let change = Change { writes: vec![Write::PutDictionaryWord { key, word: w }] };
    assert(change@ =~= seq![WriteView::PutDictionaryWord { key: key_of(nfc_of(trimmed(word@))), word: nfc_of(trimmed(word@)) }]);
    Ok(change)
}

/// The entry under `old_key`, rewritten. The word may change its
/// capitalisation, which keeps the same key, or become another word
/// entirely, which moves the entry to a new one.
pub fn edit_dictionary_word(model: &Model, old_key: &str, word: &str) -> (r: Result<Change, Rejected>)
    ensures
        change_view(r) == edit_word_spec(model@, old_key@, word@),
{
    let old = dictionary_key(old_key);
    let at = entry_at(model, &old);
    let i = match at {
        None => {
            return Err(missing());
        },
        Some(i) => i,
    };
    let w = match valid_word(word) {
        Ok(w) => w,
        Err(e) => {
            return Err(e);
        },
    };
    let key = dictionary_key(w.as_str());
    let moved = !same(chars_of(key.as_str()).as_slice(), chars_of(old.as_str()).as_slice());
    if moved && entry_at(model, &key).is_some() {
        return Err(already());
    }
    let ghost wv = nfc_of(trimmed(word@));
    if moved {
        let change = Change {
            writes: vec![Write::PutDictionaryWord { key, word: w }, Write::DeleteDictionaryWord { key: old }],
        };
        assert(change@ =~= seq![
            WriteView::PutDictionaryWord { key: key_of(wv), word: wv },
            WriteView::DeleteDictionaryWord { key: key_of(old_key@) },
        ]);
        return Ok(change);
    }
    let unchanged = same(chars_of(model.personal_dictionary[i].1.as_str()).as_slice(), chars_of(w.as_str()).as_slice());
    if unchanged {
        let change = Change { writes: Vec::new() };
        assert(change@ =~= Seq::<WriteView>::empty());
        Ok(change)
    } else {
        let change = Change { writes: vec![Write::PutDictionaryWord { key, word: w }] };
        assert(change@ =~= seq![WriteView::PutDictionaryWord { key: key_of(wv), word: wv }]);
        Ok(change)
    }
}

/// The entry under `key`, taken out of the dictionary.
pub fn remove_dictionary_word(model: &Model, key: &str) -> (r: Result<Change, Rejected>)
    ensures
        change_view(r) == remove_word_spec(model@, key@),
{
    let k = dictionary_key(key);
    if entry_at(model, &k).is_none() {
        return Err(missing());
    }
    let change = Change { writes: vec![Write::DeleteDictionaryWord { key: k }] };
    assert(change@ =~= seq![WriteView::DeleteDictionaryWord { key: key_of(key@) }]);
    Ok(change)
}

/// The sentence for a word the dictionary already holds.
pub fn already() -> (r: Rejected)
    ensures
        r.0@ == "That word is already in your dictionary."@,
{
    Rejected("That word is already in your dictionary.".to_owned())
}

/// The sentence for a word the dictionary does not hold.
pub fn missing() -> (r: Rejected)
    ensures
        r.0@ == "That word is not in your dictionary."@,
{
    Rejected("That word is not in your dictionary.".to_owned())
}

} // verus!
