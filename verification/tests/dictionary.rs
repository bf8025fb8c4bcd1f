use jobsdone::domain::dictionary::{already, missing, valid_word};
use jobsdone::domain::dictionary_key;

#[test]
fn a_key_is_the_word_composed_and_lowercased() {
    assert_eq!(dictionary_key("Ratatui"), "ratatui");
    assert_eq!(dictionary_key("Cafe\u{301}"), "café");
    assert_eq!(dictionary_key("STRA\u{1e9e}E"), "straße");
    assert_eq!(dictionary_key(&dictionary_key("Café")), "café");
}

fn refused(word: &str) -> String {
    match valid_word(word) {
        Ok(_) => panic!("{word:?} was allowed"),
        Err(rejected) => rejected.0,
    }
}

#[test]
fn a_word_is_trimmed_and_composed() {
    assert_eq!(valid_word("  Cafe\u{301} ").unwrap(), "Café");
}

#[test]
fn a_word_is_checked_before_it_is_a_word() {
    assert_eq!(refused("   "), "A dictionary word cannot be blank.");
    assert_eq!(refused("two words"), "A dictionary word is one word.");
    assert_eq!(refused("tab\u{7}bell"), "A word cannot have control characters in it.");
    assert_eq!(refused("1234"), "A word needs a letter in it.");
    assert_eq!(refused(&"a".repeat(129)), "A word is at most 128 characters.");
    assert!(valid_word(&"a".repeat(128)).is_ok());
}

#[test]
fn the_two_sentences_about_the_dictionary_say_what_they_say() {
    assert_eq!(already().0, "That word is already in your dictionary.");
    assert_eq!(missing().0, "That word is not in your dictionary.");
}
