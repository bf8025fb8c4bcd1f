use jobsdone::domain::fuzzy::{Query, Score, rank, score};

fn ranked<'a>(query: &str, texts: &[&'a str]) -> Vec<&'a str> {
    let items: Vec<(&str, &str)> = texts.iter().map(|text| (*text, *text)).collect();
    rank(query, &items)
}

#[test]
fn every_letter_has_to_be_there_in_order() {
    assert!(score("mlk", "Milk").is_some());
    assert!(score("klm", "Milk").is_none());
    assert!(score("milks", "Milk").is_none());
}

#[test]
fn every_word_of_the_query_has_to_match() {
    assert!(score("anna budget", "Mention to Anna: CI runner budget").is_some());
    assert!(score("budget anna", "Mention to Anna: CI runner budget").is_some());
    assert!(score("anna invoice", "Mention to Anna: CI runner budget").is_none());
}

#[test]
fn case_and_composition_do_not_matter() {
    assert!(score("MILK", "milk").is_some());
    assert!(score("café", "CAFE\u{301}").is_some());
    assert!(score("CAFE\u{301}", "le café").is_some());
}

#[test]
fn an_empty_query_matches_everything_in_the_order_given() {
    assert_eq!(score("  ", "anything"), Some(Score(0)));
    assert_eq!(
        ranked("", &["Milk", "Bread", "Eggs"]),
        ["Milk", "Bread", "Eggs"]
    );
}

#[test]
fn letters_together_rank_above_letters_scattered() {
    assert_eq!(
        ranked("run", &["rain until noon", "CI runner"]),
        ["CI runner", "rain until noon"]
    );
}

#[test]
fn letters_at_word_starts_rank_above_letters_inside_words() {
    assert_eq!(
        ranked("ci", &["Specific", "CI runner budget"]),
        ["CI runner budget", "Specific"]
    );
    assert_eq!(
        ranked("mt", &["Summit", "Monthly team call"]),
        ["Monthly team call", "Summit"]
    );
}

#[test]
fn a_shorter_gap_ranks_above_a_longer_one() {
    assert_eq!(ranked("ab", &["a------b", "a--b"]), ["a--b", "a------b"]);
}

#[test]
fn the_best_alignment_is_found_not_the_first() {
    assert_eq!(score("ab", "a xxbxx a b"), score("ab", "a b"));
}

#[test]
fn ties_keep_the_order_they_were_given_in() {
    assert_eq!(
        ranked("milk", &["milk", "Milk", "MILK"]),
        ["milk", "Milk", "MILK"]
    );
}

#[test]
fn texts_that_do_not_match_are_left_out() {
    assert_eq!(ranked("egg", &["Milk", "Eggs", "Bread"]), ["Eggs"]);
}

// ---- exact values of the scoring rule --------------------------------

#[test]
fn a_letter_is_worth_sixteen_and_eight_more_at_a_word_start() {
    // One letter at the start of the text: 16 + 8.
    assert_eq!(score("m", "milk"), Some(Score(24)));
    // One letter inside a word: 16.
    assert_eq!(score("i", "milk"), Some(Score(16)));
}

#[test]
fn letters_side_by_side_earn_the_run_and_a_gap_costs_by_its_length() {
    // m (24) then i right after it (6 + 16).
    assert_eq!(score("mi", "milk"), Some(Score(46)));
    // m (24), a gap of one skipped letter (3), then l (16).
    assert_eq!(score("ml", "milk"), Some(Score(37)));
    // m (24), a gap of two skipped letters (3 + 1), then k (16).
    assert_eq!(score("mk", "milk"), Some(Score(36)));
}

#[test]
fn the_words_of_a_query_add_up() {
    assert_eq!(score("m k", "milk"), Some(Score(24 + 16)));
}

#[test]
fn a_query_made_once_scores_like_one_made_each_time() {
    let query = Query::new("Anna budget");
    assert!(!query.is_empty());
    assert_eq!(
        query.score("Mention to Anna: CI runner budget"),
        score("Anna budget", "Mention to Anna: CI runner budget")
    );
    assert!(Query::new(" \t ").is_empty());
}
