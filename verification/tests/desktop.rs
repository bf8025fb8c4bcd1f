use jobsdone::desktop::{block, reload_verdict, with_block, ABSENT, BEGIN, END};
use jobsdone::domain::WindowSize;

fn floating() -> String {
    block(true, WindowSize::default())
}

#[test]
fn an_untouched_file_gets_the_block_at_the_end() {
    let was = "o.bind(\"SUPER SHIFT\", \"J\", \"jobsdone\")\n";

    let now = with_block(was, &floating());

    assert_eq!(
        now,
        "o.bind(\"SUPER SHIFT\", \"J\", \"jobsdone\")\n\n\
         -- jobsdone: window (begin)\n\
         o.window(\"org.omarchy.jobsdone\", { float = true, center = true, size = { 870, 650 } })\n\
         -- jobsdone: window (end)\n"
    );
}

#[test]
fn a_block_that_is_there_is_rewritten_where_it_stands() {
    let was = "above\n\n\
               -- jobsdone: window (begin)\n\
               o.window(\"org.omarchy.jobsdone\", { float = true, center = true, size = { 870, 650 } })\n\
               -- jobsdone: window (end)\n\
               below\n";

    let now = with_block(was, &block(true, WindowSize::new(1200, 800)));

    assert_eq!(
        now,
        "above\n\n\
         -- jobsdone: window (begin)\n\
         o.window(\"org.omarchy.jobsdone\", { float = true, center = true, size = { 1200, 800 } })\n\
         -- jobsdone: window (end)\n\
         below\n"
    );
}

#[test]
fn a_tiled_window_leaves_the_markers_and_no_rule() {
    let was = with_block("", &floating());

    let now = with_block(&was, &block(false, WindowSize::default()));

    assert_eq!(
        now,
        "-- jobsdone: window (begin)\n-- jobsdone: window (end)\n"
    );
}

#[test]
fn blank_lines_at_the_end_of_a_file_become_one() {
    let now = with_block("first\n\n  \n", &block(false, WindowSize::default()));
    assert_eq!(now, format!("first\n\n{BEGIN}\n{END}\n"));
}

#[test]
fn markers_with_spaces_around_them_and_windows_line_endings_are_found() {
    let was = format!("mine\r\n  {BEGIN}  \r\nold rule\r\n{END}\r\nafter");
    let now = with_block(&was, &block(false, WindowSize::default()));
    assert_eq!(now, format!("mine\n{BEGIN}\n{END}\nafter\n"));
}

#[test]
fn an_end_before_a_begin_is_no_block() {
    let was = format!("{END}\n{BEGIN}\n");
    let now = with_block(&was, &block(false, WindowSize::default()));
    assert_eq!(now, format!("{END}\n{BEGIN}\n\n{BEGIN}\n{END}\n"));
}

#[test]
fn a_reload_is_taken_unless_hyprland_names_an_error() {
    assert_eq!(reload_verdict(""), Ok(()));
    assert_eq!(reload_verdict("\n  no errors  \n\n"), Ok(()));
    assert_eq!(
        reload_verdict("\n  line 3: no such field  \nanother\n"),
        Err("Hyprland did not take the rule: line 3: no such field".to_string())
    );
}

#[test]
fn the_absent_message_keeps_the_setting() {
    assert!(ABSENT.contains("kept"));
}
