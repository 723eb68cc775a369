use bitsy_dialog::lines::split_lines;

#[test]
fn short_text_is_one_line_with_leading_spaces() {
    // Each word is appended after one space, so lines carry them.
    assert_eq!(split_lines("Hello world"), vec![" Hello world"]);
}

#[test]
fn empty_text_yields_no_lines() {
    assert_eq!(split_lines(""), Vec::<String>::new());
    assert_eq!(split_lines("   \n  "), Vec::<String>::new());
}

#[test]
fn long_text_wraps_under_the_character_budget() {
    // 39 one-character words followed by one space each fill a 236-pixel
    // line at 6 pixels per cell; the next word starts a new line.
    let text = "a ".repeat(25);
    let lines = split_lines(&text);
    assert_eq!(lines.len(), 2);
    assert_eq!(lines[0].len(), 38);
    assert_eq!(lines[1], " a".repeat(6));
}

#[test]
fn triple_quotes_are_stripped_before_splitting() {
    assert_eq!(split_lines("\"\"\"a b\"\"\""), vec![" a b"]);
}

#[test]
fn a_first_word_past_the_budget_emits_an_empty_line_first() {
    let long = "x".repeat(50);
    let lines = split_lines(&long);
    assert_eq!(lines.len(), 2);
    assert_eq!(lines[0], "");
    assert_eq!(lines[1], format!(" {long}"));
}
