use bitsy_dialog::stream::{word_stream, StreamWord};
use bitsy_dialog::token::{Token, Tokenizer};
use bitsy_dialog::TextEffect;

fn text(s: &str, e: TextEffect) -> StreamWord {
    StreamWord::Text(s.to_string(), e)
}

#[test]
fn unknown_tag_is_dropped() {
    let ws = word_stream("{xyz}Text");
    assert_eq!(ws, vec![text("Text", TextEffect::Plain)]);
}

#[test]
fn plain_words_split_on_spaces() {
    let ws = word_stream("  one \t two  ");
    assert_eq!(
        ws,
        vec![text("one", TextEffect::Plain), text("two", TextEffect::Plain)]
    );
}

#[test]
fn effect_tags_stamp_following_words() {
    let ws = word_stream("a {wvy}b c{/wvy} d");
    assert_eq!(
        ws,
        vec![
            text("a", TextEffect::Plain),
            text("b", TextEffect::Wavy),
            text("c", TextEffect::Wavy),
            text("d", TextEffect::Plain),
        ]
    );
}

#[test]
fn all_effect_tags_parse() {
    let ws = word_stream("{wvy}a{/wvy}{shk}b{/shk}{rbw}c{/rbw}{clr1}d{clr2}e{clr3}f");
    assert_eq!(
        ws,
        vec![
            text("a", TextEffect::Wavy),
            text("b", TextEffect::Shaky),
            text("c", TextEffect::Rainbow),
            text("d", TextEffect::Color(1)),
            text("e", TextEffect::Color(2)),
            text("f", TextEffect::Color(3)),
        ]
    );
}

#[test]
fn color_tag_with_space_argument() {
    let ws = word_stream("{clr 2}x");
    assert_eq!(ws, vec![text("x", TextEffect::Color(2))]);
}

#[test]
fn br_and_pg_tags_become_breaks() {
    let ws = word_stream("a{br}b{pg}c");
    assert_eq!(
        ws,
        vec![
            text("a", TextEffect::Plain),
            StreamWord::LineBreak,
            text("b", TextEffect::Plain),
            StreamWord::PageBreak,
            text("c", TextEffect::Plain),
        ]
    );
}

#[test]
fn newline_emits_line_break_and_discards_partial_word() {
    // A literal newline takes effect at once, even mid-word.
    let ws = word_stream("ab\ncd");
    assert_eq!(
        ws,
        vec![StreamWord::LineBreak, text("cd", TextEffect::Plain)]
    );
}

#[test]
fn tag_never_merges_into_preceding_word() {
    // The brace is pushed back and the in-progress word is emitted first.
    let ws = word_stream("ab{br}");
    assert_eq!(ws, vec![text("ab", TextEffect::Plain), StreamWord::LineBreak]);
}

#[test]
fn truncated_tag_is_flushed_as_plain_word() {
    let ws = word_stream("a {xy");
    assert_eq!(
        ws,
        vec![text("a", TextEffect::Plain), text("{xy", TextEffect::Plain)]
    );
}

#[test]
fn triple_quotes_around_whole_input_are_stripped() {
    let ws = word_stream("\"\"\"hi\"\"\"");
    assert_eq!(ws, vec![text("hi", TextEffect::Plain)]);
}

#[test]
fn unclosed_triple_quote_is_kept_verbatim() {
    let ws = word_stream("\"\"\"hi");
    assert_eq!(ws, vec![text("\"\"\"hi", TextEffect::Plain)]);
}

#[test]
fn close_tag_resets_any_effect() {
    let ws = word_stream("{rbw}a{/x}b");
    assert_eq!(
        ws,
        vec![text("a", TextEffect::Rainbow), text("b", TextEffect::Plain)]
    );
}

#[test]
fn empty_input_yields_no_tokens() {
    let mut t = Tokenizer::new("");
    assert_eq!(t.next_token(), None);
}

#[test]
fn tokenizer_is_restartable_token_by_token() {
    let mut t = Tokenizer::new("hi {br}there");
    assert_eq!(t.next_token(), Some(Token::Word("hi".to_string())));
    assert_eq!(t.next_token(), Some(Token::LineBreak));
    assert_eq!(t.next_token(), Some(Token::Word("there".to_string())));
    assert_eq!(t.next_token(), None);
}

#[test]
fn unknown_color_index_is_unknown_tag() {
    let mut t = Tokenizer::new("{clr4}");
    assert_eq!(t.next_token(), Some(Token::UnknownTag));
    assert_eq!(t.next_token(), None);
}

#[test]
fn whitespace_only_input_yields_nothing() {
    let ws = word_stream("   \t  ");
    assert_eq!(ws, vec![]);
}
