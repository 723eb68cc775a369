use bitsy_dialog::dialog::Dialog;
use bitsy_dialog::layout::{LayoutCfg, Point};
use bitsy_dialog::stream::StreamWord;
use bitsy_dialog::TextEffect;

fn text(s: &str, e: TextEffect) -> StreamWord {
    StreamWord::Text(s.to_string(), e)
}

#[test]
fn hello_wavy_world_br_bye_is_one_page_two_lines() {
    // char_width 6, box wide enough for one line, two lines per page.
    let d = Dialog::new("Hello {wvy}world{/wvy}{br}Bye", 6, 8);
    assert_eq!(d.n_pages(), 1);
    let page = d.current_page().unwrap();
    assert_eq!(page.words.len(), 3);
    assert_eq!(page.words[0].word, text("Hello", TextEffect::Plain));
    assert_eq!(page.words[0].point, Point { x: 0, y: 0 });
    assert_eq!(page.words[1].word, text("world", TextEffect::Wavy));
    assert_eq!(page.words[1].point, Point { x: 30, y: 0 });
    assert_eq!(page.words[2].word, text("Bye", TextEffect::Plain));
    assert_eq!(page.words[2].point, Point { x: 0, y: 8 });
    assert!(!page.started);
    assert!(!page.fast);
    assert!(page.words.iter().all(|w| !w.rendered));
}

#[test]
fn box_fitting_two_words_wraps_the_third() {
    // Box width exactly fits two one-character words at width 6.
    let words = vec![
        text("A", TextEffect::Plain),
        text("B", TextEffect::Plain),
        text("C", TextEffect::Plain),
    ];
    let cfg = LayoutCfg { box_width: 12, box_height: 100 };
    let d = Dialog::from_words(&words, 6, 8, &cfg);
    assert_eq!(d.n_pages(), 1);
    let page = d.current_page().unwrap();
    assert_eq!(page.words[0].point, Point { x: 0, y: 0 });
    assert_eq!(page.words[1].point, Point { x: 6, y: 0 });
    assert_eq!(page.words[2].point, Point { x: 0, y: 8 });
}

#[test]
fn empty_input_produces_zero_pages() {
    let d = Dialog::new("", 6, 8);
    assert_eq!(d.n_pages(), 0);
    assert!(d.current_page().is_none());
}

#[test]
fn word_wider_than_the_box_is_placed_alone() {
    let words = vec![
        text("a", TextEffect::Plain),
        text("gigantic", TextEffect::Plain),
        text("b", TextEffect::Plain),
    ];
    let cfg = LayoutCfg { box_width: 12, box_height: 100 };
    let d = Dialog::from_words(&words, 6, 8, &cfg);
    let page = d.current_page().unwrap();
    // "gigantic" (48 px) exceeds the 12 px box: it wraps to its own line
    // and is placed anyway; the next word wraps again.
    assert_eq!(page.words[0].point, Point { x: 0, y: 0 });
    assert_eq!(page.words[1].point, Point { x: 0, y: 8 });
    assert_eq!(page.words[2].point, Point { x: 0, y: 16 });
}

#[test]
fn page_break_forces_a_short_page() {
    let d = Dialog::new("One{pg}Two", 6, 8);
    assert_eq!(d.n_pages(), 2);
    let page = d.current_page().unwrap();
    assert_eq!(page.words.len(), 1);
    assert_eq!(page.words[0].word, text("One", TextEffect::Plain));
}

#[test]
fn height_budget_splits_pages() {
    // With 8-pixel lines and a 10-pixel budget, two lines fit per page.
    let d = Dialog::new("a{br}b{br}c", 6, 8);
    assert_eq!(d.n_pages(), 2);
    assert_eq!(d.pages[0].words.len(), 2);
    assert_eq!(d.pages[1].words.len(), 1);
    assert_eq!(d.pages[1].words[0].word, text("c", TextEffect::Plain));
}

#[test]
fn consecutive_line_breaks_do_not_duplicate_blank_lines() {
    let d = Dialog::new("a{br}{br}{br}b", 6, 8);
    assert_eq!(d.n_pages(), 1);
    let page = d.current_page().unwrap();
    // The extra breaks on an already-empty line are no-ops.
    assert_eq!(page.words[1].point, Point { x: 0, y: 8 });
}

#[test]
fn leading_page_break_with_no_content_is_dropped() {
    let d = Dialog::new("{pg}One", 6, 8);
    assert_eq!(d.n_pages(), 1);
}

#[test]
fn icons_take_a_fixed_eight_cell_placeholder() {
    let words = vec![
        StreamWord::Sprite("cat".to_string()),
        text("a", TextEffect::Plain),
    ];
    let cfg = LayoutCfg { box_width: 240, box_height: 100 };
    let d = Dialog::from_words(&words, 6, 8, &cfg);
    let page = d.current_page().unwrap();
    assert_eq!(page.words[0].point, Point { x: 0, y: 0 });
    // The icon advanced the cursor by 8 cells of 6 pixels.
    assert_eq!(page.words[1].point, Point { x: 48, y: 0 });
}

#[test]
fn round_trip_word_count_on_a_sample() {
    let d = Dialog::new("a b c{br}d{pg}e f g h", 6, 8);
    let total: usize = d
        .pages
        .iter()
        .map(|p| {
            p.words
                .iter()
                .filter(|w| matches!(w.word, StreamWord::Text(_, _)))
                .count()
        })
        .sum();
    assert_eq!(total, 8);
}

#[test]
fn builder_and_new_agree() {
    let markup = "Hello {rbw}there{br}friend";
    let d1 = Dialog::new(markup, 6, 8);
    let d2 = bitsy_dialog::dialog::DialogBuilder::new(6, 8).build(markup);
    assert_eq!(d1, d2);
}
