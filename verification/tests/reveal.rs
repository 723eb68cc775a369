use bitsy_dialog::dialog::Dialog;
use bitsy_dialog::render::DrawCmd;

fn is_backdrop(c: &DrawCmd) -> bool {
    matches!(c, DrawCmd::FillRect { x: 0, width: 240, height: 32, .. })
}

fn is_arrow(c: &DrawCmd) -> bool {
    matches!(c, DrawCmd::Triangle { .. })
}

fn rendered_flags(d: &Dialog) -> Vec<bool> {
    d.pages[0].words.iter().map(|w| w.rendered).collect()
}

#[test]
fn reveal_pacing_marks_one_word_per_tick() {
    let mut d = Dialog::new("A B C", 6, 8);
    let _ = d.render_step(0, 0);
    assert_eq!(rendered_flags(&d), vec![true, false, false]);
    let _ = d.render_step(3, 0);
    assert_eq!(rendered_flags(&d), vec![true, true, false]);
    let _ = d.render_step(6, 0);
    assert_eq!(rendered_flags(&d), vec![true, true, true]);
}

#[test]
fn off_tick_frames_draw_nothing_and_change_nothing() {
    let mut d = Dialog::new("A B C", 6, 8);
    let cmds = d.render_step(1, 0);
    assert!(cmds.is_empty());
    assert_eq!(rendered_flags(&d), vec![false, false, false]);
    assert!(!d.pages[0].started);
}

#[test]
fn backdrop_is_drawn_exactly_once() {
    let mut d = Dialog::new("A B", 6, 8);
    let first = d.render_step(0, 0);
    assert!(first.iter().any(is_backdrop));
    assert!(d.pages[0].started);
    let second = d.render_step(3, 0);
    assert!(!second.iter().any(is_backdrop));
}

#[test]
fn two_phase_advance_reveals_then_pops() {
    let mut d = Dialog::new("A B C", 6, 8);
    let _ = d.render_step(0, 0);
    assert_eq!(d.n_pages(), 1);
    // First advance on a page not fully revealed: fast-forward, no pop.
    d.next_page();
    assert_eq!(d.n_pages(), 1);
    assert!(d.pages[0].fast);
    // The following render pass reveals every remaining word at once,
    // pacing notwithstanding.
    let _ = d.render_step(1, 0);
    assert_eq!(rendered_flags(&d), vec![true, true, true]);
    assert!(d.pages[0].all_rendered());
    // Second advance pops the page.
    d.next_page();
    assert_eq!(d.n_pages(), 0);
}

#[test]
fn pages_pop_in_construction_order() {
    let mut d = Dialog::new("One{pg}Two{pg}Three", 6, 8);
    assert_eq!(d.n_pages(), 3);
    for expected in ["One", "Two", "Three"] {
        let page = d.current_page().unwrap();
        match &page.words[0].word {
            bitsy_dialog::stream::StreamWord::Text(t, _) => assert_eq!(t, expected),
            w => panic!("unexpected word {w:?}"),
        }
        // Reveal fully, then dismiss.
        d.next_page();
        let _ = d.render_step(0, 0);
        d.next_page();
    }
    assert_eq!(d.n_pages(), 0);
}

#[test]
fn rendered_flags_never_reset() {
    let mut d = Dialog::new("A B", 6, 8);
    let mut seen = vec![false, false];
    for frame in 0u16..30 {
        let _ = d.render_step(frame, 7);
        let now = rendered_flags(&d);
        for i in 0..2 {
            assert!(!(seen[i] && !now[i]), "a rendered word went dark");
        }
        seen = now;
    }
    assert_eq!(seen, vec![true, true]);
}

#[test]
fn advance_on_fully_revealed_page_pops_at_once() {
    let mut d = Dialog::new("A", 6, 8);
    let _ = d.render_step(0, 0);
    assert!(d.pages[0].all_rendered());
    d.next_page();
    assert_eq!(d.n_pages(), 0);
}

#[test]
fn advance_on_empty_dialog_is_a_no_op() {
    let mut d = Dialog::new("", 6, 8);
    d.next_page();
    assert_eq!(d.n_pages(), 0);
}

#[test]
fn arrow_marks_more_pages_after_full_reveal() {
    let mut d = Dialog::new("One{pg}Two", 6, 8);
    let _ = d.render_step(0, 0);
    // Page one is a single word, revealed in the first pass; with another
    // page pending the pass ends with the advance indicator.
    let cmds = d.render_step(3, 0);
    assert!(cmds.iter().any(is_arrow));
    // After popping to the last page there is no indicator.
    d.next_page();
    let _ = d.render_step(6, 0);
    let cmds = d.render_step(9, 0);
    assert!(!cmds.iter().any(is_arrow));
}

#[test]
fn early_stop_pass_has_no_arrow() {
    let mut d = Dialog::new("A B{pg}C", 6, 8);
    // The first pass reveals a new word and stops before the indicator.
    let cmds = d.render_step(0, 0);
    assert!(!cmds.iter().any(is_arrow));
}

#[test]
fn rainbow_palette_rotates_with_the_frame_counter() {
    let mut d = Dialog::new("A", 6, 8);
    let c0 = d.render_step(0, 0);
    let mut d2 = Dialog::new("A", 6, 8);
    let c6 = d2.render_step(6, 0);
    let rgb0 = c0.iter().find_map(|c| match c {
        DrawCmd::SetPalette { rgb, .. } => Some(*rgb),
        _ => None,
    });
    let rgb6 = c6.iter().find_map(|c| match c {
        DrawCmd::SetPalette { rgb, .. } => Some(*rgb),
        _ => None,
    });
    assert_ne!(rgb0, rgb6);
}

#[test]
fn wavy_word_is_drawn_letter_by_letter() {
    let mut d = Dialog::new("{wvy}abc", 6, 8);
    let cmds = d.render_step(0, 0);
    let texts: Vec<&String> = cmds
        .iter()
        .filter_map(|c| match c {
            DrawCmd::TextRun { text, .. } => Some(text),
            _ => None,
        })
        .collect();
    assert_eq!(texts, vec!["a", "b", "c"]);
}

#[test]
fn shaky_word_erases_its_previous_footprint() {
    let mut d = Dialog::new("{shk}ab", 6, 8);
    let cmds = d.render_step(0, 0);
    // An erase rectangle the measured size of the word precedes the text.
    assert!(cmds.iter().any(|c| matches!(
        c,
        DrawCmd::FillRect { width: 12, height: 9, .. }
    )));
}
