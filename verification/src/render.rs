//! The reveal state machine and per-frame renderer: drives the visible,
//! time-distributed appearance of words on the current page and emits the
//! draw commands for one frame. The host executes the commands; this module
//! never touches a pixel itself.

use vstd::prelude::*;

use crate::contrast::Rgb;
use crate::dialog::{dialog_wf, Dialog, DialogV};
use crate::effect::TextEffect;
use crate::layout::{page_wf, word_wf, PageV, Word, WordV, MAX_BOX_DIM};
use crate::stream::{StreamWord, SWordV};

verus! {

/// Palette slot cleared behind the room and behind a centered dialog.
pub const COLOR_BG: u8 = 1;

/// Palette slot that the rainbow effect cycles through the hue table.
pub const COLOR_RAINBOW: u8 = 6;

/// Palette slot of the dialog box backdrop.
pub const COLOR_DIALOG_BOX: u8 = 15;

/// Palette slot of the dialog text.
pub const COLOR_DIALOG_TEXT: u8 = 16;

/// Horizontal margin of the text inside the dialog box.
pub const MARGIN_X: usize = 2;

/// A word is revealed only on frames that are a multiple of this.
pub const REVEAL_TICK_MOD: u16 = 3;

/// The rainbow hue advances once per this many frames.
pub const RAINBOW_CYCLE_MOD: u16 = 6;

/// Frames per coarse animation frame (drives the wavy pattern).
pub const ANIMATION_DELAY: u16 = 25;

/// Screen width in pixels; the box spans it.
pub const SCREEN_WIDTH: usize = 240;

/// Pixel height of the drawn box backdrop.
pub const BOX_BACKDROP_HEIGHT: usize = 32;

/// Top edge of the box along the bottom of the screen.
pub const BOX_TOP_BOTTOM: usize = 128;

/// Top edge of the box when centered.
pub const BOX_TOP_CENTER: usize = 64;

/// Text baseline offset from the box top.
pub const TEXT_OFFSET_Y: usize = 10;

/// Advance-indicator corner position.
pub const ARROW_X: usize = 229;

/// Advance-indicator height when the box is at the bottom.
pub const ARROW_Y_BOTTOM: usize = 153;

/// Advance-indicator height when the box is centered.
pub const ARROW_Y_CENTER: usize = 89;

/// One drawing primitive for the host to execute, in order.
#[derive(Clone, Debug, PartialEq, Eq)]
pub enum DrawCmd {
    /// Clear the whole screen to a palette color.
    ClearScreen { color: u8 },
    /// Fill a rectangle with a solid palette color.
    FillRect { x: usize, y: usize, width: usize, height: usize, color: u8 },
    /// Draw a text run at a point in a palette color.
    TextRun { text: String, x: usize, y: usize, color: u8 },
    /// Load an RGB triple into a palette slot.
    SetPalette { slot: u8, rgb: Rgb },
    /// Fill a triangle (the advance indicator).
    Triangle { x1: usize, y1: usize, x2: usize, y2: usize, x3: usize, y3: usize, color: u8 },
}

/// The mathematical shape of a [`DrawCmd`].
pub enum CmdV {
    ClearScreen { color: u8 },
    FillRect { x: int, y: int, width: int, height: int, color: u8 },
    TextRun { text: Seq<char>, x: int, y: int, color: u8 },
    SetPalette { slot: u8, rgb: Rgb },
    Triangle { x1: int, y1: int, x2: int, y2: int, x3: int, y3: int, color: u8 },
}

impl View for DrawCmd {
    type V = CmdV;

    open spec fn view(&self) -> CmdV {
        match self {
            DrawCmd::ClearScreen { color } => CmdV::ClearScreen { color: *color },
            DrawCmd::FillRect { x, y, width, height, color } => CmdV::FillRect {
                x: *x as int,
                y: *y as int,
                width: *width as int,
                height: *height as int,
                color: *color,
            },
            DrawCmd::TextRun { text, x, y, color } => CmdV::TextRun {
                text: text@,
                x: *x as int,
                y: *y as int,
                color: *color,
            },
            DrawCmd::SetPalette { slot, rgb } => CmdV::SetPalette { slot: *slot, rgb: *rgb },
            DrawCmd::Triangle { x1, y1, x2, y2, x3, y3, color } => CmdV::Triangle {
                x1: *x1 as int,
                y1: *y1 as int,
                x2: *x2 as int,
                y2: *y2 as int,
                x3: *x3 as int,
                y3: *y3 as int,
                color: *color,
            },
        }
    }
}

impl DeepView for DrawCmd {
    type V = CmdV;

    open spec fn deep_view(&self) -> CmdV {
        self.view()
    }
}

/// The fixed hue cycle of the rainbow effect.
pub open spec fn spec_rainbow_color(i: int) -> Rgb {
    if i == 0 {
        Rgb { r: 255, g: 0, b: 0 }
    } else if i == 1 {
        Rgb { r: 255, g: 217, b: 0 }
    } else if i == 2 {
        Rgb { r: 78, g: 255, b: 0 }
    } else if i == 3 {
        Rgb { r: 0, g: 255, b: 125 }
    } else if i == 4 {
        Rgb { r: 0, g: 192, b: 255 }
    } else if i == 5 {
        Rgb { r: 0, g: 18, b: 255 }
    } else if i == 6 {
        Rgb { r: 136, g: 0, b: 255 }
    } else if i == 7 {
        Rgb { r: 255, g: 0, b: 242 }
    } else if i == 8 {
        Rgb { r: 255, g: 0, b: 138 }
    } else {
        Rgb { r: 255, g: 0, b: 61 }
    }
}

/// Exec mirror of [`spec_rainbow_color`].
pub fn rainbow_color(i: usize) -> (c: Rgb)
    requires
        i < 10,
    ensures
        c == spec_rainbow_color(i as int),
{
    if i == 0 {
        Rgb { r: 255, g: 0, b: 0 }
    } else if i == 1 {
        Rgb { r: 255, g: 217, b: 0 }
    } else if i == 2 {
        Rgb { r: 78, g: 255, b: 0 }
    } else if i == 3 {
        Rgb { r: 0, g: 255, b: 125 }
    } else if i == 4 {
        Rgb { r: 0, g: 192, b: 255 }
    } else if i == 5 {
        Rgb { r: 0, g: 18, b: 255 }
    } else if i == 6 {
        Rgb { r: 136, g: 0, b: 255 }
    } else if i == 7 {
        Rgb { r: 255, g: 0, b: 242 }
    } else if i == 8 {
        Rgb { r: 255, g: 0, b: 138 }
    } else {
        Rgb { r: 255, g: 0, b: 61 }
    }
}

/// The per-letter commands of a wavy word: each character drawn separately,
/// shifted down by an alternating pattern keyed to the coarse frame counter
/// plus the character index.
pub open spec fn spec_wave_cmds(t: Seq<char>, i: int, wx: int, wy: int, coarse: int, cw: int) -> Seq<
    CmdV,
>
    decreases t.len() - i,
{
    if i < 0 || i >= t.len() {
        Seq::empty()
    } else {
        seq![
            CmdV::TextRun {
                text: seq![t[i]],
                x: wx + i * cw,
                y: wy + (coarse + i) % 2,
                color: COLOR_DIALOG_TEXT,
            },
        ] + spec_wave_cmds(t, i + 1, wx, wy, coarse, cw)
    }
}

/// The erase rectangle drawn behind a moving word before its redraw, sized
/// to the word's measured footprint.
pub open spec fn spec_erase_cmd(t: Seq<char>, wx: int, wy: int, cw: int, ch: int) -> CmdV {
    CmdV::FillRect {
        x: wx,
        y: wy - 6,
        width: t.len() * cw,
        height: ch + 1,
        color: COLOR_DIALOG_BOX,
    }
}

/// The commands that draw one text word at its point under its effect.
/// Moving effects (wavy, shaky) first erase their previous footprint.
pub open spec fn spec_word_cmds(
    t: Seq<char>,
    e: TextEffect,
    wx: int,
    wy: int,
    coarse: int,
    rand: int,
    cw: int,
    ch: int,
) -> Seq<CmdV> {
    match e {
        TextEffect::Plain => seq![
            CmdV::TextRun { text: t, x: wx, y: wy, color: COLOR_DIALOG_TEXT },
        ],
        TextEffect::Wavy => seq![spec_erase_cmd(t, wx, wy, cw, ch)] + spec_wave_cmds(
            t,
            0,
            wx,
            wy,
            coarse,
            cw,
        ),
        TextEffect::Shaky => seq![
            spec_erase_cmd(t, wx, wy, cw, ch),
            CmdV::TextRun {
                text: t,
                x: wx + rand % 2 - 1,
                y: wy + (rand / 256) % 2 - 1,
                color: COLOR_DIALOG_TEXT,
            },
        ],
        TextEffect::Rainbow => seq![CmdV::TextRun { text: t, x: wx, y: wy, color: COLOR_RAINBOW }],
        TextEffect::Color(c) => seq![CmdV::TextRun { text: t, x: wx, y: wy, color: c }],
    }
}

/// One pass over the page's words from index `i`: redraw what needs
/// redrawing, reveal at most one new word per pass unless fast-forwarding,
/// and stop early (without the trailing page indicator) when a new word was
/// revealed under pacing. Returns the updated words, the commands, and
/// whether the pass stopped early.
pub open spec fn spec_render_words(
    words: Seq<WordV>,
    i: int,
    fast: bool,
    apply: bool,
    coarse: int,
    rand: int,
    cw: int,
    ch: int,
    bx: int,
    by: int,
) -> (Seq<WordV>, Seq<CmdV>, bool)
    decreases words.len() - i,
{
    if i < 0 || i >= words.len() {
        (words, Seq::empty(), false)
    } else {
        let w = words[i];
        match w.word {
            SWordV::Text(t, e) => {
                if w.rendered && (!apply || e.spec_is_stable()) {
                    spec_render_words(words, i + 1, fast, apply, coarse, rand, cw, ch, bx, by)
                } else {
                    let cmds_i = spec_word_cmds(t, e, bx + w.x, by + w.y, coarse, rand, cw, ch);
                    let words2 = words.update(
                        i,
                        WordV { word: w.word, x: w.x, y: w.y, rendered: true },
                    );
                    if !w.rendered && !fast {
                        (words2, cmds_i, true)
                    } else {
                        let rec = spec_render_words(
                            words2,
                            i + 1,
                            fast,
                            apply,
                            coarse,
                            rand,
                            cw,
                            ch,
                            bx,
                            by,
                        );
                        (rec.0, cmds_i + rec.1, rec.2)
                    }
                }
            },
            _ => spec_render_words(words, i + 1, fast, apply, coarse, rand, cw, ch, bx, by),
        }
    }
}

/// What one frame's render pass does to the dialog and emits for the host:
/// nothing when idle; nothing on a paced-out frame; else the one-time box
/// backdrop, the rainbow palette rotation, the word pass, and the
/// more-pages indicator when the pass ran to the end.
pub open spec fn spec_render_step(d: DialogV, uf: int, rand: int) -> (DialogV, Seq<CmdV>) {
    if d.pages.len() == 0 {
        (d, Seq::empty())
    } else {
        let p = d.pages[0];
        if !p.fast && uf % (REVEAL_TICK_MOD as int) != 0 {
            (d, Seq::empty())
        } else {
            let y0: int = if d.center {
                BOX_TOP_CENTER as int
            } else {
                BOX_TOP_BOTTOM as int
            };
            let start_cmds: Seq<CmdV> = if !p.started {
                (if d.center {
                    seq![CmdV::ClearScreen { color: COLOR_BG }]
                } else {
                    Seq::empty()
                }) + seq![
                    CmdV::FillRect {
                        x: 0,
                        y: y0,
                        width: SCREEN_WIDTH as int,
                        height: BOX_BACKDROP_HEIGHT as int,
                        color: COLOR_DIALOG_BOX,
                    },
                ]
            } else {
                Seq::empty()
            };
            let rainbow = seq![
                CmdV::SetPalette {
                    slot: COLOR_RAINBOW,
                    rgb: spec_rainbow_color((uf / (RAINBOW_CYCLE_MOD as int)) % 10),
                },
            ];
            let wr = spec_render_words(
                p.words,
                0,
                p.fast,
                uf % (REVEAL_TICK_MOD as int) == 0,
                uf / (ANIMATION_DELAY as int),
                rand,
                d.char_width,
                d.char_height,
                MARGIN_X as int,
                y0 + TEXT_OFFSET_Y as int,
            );
            let p2 = PageV { words: wr.0, started: true, fast: p.fast };
            let ya: int = if d.center {
                ARROW_Y_CENTER as int
            } else {
                ARROW_Y_BOTTOM as int
            };
            let arrow: Seq<CmdV> = if !wr.2 && d.pages.len() > 1 {
                seq![
                    CmdV::Triangle {
                        x1: ARROW_X as int,
                        y1: ya,
                        x2: ARROW_X as int + 8,
                        y2: ya,
                        x3: ARROW_X as int + 4,
                        y3: ya + 4,
                        color: COLOR_DIALOG_TEXT,
                    },
                ]
            } else {
                Seq::empty()
            };
            (
                DialogV {
                    pages: d.pages.update(0, p2),
                    center: d.center,
                    char_width: d.char_width,
                    char_height: d.char_height,
                },
                start_cmds + rainbow + wr.1 + arrow,
            )
        }
    }
}

/// Append the commands that draw one text word under its effect.
fn push_word_cmds(
    out: &mut Vec<DrawCmd>,
    t: &str,
    e: TextEffect,
    wx: usize,
    wy: usize,
    coarse: u16,
    rand: u32,
    cw: u8,
    ch: u8,
) -> (r: ())
    requires
        1 <= wx <= 3 * MAX_BOX_DIM,
        6 <= wy <= 3 * MAX_BOX_DIM,
        t@.len() <= MAX_BOX_DIM,
    ensures
        final(out).deep_view() == old(out).deep_view() + spec_word_cmds(
            t@,
            e,
            wx as int,
            wy as int,
            coarse as int,
            rand as int,
            cw as int,
            ch as int,
        ),
{
    let ghost base = out.deep_view();
    let ghost target = spec_word_cmds(
        t@,
        e,
        wx as int,
        wy as int,
        coarse as int,
        rand as int,
        cw as int,
        ch as int,
    );
    match e {
        TextEffect::Plain => {
            out.push(
                DrawCmd::TextRun { text: t.to_owned(), x: wx, y: wy, color: COLOR_DIALOG_TEXT },
            );
            proof {
                assert(out.deep_view() =~= base + target);
            }
        },
        TextEffect::Rainbow => {
            out.push(DrawCmd::TextRun { text: t.to_owned(), x: wx, y: wy, color: COLOR_RAINBOW });
            proof {
                assert(out.deep_view() =~= base + target);
            }
        },
        TextEffect::Color(c) => {
            out.push(DrawCmd::TextRun { text: t.to_owned(), x: wx, y: wy, color: c });
            proof {
                assert(out.deep_view() =~= base + target);
            }
        },
        TextEffect::Shaky => {
            let n = t.unicode_len();
            proof {
                assert(n * (cw as usize) <= 0x10_0000 * 255) by (nonlinear_arith)
                    requires
                        n <= 0x10_0000,
                        (cw as usize) <= 255,
                ;
            }
            out.push(
                DrawCmd::FillRect {
                    x: wx,
                    y: wy - 6,
                    width: n * (cw as usize),
                    height: (ch as usize) + 1,
                    color: COLOR_DIALOG_BOX,
                },
            );
            let sx = wx - 1 + ((rand % 2) as usize);
            let sy = wy - 1 + (((rand / 256) % 2) as usize);
            out.push(DrawCmd::TextRun { text: t.to_owned(), x: sx, y: sy, color: COLOR_DIALOG_TEXT });
            proof {
                assert(sx as int == wx as int + (rand as int) % 2 - 1);
                assert(sy as int == wy as int + ((rand as int) / 256) % 2 - 1);
                assert(out.deep_view() =~= base + target);
            }
        },
        TextEffect::Wavy => {
            let n = t.unicode_len();
            proof {
                assert(n * (cw as usize) <= 0x10_0000 * 255) by (nonlinear_arith)
                    requires
                        n <= 0x10_0000,
                        (cw as usize) <= 255,
                ;
            }
            out.push(
                DrawCmd::FillRect {
                    x: wx,
                    y: wy - 6,
                    width: n * (cw as usize),
                    height: (ch as usize) + 1,
                    color: COLOR_DIALOG_BOX,
                },
            );
            proof {
                assert(out.deep_view() =~= base + seq![
                    spec_erase_cmd(t@, wx as int, wy as int, cw as int, ch as int),
                ]);
            }
            let ghost base2 = out.deep_view();
            let mut i: usize = 0;
            while i < n
                invariant
                    i <= n,
                    n == t@.len(),
                    n <= MAX_BOX_DIM,
                    1 <= wx <= 3 * MAX_BOX_DIM,
                    6 <= wy <= 3 * MAX_BOX_DIM,
                    cw <= 255,
                    base2 + spec_wave_cmds(
                        t@,
                        0,
                        wx as int,
                        wy as int,
                        coarse as int,
                        cw as int,
                    ) == out.deep_view() + spec_wave_cmds(
                        t@,
                        i as int,
                        wx as int,
                        wy as int,
                        coarse as int,
                        cw as int,
                    ),
                decreases n - i,
            {
                let ghost cmds0 = out.deep_view();
                let sub = t.substring_char(i, i + 1).to_owned();
                proof {
                    assert(sub@ =~= seq![t@[i as int]]);
                }
                proof {
                    assert(i * (cw as usize) <= 0x10_0000 * 255) by (nonlinear_arith)
                        requires
                            i <= 0x10_0000,
                            (cw as usize) <= 255,
                    ;
                }
                let cx = wx + i * (cw as usize);
                let cy = wy + ((coarse as usize) + i) % 2;
                out.push(DrawCmd::TextRun { text: sub, x: cx, y: cy, color: COLOR_DIALOG_TEXT });
                proof {
                    assert(cx as int == wx as int + (i as int) * (cw as int));
                    assert(cy as int == wy as int + ((coarse as int) + i as int) % 2);
                    assert(out.deep_view() =~= cmds0.push(
                        CmdV::TextRun {
                            text: seq![t@[i as int]],
                            x: wx as int + (i as int) * (cw as int),
                            y: wy as int + ((coarse as int) + i as int) % 2,
                            color: COLOR_DIALOG_TEXT,
                        },
                    ));
                    assert(seq![
                        CmdV::TextRun {
                            text: seq![t@[i as int]],
                            x: wx as int + (i as int) * (cw as int),
                            y: wy as int + ((coarse as int) + i as int) % 2,
                            color: COLOR_DIALOG_TEXT,
                        },
                    ] + spec_wave_cmds(
                        t@,
                        i + 1,
                        wx as int,
                        wy as int,
                        coarse as int,
                        cw as int,
                    ) == spec_wave_cmds(t@, i as int, wx as int, wy as int, coarse as int, cw as int));
                    assert(cmds0.push(
                        CmdV::TextRun {
                            text: seq![t@[i as int]],
                            x: wx as int + (i as int) * (cw as int),
                            y: wy as int + ((coarse as int) + i as int) % 2,
                            color: COLOR_DIALOG_TEXT,
                        },
                    ) + spec_wave_cmds(t@, i + 1, wx as int, wy as int, coarse as int, cw as int)
                        =~= cmds0 + spec_wave_cmds(
                        t@,
                        i as int,
                        wx as int,
                        wy as int,
                        coarse as int,
                        cw as int,
                    ));
                }
                i = i + 1;
            }
            proof {
                assert(spec_wave_cmds(
                    t@,
                    n as int,
                    wx as int,
                    wy as int,
                    coarse as int,
                    cw as int,
                ) =~= Seq::<CmdV>::empty());
                assert(out.deep_view() =~= out.deep_view() + Seq::<CmdV>::empty());
                assert(base2 + spec_wave_cmds(
                    t@,
                    0,
                    wx as int,
                    wy as int,
                    coarse as int,
                    cw as int,
                ) =~= out.deep_view());
                assert(out.deep_view() =~= base + target);
            }
        },
    }
}


/// One pass over the current page's words, mirroring [`spec_render_words`]
/// from the front of the list.
fn render_words_pass(
    words: &mut Vec<Word>,
    fast: bool,
    apply: bool,
    coarse: u16,
    rand: u32,
    cw: u8,
    ch: u8,
    bx: usize,
    by: usize,
    out: &mut Vec<DrawCmd>,
) -> (stopped: bool)
    requires
        1 <= bx <= 1000,
        6 <= by <= 1000,
        forall|j: int|
            0 <= j < old(words).deep_view().len() ==> word_wf(#[trigger] old(words).deep_view()[j]),
    ensures
        ({
            let r = spec_render_words(
                old(words).deep_view(),
                0,
                fast,
                apply,
                coarse as int,
                rand as int,
                cw as int,
                ch as int,
                bx as int,
                by as int,
            );
            final(words).deep_view() == r.0 && final(out).deep_view() == old(out).deep_view() + r.1
                && stopped == r.2
        }),
        forall|j: int|
            0 <= j < final(words).deep_view().len() ==> word_wf(#[trigger] final(words).deep_view()[j]),
{
    let ghost w0 = words.deep_view();
    let ghost out_base = out.deep_view();
    let ghost target = spec_render_words(
        w0,
        0,
        fast,
        apply,
        coarse as int,
        rand as int,
        cw as int,
        ch as int,
        bx as int,
        by as int,
    );
    let mut i: usize = 0;
    while i < words.len()
        invariant
            1 <= bx <= 1000,
            6 <= by <= 1000,
            w0 == old(words).deep_view(),
            out_base == old(out).deep_view(),
            i <= words.deep_view().len(),
            target == spec_render_words(
                w0,
                0,
                fast,
                apply,
                coarse as int,
                rand as int,
                cw as int,
                ch as int,
                bx as int,
                by as int,
            ),
            forall|j: int|
                0 <= j < words.deep_view().len() ==> word_wf(#[trigger] words.deep_view()[j]),
            ({
                let r = spec_render_words(
                    words.deep_view(),
                    i as int,
                    fast,
                    apply,
                    coarse as int,
                    rand as int,
                    cw as int,
                    ch as int,
                    bx as int,
                    by as int,
                );
                target.0 == r.0 && out_base + target.1 == out.deep_view() + r.1 && target.2 == r.2
            }),
        decreases words.deep_view().len() - i,
    {
        let ghost words0 = words.deep_view();
        let ghost cmds0 = out.deep_view();
        let mut draw_now = false;
        let mut txt = String::new();
        let mut eff = TextEffect::Plain;
        match &words[i].word {
            StreamWord::Text(t, e) => {
                if !(words[i].rendered && (!apply || e.is_stable())) {
                    draw_now = true;
                    txt = t.clone();
                    eff = *e;
                }
            },
            _ => {},
        }
        if draw_now {
            proof {
                assert(words0[i as int].word == SWordV::Text(txt@, eff));
            }
            let was = words[i].rendered;
            let wx = bx + words[i].point.x;
            let wy = by + words[i].point.y;
            push_word_cmds(out, txt.as_str(), eff, wx, wy, coarse, rand, cw, ch);
            let wr = &mut words[i];
            wr.rendered = true;
            proof {
                assert(words.deep_view() =~= words0.update(
                    i as int,
                    WordV {
                        word: words0[i as int].word,
                        x: words0[i as int].x,
                        y: words0[i as int].y,
                        rendered: true,
                    },
                ));
                assert(out.deep_view() =~= cmds0 + spec_word_cmds(
                    txt@,
                    eff,
                    bx as int + words0[i as int].x,
                    by as int + words0[i as int].y,
                    coarse as int,
                    rand as int,
                    cw as int,
                    ch as int,
                ));
            }
            if !was && !fast {
                proof {
                    let r_here = spec_render_words(
                        words0,
                        i as int,
                        fast,
                        apply,
                        coarse as int,
                        rand as int,
                        cw as int,
                        ch as int,
                        bx as int,
                        by as int,
                    );
                    assert(r_here.0 == words0.update(
                        i as int,
                        WordV {
                            word: words0[i as int].word,
                            x: words0[i as int].x,
                            y: words0[i as int].y,
                            rendered: true,
                        },
                    ));
                    assert(r_here.2);
                    assert(words.deep_view() == target.0);
                    assert(out.deep_view() =~= out_base + target.1);
                }
                return true;
            }
        }
        i = i + 1;
    }
    proof {
        let r = spec_render_words(
            words.deep_view(),
            i as int,
            fast,
            apply,
            coarse as int,
            rand as int,
            cw as int,
            ch as int,
            bx as int,
            by as int,
        );
        assert(r.1 =~= Seq::<CmdV>::empty());
        assert(out.deep_view() =~= out_base + target.1);
    }
    false
}

impl Dialog {
    /// Render one frame: emit the draw commands for the host to execute, in
    /// order, and advance the reveal state of the current page exactly as
    /// [`spec_render_step`] describes.
    ///
    /// `update_frame` is the global frame counter; `rand` is one random
    /// sample the host supplies for this frame (it feeds the shaky jitter).
    pub fn render_step(&mut self, update_frame: u16, rand: u32) -> (cmds: Vec<DrawCmd>)
        requires
            dialog_wf(old(self)@),
        ensures
            ({
                let r = spec_render_step(old(self)@, update_frame as int, rand as int);
                final(self)@ == r.0 && cmds.deep_view() == r.1
            }),
            dialog_wf(final(self)@),
    {
        let ghost d0 = self@;
        let mut cmds: Vec<DrawCmd> = Vec::new();
        proof {
            assert(cmds.deep_view() =~= Seq::<CmdV>::empty());
        }
        if self.pages.len() == 0 {
            return cmds;
        }
        let fast = self.pages[0].fast;
        if !fast && update_frame % REVEAL_TICK_MOD != 0 {
            return cmds;
        }
        let center = self.center;
        let y0: usize = if center {
            BOX_TOP_CENTER
        } else {
            BOX_TOP_BOTTOM
        };
        let started = self.pages[0].started;
        if !started {
            let p = &mut self.pages[0];
            p.started = true;
            if center {
                cmds.push(DrawCmd::ClearScreen { color: COLOR_BG });
            }
            cmds.push(
                DrawCmd::FillRect {
                    x: 0,
                    y: y0,
                    width: SCREEN_WIDTH,
                    height: BOX_BACKDROP_HEIGHT,
                    color: COLOR_DIALOG_BOX,
                },
            );
        }
        let ghost y0i: int = if d0.center {
            BOX_TOP_CENTER as int
        } else {
            BOX_TOP_BOTTOM as int
        };
        let ghost start_cmds: Seq<CmdV> = if !started {
            (if d0.center {
                seq![CmdV::ClearScreen { color: COLOR_BG }]
            } else {
                Seq::empty()
            }) + seq![
                CmdV::FillRect {
                    x: 0,
                    y: y0i,
                    width: SCREEN_WIDTH as int,
                    height: BOX_BACKDROP_HEIGHT as int,
                    color: COLOR_DIALOG_BOX,
                },
            ]
        } else {
            Seq::empty()
        };
        proof {
            assert(cmds.deep_view() =~= start_cmds);
        }
        let ridx: usize = ((update_frame / RAINBOW_CYCLE_MOD) as usize) % 10;
        cmds.push(DrawCmd::SetPalette { slot: COLOR_RAINBOW, rgb: rainbow_color(ridx) });
        let ghost rainbow_cmds: Seq<CmdV> = seq![
            CmdV::SetPalette {
                slot: COLOR_RAINBOW,
                rgb: spec_rainbow_color(
                    ((update_frame as int) / (RAINBOW_CYCLE_MOD as int)) % 10,
                ),
            },
        ];
        proof {
            assert(ridx as int == ((update_frame as int) / (RAINBOW_CYCLE_MOD as int)) % 10);
            assert(cmds.deep_view() =~= start_cmds + rainbow_cmds);
        }
        let ghost cmds_head = cmds.deep_view();
        let coarse = update_frame / ANIMATION_DELAY;
        let apply = update_frame % REVEAL_TICK_MOD == 0;
        let cw = self.char_width;
        let ch = self.char_height;
        proof {
            assert(self.pages.deep_view()[0].words == d0.pages[0].words);
        }
        let stopped;
        {
            proof {
                assert(page_wf(d0.pages[0]));
            }
            let p = &mut self.pages[0];
            stopped = render_words_pass(
                &mut p.words,
                fast,
                apply,
                coarse,
                rand,
                cw,
                ch,
                MARGIN_X,
                y0 + TEXT_OFFSET_Y,
                &mut cmds,
            );
        }
        if !stopped && self.pages.len() > 1 {
            let ya: usize = if center {
                ARROW_Y_CENTER
            } else {
                ARROW_Y_BOTTOM
            };
            cmds.push(
                DrawCmd::Triangle {
                    x1: ARROW_X,
                    y1: ya,
                    x2: ARROW_X + 8,
                    y2: ya,
                    x3: ARROW_X + 4,
                    y3: ya + 4,
                    color: COLOR_DIALOG_TEXT,
                },
            );
        }
        proof {
            let r = spec_render_step(d0, update_frame as int, rand as int);
            let wr = spec_render_words(
                d0.pages[0].words,
                0,
                fast,
                apply,
                coarse as int,
                rand as int,
                cw as int,
                ch as int,
                MARGIN_X as int,
                (y0 + TEXT_OFFSET_Y) as int,
            );
            let ya_i: int = if d0.center {
                ARROW_Y_CENTER as int
            } else {
                ARROW_Y_BOTTOM as int
            };
            let arrow: Seq<CmdV> = if !wr.2 && d0.pages.len() > 1 {
                seq![
                    CmdV::Triangle {
                        x1: ARROW_X as int,
                        y1: ya_i,
                        x2: ARROW_X as int + 8,
                        y2: ya_i,
                        x3: ARROW_X as int + 4,
                        y3: ya_i + 4,
                        color: COLOR_DIALOG_TEXT,
                    },
                ]
            } else {
                Seq::empty()
            };
            assert((y0 + TEXT_OFFSET_Y) as int == y0i + TEXT_OFFSET_Y as int);
            assert(cmds.deep_view() =~= cmds_head + wr.1 + arrow);
            assert(r.1 == start_cmds + rainbow_cmds + wr.1 + arrow);
            assert(cmds.deep_view() =~= r.1);
            assert(self.pages.deep_view() =~= d0.pages.update(
                0,
                PageV { words: wr.0, started: true, fast: fast },
            ));
            assert(self@ == r.0);
            assert(dialog_wf(self@));
        }
        cmds
    }
}


/// A word newly revealed by a pass: hidden before, rendered after.
pub open spec fn newly_rendered(before: Seq<WordV>, after: Seq<WordV>, j: int) -> bool {
    0 <= j < before.len() && j < after.len() && !before[j].rendered && after[j].rendered
}

/// What one word pass can and cannot do: it never adds, removes, moves or
/// rewords a word; a revealed word stays revealed; words before the start
/// index are untouched; under fast-forward every text word comes out
/// revealed; under pacing at most one word is newly revealed.
pub proof fn lemma_render_words_props(
    words: Seq<WordV>,
    i: int,
    fast: bool,
    apply: bool,
    coarse: int,
    rand: int,
    cw: int,
    ch: int,
    bx: int,
    by: int,
)
    requires
        0 <= i,
    ensures
        ({
            let r = spec_render_words(words, i, fast, apply, coarse, rand, cw, ch, bx, by);
            r.0.len() == words.len() && (forall|j: int|
                0 <= j < words.len() ==> (#[trigger] r.0[j]).word == words[j].word && r.0[j].x
                    == words[j].x && r.0[j].y == words[j].y) && (forall|j: int|
                0 <= j < words.len() && words[j].rendered ==> (#[trigger] r.0[j]).rendered) && (
            forall|j: int| 0 <= j < i ==> (#[trigger] r.0[j]) == words[j]) && (fast ==> forall|
                j: int,
            |
                i <= j < words.len() && words[j].word is Text ==> (#[trigger] r.0[j]).rendered) && (
            !fast ==> forall|j: int, k: int|
                newly_rendered(words, r.0, j) && newly_rendered(words, r.0, k) ==> j == k)
        }),
    decreases words.len() - i,
{
    let r = spec_render_words(words, i, fast, apply, coarse, rand, cw, ch, bx, by);
    if i >= words.len() {
    } else {
        let w = words[i];
        match w.word {
            SWordV::Text(t, e) => {
                if w.rendered && (!apply || e.spec_is_stable()) {
                    lemma_render_words_props(words, i + 1, fast, apply, coarse, rand, cw, ch, bx, by);
                } else {
                    let words2 = words.update(
                        i,
                        WordV { word: w.word, x: w.x, y: w.y, rendered: true },
                    );
                    if !w.rendered && !fast {
                        assert(r.0 == words2);
                        assert forall|j: int, k: int|
                            newly_rendered(words, r.0, j) && newly_rendered(words, r.0, k) implies j
                            == k by {
                            assert(words2[j].rendered && !words[j].rendered ==> j == i);
                            assert(words2[k].rendered && !words[k].rendered ==> k == i);
                        }
                    } else {
                        lemma_render_words_props(
                            words2,
                            i + 1,
                            fast,
                            apply,
                            coarse,
                            rand,
                            cw,
                            ch,
                            bx,
                            by,
                        );
                        let rec = spec_render_words(
                            words2,
                            i + 1,
                            fast,
                            apply,
                            coarse,
                            rand,
                            cw,
                            ch,
                            bx,
                            by,
                        );
                        assert(r.0 == rec.0);
                        if !fast {
                            // Continuing under pacing means this word was
                            // already revealed, so the update changed nothing.
                            assert(w.rendered);
                            assert(words2 =~= words);
                            assert forall|j: int, k: int|
                                newly_rendered(words, r.0, j) && newly_rendered(words, r.0, k) implies
                                j == k by {
                                assert(newly_rendered(words2, rec.0, j));
                                assert(newly_rendered(words2, rec.0, k));
                            }
                        }
                        if fast {
                            assert forall|j: int|
                                i <= j < words.len() && words[j].word is Text implies (
                                #[trigger] r.0[j]).rendered by {
                                if j == i {
                                    assert(words2[i].rendered);
                                    assert(rec.0[i].rendered);
                                } else {
                                    assert(words2[j].word == words[j].word);
                                }
                            }
                        }
                    }
                }
            },
            _ => {
                lemma_render_words_props(words, i + 1, fast, apply, coarse, rand, cw, ch, bx, by);
            },
        }
    }
}

/// A pass keeps every word in place: same count, same text, same point,
/// and a revealed word stays revealed.
pub open spec fn words_monotone(before: Seq<WordV>, after: Seq<WordV>) -> bool {
    after.len() == before.len() && (forall|j: int|
        0 <= j < before.len() ==> (#[trigger] after[j]).word == before[j].word && after[j].x
            == before[j].x && after[j].y == before[j].y) && (forall|j: int|
        0 <= j < before.len() && before[j].rendered ==> (#[trigger] after[j]).rendered)
}

/// At most one word of the page is newly revealed.
pub open spec fn at_most_one_reveal(before: Seq<WordV>, after: Seq<WordV>) -> bool {
    forall|j: int, k: int|
        newly_rendered(before, after, j) && newly_rendered(before, after, k) ==> j == k
}

/// One frame never reorders pages or rewords the current one: later pages
/// are untouched, the front page keeps its words and positions, and every
/// revealed word stays revealed. Under pacing at most one word is newly
/// revealed per pass.
pub proof fn lemma_render_step_monotonic(d: DialogV, uf: int, rand: int)
    ensures
        spec_render_step(d, uf, rand).0.pages.len() == d.pages.len(),
        forall|p: int|
            1 <= p < d.pages.len() ==> (#[trigger] spec_render_step(d, uf, rand).0.pages[p])
                == d.pages[p],
        d.pages.len() > 0 ==> spec_render_step(d, uf, rand).0.pages[0].fast == d.pages[0].fast,
        d.pages.len() > 0 ==> words_monotone(
            d.pages[0].words,
            spec_render_step(d, uf, rand).0.pages[0].words,
        ),
        d.pages.len() > 0 && !d.pages[0].fast ==> at_most_one_reveal(
            d.pages[0].words,
            spec_render_step(d, uf, rand).0.pages[0].words,
        ),
{
    if d.pages.len() == 0 {
    } else {
        let p = d.pages[0];
        if !p.fast && uf % (REVEAL_TICK_MOD as int) != 0 {
        } else {
            let y0: int = if d.center {
                BOX_TOP_CENTER as int
            } else {
                BOX_TOP_BOTTOM as int
            };
            lemma_render_words_props(
                p.words,
                0,
                p.fast,
                uf % (REVEAL_TICK_MOD as int) == 0,
                uf / (ANIMATION_DELAY as int),
                rand,
                d.char_width,
                d.char_height,
                MARGIN_X as int,
                y0 + TEXT_OFFSET_Y as int,
            );
        }
    }
}

/// A fast-forwarded page comes out of one render pass with every text word
/// revealed.
pub proof fn lemma_fast_reveals_all(d: DialogV, uf: int, rand: int)
    requires
        d.pages.len() > 0,
        d.pages[0].fast,
    ensures
        ({
            let r = spec_render_step(d, uf, rand);
            forall|j: int|
                0 <= j < r.0.pages[0].words.len() && (#[trigger] r.0.pages[0].words[j]).word is Text
                    ==> r.0.pages[0].words[j].rendered
        }),
{
    let p = d.pages[0];
    let y0: int = if d.center {
        BOX_TOP_CENTER as int
    } else {
        BOX_TOP_BOTTOM as int
    };
    lemma_render_words_props(
        p.words,
        0,
        p.fast,
        uf % (REVEAL_TICK_MOD as int) == 0,
        uf / (ANIMATION_DELAY as int),
        rand,
        d.char_width,
        d.char_height,
        MARGIN_X as int,
        y0 + TEXT_OFFSET_Y as int,
    );
    let r = spec_render_step(d, uf, rand);
    let wr = spec_render_words(
        p.words,
        0,
        p.fast,
        uf % (REVEAL_TICK_MOD as int) == 0,
        uf / (ANIMATION_DELAY as int),
        rand,
        d.char_width,
        d.char_height,
        MARGIN_X as int,
        y0 + TEXT_OFFSET_Y as int,
    );
    assert(r.0.pages[0].words == wr.0);
    assert forall|j: int|
        0 <= j < r.0.pages[0].words.len() && (#[trigger] r.0.pages[0].words[j]).word is Text implies
        r.0.pages[0].words[j].rendered by {
        assert(wr.0[j].word == p.words[j].word);
    }
}

/// The full two-phase reveal law over a frame: on a page with words still
/// hidden, one advance signal only fast-forwards (no page is lost), the
/// following render pass reveals every text word of that page, and the next
/// advance signal pops exactly that page.
pub proof fn lemma_advance_reveals_then_pops(d: DialogV, uf: int, rand: int)
    requires
        d.pages.len() > 0,
        !d.pages[0].fast,
        !crate::layout::page_all_rendered(d.pages[0]),
    ensures
        ({
            let d1 = crate::dialog::spec_next_page(d);
            let r = spec_render_step(d1, uf, rand);
            d1.pages.len() == d.pages.len() && r.0.pages.len() == d.pages.len() && (forall|j: int|
                0 <= j < r.0.pages[0].words.len() && (#[trigger] r.0.pages[0].words[j]).word is Text
                    ==> r.0.pages[0].words[j].rendered) && crate::dialog::spec_next_page(
                r.0,
            ).pages =~= d.pages.skip(1)
        }),
{
    let d1 = crate::dialog::spec_next_page(d);
    assert(d1.pages[0].fast);
    lemma_fast_reveals_all(d1, uf, rand);
    lemma_render_step_monotonic(d1, uf, rand);
    let r = spec_render_step(d1, uf, rand);
    assert(r.0.pages[0].fast);
    assert(crate::dialog::spec_next_page(r.0).pages =~= r.0.pages.skip(1));
    assert(r.0.pages.skip(1) =~= d.pages.skip(1)) by {
        assert(forall|p: int| 1 <= p < d.pages.len() ==> (#[trigger] r.0.pages[p]) == d1.pages[p]);
        assert(forall|p: int| 1 <= p < d.pages.len() ==> (#[trigger] d1.pages[p]) == d.pages[p]);
    };
}

} // verus!
