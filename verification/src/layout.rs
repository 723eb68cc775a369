//! The layout builder: consumes the word stream exactly once, left to right,
//! and partitions it into pages of positioned words, performing greedy word
//! wrap under a pixel width budget and page flushes under a pixel height
//! budget, with explicit break overrides.

use vstd::prelude::*;

use crate::stream::{StreamWord, SWordV};

verus! {

/// Icons (sprite, tile, item) count as this many character cells for
/// width budgeting, regardless of actual icon size.
pub const ICON_WIDTH: usize = 8;

/// Upper bound on the configurable box dimensions, so that every cursor
/// position and recorded coordinate stays far from the integer limits.
pub const MAX_BOX_DIM: usize = 0x10_0000;

/// Pixel budgets for one dialog box.
pub struct LayoutCfg {
    /// No line may exceed this pixel width, except for a single word that
    /// alone exceeds it.
    pub box_width: usize,
    /// A line starting at or past this pixel height moves to a new page.
    pub box_height: usize,
}

/// A point relative to the page's drawing origin.
#[derive(Clone, Copy, Debug, PartialEq, Eq, Structural)]
pub struct Point {
    pub x: usize,
    pub y: usize,
}

/// A positioned word on a page. `rendered` is owned by the reveal state
/// machine and is false at construction.
#[derive(Clone, Debug, PartialEq, Eq)]
pub struct Word {
    pub word: StreamWord,
    pub point: Point,
    pub rendered: bool,
}

/// The mathematical shape of a positioned [`Word`].
pub struct WordV {
    pub word: SWordV,
    pub x: int,
    pub y: int,
    pub rendered: bool,
}

impl View for Word {
    type V = WordV;

    open spec fn view(&self) -> WordV {
        WordV {
            word: self.word@,
            x: self.point.x as int,
            y: self.point.y as int,
            rendered: self.rendered,
        }
    }
}

impl DeepView for Word {
    type V = WordV;

    open spec fn deep_view(&self) -> WordV {
        self.view()
    }
}

/// One page of positioned words.
#[derive(Clone, Debug, PartialEq, Eq)]
pub struct Page {
    pub words: Vec<Word>,
    /// Whether the renderer has started to draw this page: the box backdrop
    /// is drawn exactly once, when this flips to true.
    pub started: bool,
    /// Fast-forward: skip the reveal pacing and render all words in one go.
    pub fast: bool,
}

/// The mathematical shape of a [`Page`].
pub struct PageV {
    pub words: Seq<WordV>,
    pub started: bool,
    pub fast: bool,
}

impl View for Page {
    type V = PageV;

    open spec fn view(&self) -> PageV {
        PageV { words: self.words.deep_view(), started: self.started, fast: self.fast }
    }
}

impl DeepView for Page {
    type V = PageV;

    open spec fn deep_view(&self) -> PageV {
        self.view()
    }
}

/// Whether every word of a page has been revealed.
pub open spec fn page_all_rendered(p: PageV) -> bool {
    forall|i: int| 0 <= i < p.words.len() ==> p.words[i].rendered
}

impl Page {
    /// Exec mirror of [`page_all_rendered`].
    pub fn all_rendered(&self) -> (r: bool)
        ensures
            r == page_all_rendered(self@),
    {
        let mut i: usize = 0;
        while i < self.words.len()
            invariant
                i <= self.words@.len(),
                forall|j: int| 0 <= j < i ==> self.words.deep_view()[j].rendered,
            decreases self.words@.len() - i,
        {
            if !self.words[i].rendered {
                proof {
                    assert(!self.words.deep_view()[i as int].rendered);
                }
                return false;
            }
            i = i + 1;
        }
        true
    }
}

/// A stream word whose measurements stay far from the integer limits.
pub open spec fn sword_wf(w: SWordV) -> bool {
    match w {
        SWordV::Text(t, _) => t.len() <= MAX_BOX_DIM,
        _ => true,
    }
}

/// A whole word stream within the measurement bounds.
pub open spec fn stream_wf(ws: Seq<SWordV>) -> bool {
    forall|i: int| 0 <= i < ws.len() ==> sword_wf(ws[i])
}

/// A placed word whose coordinates and text stay far from the integer
/// limits, so that every drawing offset can be computed exactly.
pub open spec fn word_wf(w: WordV) -> bool {
    0 <= w.x <= MAX_BOX_DIM + 1 && 0 <= w.y <= MAX_BOX_DIM && sword_wf(w.word)
}

/// Every word of the page is within the measurement bounds.
pub open spec fn page_wf(p: PageV) -> bool {
    forall|i: int| 0 <= i < p.words.len() ==> word_wf(p.words[i])
}

/// The pixel width a stream word occupies: character count times cell width
/// for text, a fixed placeholder for icons, nothing for breaks.
pub open spec fn spec_word_width(w: SWordV, cw: int) -> int {
    match w {
        SWordV::Text(t, _) => t.len() * cw,
        SWordV::LineBreak => 0,
        SWordV::PageBreak => 0,
        _ => ICON_WIDTH * cw,
    }
}

/// Whether a stream word takes a place on a line (anything but a break).
pub open spec fn spec_is_placeable(w: SWordV) -> bool {
    !(w is LineBreak) && !(w is PageBreak)
}

/// The cursor is clamped just past the right box edge: past it, any further
/// word wraps regardless of how far past the edge the cursor stands.
pub open spec fn spec_clamp_cursor(v: int, bw: int) -> int {
    if v > bw + 1 {
        bw + 1
    } else {
        v
    }
}

/// Wrap a finished word list into a page; reveal state starts cleared.
pub open spec fn spec_page_of(cur: Seq<WordV>) -> PageV {
    PageV { words: cur, started: false, fast: false }
}

/// The layout state machine, consuming `ws[i..]` with the given accumulated
/// pages, current page word list, and cursor.
///
/// - An explicit line break flushes the line (only a non-empty line advances
///   the cursor), then flushes the page if the height budget is strictly
///   exceeded.
/// - An explicit page break flushes the line, then flushes the page if it
///   has any content.
/// - A word wider than what remains on the line flushes the line first —
///   unless the line is empty, in which case it is placed anyway — and the
///   page too if the height budget is reached.
/// - At the end of the stream a pending non-empty page is kept.
pub open spec fn spec_build_from(
    ws: Seq<SWordV>,
    i: int,
    cw: int,
    ch: int,
    bw: int,
    bh: int,
    pages: Seq<PageV>,
    cur: Seq<WordV>,
    x: int,
    y: int,
) -> Seq<PageV>
    decreases ws.len() - i,
{
    if i < 0 || i >= ws.len() {
        if cur.len() > 0 {
            pages.push(spec_page_of(cur))
        } else {
            pages
        }
    } else {
        match ws[i] {
            SWordV::LineBreak => {
                let y1 = if x != 0 {
                    y + ch
                } else {
                    y
                };
                if y1 > bh {
                    spec_build_from(
                        ws,
                        i + 1,
                        cw,
                        ch,
                        bw,
                        bh,
                        pages.push(spec_page_of(cur)),
                        Seq::empty(),
                        0,
                        0,
                    )
                } else {
                    spec_build_from(ws, i + 1, cw, ch, bw, bh, pages, cur, 0, y1)
                }
            },
            SWordV::PageBreak => {
                let y1 = if x != 0 {
                    y + ch
                } else {
                    y
                };
                if cur.len() > 0 {
                    spec_build_from(
                        ws,
                        i + 1,
                        cw,
                        ch,
                        bw,
                        bh,
                        pages.push(spec_page_of(cur)),
                        Seq::empty(),
                        0,
                        0,
                    )
                } else {
                    spec_build_from(ws, i + 1, cw, ch, bw, bh, pages, cur, 0, y1)
                }
            },
            w => {
                let wd = spec_word_width(w, cw);
                if x + wd > bw {
                    let y1 = if x != 0 {
                        y + ch
                    } else {
                        y
                    };
                    if y1 >= bh {
                        let pw = WordV { word: w, x: 0, y: 0, rendered: false };
                        spec_build_from(
                            ws,
                            i + 1,
                            cw,
                            ch,
                            bw,
                            bh,
                            pages.push(spec_page_of(cur)),
                            seq![pw],
                            spec_clamp_cursor(wd, bw),
                            0,
                        )
                    } else {
                        let pw = WordV { word: w, x: 0, y: y1, rendered: false };
                        spec_build_from(
                            ws,
                            i + 1,
                            cw,
                            ch,
                            bw,
                            bh,
                            pages,
                            cur.push(pw),
                            spec_clamp_cursor(wd, bw),
                            y1,
                        )
                    }
                } else {
                    let pw = WordV { word: w, x: x, y: y, rendered: false };
                    spec_build_from(
                        ws,
                        i + 1,
                        cw,
                        ch,
                        bw,
                        bh,
                        pages,
                        cur.push(pw),
                        spec_clamp_cursor(x + wd, bw),
                        y,
                    )
                }
            },
        }
    }
}

/// The pages of a whole word stream, starting from a clean builder.
pub open spec fn spec_pages(ws: Seq<SWordV>, cw: int, ch: int, bw: int, bh: int) -> Seq<PageV> {
    spec_build_from(ws, 0, cw, ch, bw, bh, Seq::empty(), Seq::empty(), 0, 0)
}

/// `n > b / c` exactly when `n * c > b`, for a positive cell width `c`.
proof fn lemma_mul_div_bound(n: int, c: int, b: int)
    requires
        c > 0,
        0 <= n,
        0 <= b,
    ensures
        (n > b / c) <==> (n * c > b),
{
    let q = b / c;
    let r = b % c;
    vstd::arithmetic::div_mod::lemma_fundamental_div_mod(b, c);
    vstd::arithmetic::div_mod::lemma_mod_bound(b, c);
    assert((n > q) ==> (n * c > b)) by (nonlinear_arith)
        requires
            b == q * c + r,
            0 <= r < c,
            0 <= n,
    ;
    assert((n <= q) ==> (n * c <= b)) by (nonlinear_arith)
        requires
            b == q * c + r,
            0 <= r < c,
            c > 0,
            0 <= n,
    ;
}

/// Copy one stream word.
fn clone_stream_word(w: &StreamWord) -> (r: StreamWord)
    ensures
        r == *w,
{
    match w {
        StreamWord::Text(t, e) => StreamWord::Text(t.clone(), *e),
        StreamWord::Sprite(s) => StreamWord::Sprite(s.clone()),
        StreamWord::Tile(s) => StreamWord::Tile(s.clone()),
        StreamWord::Item(s) => StreamWord::Item(s.clone()),
        StreamWord::LineBreak => StreamWord::LineBreak,
        StreamWord::PageBreak => StreamWord::PageBreak,
    }
}

/// Lay the word stream out into pages.
pub fn build_pages(words: &Vec<StreamWord>, char_width: u8, char_height: u8, cfg: &LayoutCfg) -> (pages:
    Vec<Page>)
    requires
        cfg.box_width <= MAX_BOX_DIM,
        cfg.box_height <= MAX_BOX_DIM,
    ensures
        pages.deep_view() == spec_pages(
            words.deep_view(),
            char_width as int,
            char_height as int,
            cfg.box_width as int,
            cfg.box_height as int,
        ),
{
    let ghost full = words.deep_view();
    let ghost cw = char_width as int;
    let ghost ch = char_height as int;
    let ghost bw = cfg.box_width as int;
    let ghost bh = cfg.box_height as int;
    let bwu = cfg.box_width;
    let bhu = cfg.box_height;
    let cwu = char_width as usize;
    let chu = char_height as usize;

    let mut pages: Vec<Page> = Vec::new();
    let mut cur: Vec<Word> = Vec::new();
    let mut x: usize = 0;
    let mut y: usize = 0;
    let mut idx: usize = 0;

    proof {
        assert(pages.deep_view() =~= Seq::<PageV>::empty());
        assert(cur.deep_view() =~= Seq::<WordV>::empty());
    }
    while idx < words.len()
        invariant
            bwu <= MAX_BOX_DIM,
            bhu <= MAX_BOX_DIM,
            cwu <= 255,
            chu <= 255,
            bw == bwu as int,
            bh == bhu as int,
            cw == cwu as int,
            ch == chu as int,
            full == words.deep_view(),
            0 <= idx <= full.len(),
            x <= bwu + 1,
            y <= bhu,
            cur@.len() == 0 ==> x == 0,
            spec_pages(full, cw, ch, bw, bh) == spec_build_from(
                full,
                idx as int,
                cw,
                ch,
                bw,
                bh,
                pages.deep_view(),
                cur.deep_view(),
                x as int,
                y as int,
            ),
        decreases full.len() - idx,
    {
        let ghost i = idx as int;
        let w = clone_stream_word(&words[idx]);
        proof {
            assert(w.deep_view() == full[i]);
        }
        let ghost pages0 = pages.deep_view();
        let ghost cur0 = cur.deep_view();
        let ghost x0 = x as int;
        let ghost y0 = y as int;
        match w {
            StreamWord::LineBreak => {
                let y1 = if x != 0 {
                    y + chu
                } else {
                    y
                };
                if y1 > bhu {
                    pages.push(Page { words: cur, started: false, fast: false });
                    cur = Vec::new();
                    x = 0;
                    y = 0;
                    proof {
                        assert(pages.deep_view() =~= pages0.push(spec_page_of(cur0)));
                        assert(cur.deep_view() =~= Seq::<WordV>::empty());
                    }
                } else {
                    x = 0;
                    y = y1;
                }
            },
            StreamWord::PageBreak => {
                let y1 = if x != 0 {
                    y + chu
                } else {
                    y
                };
                if cur.len() > 0 {
                    pages.push(Page { words: cur, started: false, fast: false });
                    cur = Vec::new();
                    x = 0;
                    y = 0;
                    proof {
                        assert(pages.deep_view() =~= pages0.push(spec_page_of(cur0)));
                        assert(cur.deep_view() =~= Seq::<WordV>::empty());
                    }
                } else {
                    x = 0;
                    y = y1;
                }
            },
            w => {
                let n: usize = match &w {
                    StreamWord::Text(t, _) => t.unicode_len(),
                    _ => ICON_WIDTH,
                };
                let ghost wdv = spec_word_width(w.deep_view(), cw);
                let wd: usize = if cwu == 0 {
                    0
                } else if n > bwu / cwu {
                    proof {
                        lemma_mul_div_bound(n as int, cwu as int, bw);
                    }
                    bwu + 1
                } else {
                    proof {
                        lemma_mul_div_bound(n as int, cwu as int, bw);
                    }
                    n * cwu
                };
                proof {
                    assert(wdv == n as int * cw);
                    assert(wd <= bwu + 1);
                    assert((wd as int > bw) <==> (wdv > bw));
                    assert(wd as int <= wdv);
                    assert(wdv <= bw ==> wd as int == wdv);
                }
                if x + wd > bwu {
                    let y1 = if x != 0 {
                        y + chu
                    } else {
                        y
                    };
                    if y1 >= bhu {
                        pages.push(Page { words: cur, started: false, fast: false });
                        cur = Vec::new();
                        let pw = Word { word: w, point: Point { x: 0, y: 0 }, rendered: false };
                        cur.push(pw);
                        x = if wd > bwu + 1 {
                            bwu + 1
                        } else {
                            wd
                        };
                        y = 0;
                        proof {
                            assert(pages.deep_view() =~= pages0.push(spec_page_of(cur0)));
                            assert(cur.deep_view() =~= seq![
                                WordV { word: full[i], x: 0, y: 0, rendered: false },
                            ]);
                            assert(x as int == spec_clamp_cursor(wdv, bw));
                        }
                    } else {
                        let pw = Word {
                            word: w,
                            point: Point { x: 0, y: y1 },
                            rendered: false,
                        };
                        cur.push(pw);
                        x = if wd > bwu + 1 {
                            bwu + 1
                        } else {
                            wd
                        };
                        y = y1;
                        proof {
                            assert(cur.deep_view() =~= cur0.push(
                                WordV { word: full[i], x: 0, y: y1 as int, rendered: false },
                            ));
                            assert(x as int == spec_clamp_cursor(wdv, bw));
                        }
                    }
                } else {
                    let pw = Word { word: w, point: Point { x: x, y: y }, rendered: false };
                    cur.push(pw);
                    proof {
                        assert(cur.deep_view() =~= cur0.push(
                            WordV { word: full[i], x: x0, y: y0, rendered: false },
                        ));
                    }
                    x = if x + wd > bwu + 1 {
                        bwu + 1
                    } else {
                        x + wd
                    };
                    proof {
                        assert(x as int == spec_clamp_cursor(x0 + wdv, bw));
                    }
                }
            },
        }
        idx = idx + 1;
    }
    if cur.len() > 0 {
        let ghost pages0 = pages.deep_view();
        let ghost cur0 = cur.deep_view();
        pages.push(Page { words: cur, started: false, fast: false });
        proof {
            assert(pages.deep_view() =~= pages0.push(spec_page_of(cur0)));
        }
    }
    pages
}


/// A word's width is never negative.
proof fn lemma_width_nonneg(w: SWordV, cw: int)
    requires
        cw >= 0,
    ensures
        spec_word_width(w, cw) >= 0,
{
    match w {
        SWordV::Text(t, _) => {
            assert(t.len() * cw >= 0) by (nonlinear_arith)
                requires
                    t.len() >= 0,
                    cw >= 0,
            ;
        },
        _ => {},
    }
}

/// How many text words a word stream holds from index `i` on.
pub open spec fn count_text_from(ws: Seq<SWordV>, i: int) -> int
    decreases ws.len() - i,
{
    if i < 0 || i >= ws.len() {
        0
    } else {
        (if ws[i] is Text {
            1int
        } else {
            0int
        }) + count_text_from(ws, i + 1)
    }
}

/// How many placed text words a word list holds.
pub open spec fn count_text_words(ws: Seq<WordV>) -> int
    decreases ws.len(),
{
    if ws.len() == 0 {
        0
    } else {
        (if ws[0].word is Text {
            1int
        } else {
            0int
        }) + count_text_words(ws.skip(1))
    }
}

/// How many placed text words a page list holds, over all pages.
pub open spec fn count_text_pages(ps: Seq<PageV>) -> int
    decreases ps.len(),
{
    if ps.len() == 0 {
        0
    } else {
        count_text_words(ps[0].words) + count_text_pages(ps.skip(1))
    }
}

proof fn lemma_count_words_push(ws: Seq<WordV>, w: WordV)
    ensures
        count_text_words(ws.push(w)) == count_text_words(ws) + (if w.word is Text {
            1int
        } else {
            0int
        }),
    decreases ws.len(),
{
    if ws.len() == 0 {
        assert(ws.push(w)[0] == w);
        assert(ws.push(w).skip(1) =~= Seq::<WordV>::empty());
        assert(count_text_words(Seq::<WordV>::empty()) == 0);
    } else {
        assert(ws.push(w)[0] == ws[0]);
        assert(ws.push(w).skip(1) =~= ws.skip(1).push(w));
        lemma_count_words_push(ws.skip(1), w);
    }
}

proof fn lemma_count_pages_push(ps: Seq<PageV>, p: PageV)
    ensures
        count_text_pages(ps.push(p)) == count_text_pages(ps) + count_text_words(p.words),
    decreases ps.len(),
{
    if ps.len() == 0 {
        assert(ps.push(p)[0] == p);
        assert(ps.push(p).skip(1) =~= Seq::<PageV>::empty());
        assert(count_text_pages(Seq::<PageV>::empty()) == 0);
    } else {
        assert(ps.push(p)[0] == ps[0]);
        assert(ps.push(p).skip(1) =~= ps.skip(1).push(p));
        lemma_count_pages_push(ps.skip(1), p);
    }
}

/// The builder neither drops nor duplicates a word: what it will produce is
/// what it has accumulated plus what remains of the stream.
proof fn lemma_build_count(
    ws: Seq<SWordV>,
    i: int,
    cw: int,
    ch: int,
    bw: int,
    bh: int,
    pages: Seq<PageV>,
    cur: Seq<WordV>,
    x: int,
    y: int,
)
    ensures
        count_text_pages(spec_build_from(ws, i, cw, ch, bw, bh, pages, cur, x, y))
            == count_text_pages(pages) + count_text_words(cur) + count_text_from(ws, i),
    decreases ws.len() - i,
{
    if i < 0 || i >= ws.len() {
        if cur.len() > 0 {
            lemma_count_pages_push(pages, spec_page_of(cur));
        }
    } else {
        match ws[i] {
            SWordV::LineBreak => {
                let y1 = if x != 0 {
                    y + ch
                } else {
                    y
                };
                if y1 > bh {
                    lemma_count_pages_push(pages, spec_page_of(cur));
                    lemma_build_count(
                        ws,
                        i + 1,
                        cw,
                        ch,
                        bw,
                        bh,
                        pages.push(spec_page_of(cur)),
                        Seq::empty(),
                        0,
                        0,
                    );
                } else {
                    lemma_build_count(ws, i + 1, cw, ch, bw, bh, pages, cur, 0, y1);
                }
            },
            SWordV::PageBreak => {
                let y1 = if x != 0 {
                    y + ch
                } else {
                    y
                };
                if cur.len() > 0 {
                    lemma_count_pages_push(pages, spec_page_of(cur));
                    lemma_build_count(
                        ws,
                        i + 1,
                        cw,
                        ch,
                        bw,
                        bh,
                        pages.push(spec_page_of(cur)),
                        Seq::empty(),
                        0,
                        0,
                    );
                } else {
                    lemma_build_count(ws, i + 1, cw, ch, bw, bh, pages, cur, 0, y1);
                }
            },
            w => {
                let wd = spec_word_width(w, cw);
                if x + wd > bw {
                    let y1 = if x != 0 {
                        y + ch
                    } else {
                        y
                    };
                    if y1 >= bh {
                        let pw = WordV { word: w, x: 0, y: 0, rendered: false };
                        lemma_count_pages_push(pages, spec_page_of(cur));
                        assert(count_text_words(seq![pw]) == (if w is Text {
                            1int
                        } else {
                            0int
                        })) by {
                            assert(seq![pw][0] == pw);
                            assert(seq![pw].skip(1) =~= Seq::<WordV>::empty());
                            assert(count_text_words(Seq::<WordV>::empty()) == 0);
                        };
                        lemma_build_count(
                            ws,
                            i + 1,
                            cw,
                            ch,
                            bw,
                            bh,
                            pages.push(spec_page_of(cur)),
                            seq![pw],
                            spec_clamp_cursor(wd, bw),
                            0,
                        );
                    } else {
                        let pw = WordV { word: w, x: 0, y: y1, rendered: false };
                        lemma_count_words_push(cur, pw);
                        lemma_build_count(
                            ws,
                            i + 1,
                            cw,
                            ch,
                            bw,
                            bh,
                            pages,
                            cur.push(pw),
                            spec_clamp_cursor(wd, bw),
                            y1,
                        );
                    }
                } else {
                    let pw = WordV { word: w, x: x, y: y, rendered: false };
                    lemma_count_words_push(cur, pw);
                    lemma_build_count(
                        ws,
                        i + 1,
                        cw,
                        ch,
                        bw,
                        bh,
                        pages,
                        cur.push(pw),
                        spec_clamp_cursor(x + wd, bw),
                        y,
                    );
                }
            },
        }
    }
}

/// Round-trip word count: over any stream, the text words on the produced
/// pages are exactly the text words of the input — none dropped, none
/// duplicated.
pub proof fn lemma_round_trip_word_count(ws: Seq<SWordV>, cw: int, ch: int, bw: int, bh: int)
    ensures
        count_text_pages(spec_pages(ws, cw, ch, bw, bh)) == count_text_from(ws, 0),
{
    lemma_build_count(ws, 0, cw, ch, bw, bh, Seq::empty(), Seq::empty(), 0, 0);
    assert(count_text_pages(Seq::<PageV>::empty()) == 0);
    assert(count_text_words(Seq::<WordV>::empty()) == 0);
}

/// Whether any word from index `i` on takes a place on a line.
pub open spec fn has_placeable_from(ws: Seq<SWordV>, i: int) -> bool {
    exists|j: int| i <= j < ws.len() && spec_is_placeable(ws[j])
}

proof fn lemma_build_nonempty(
    ws: Seq<SWordV>,
    i: int,
    cw: int,
    ch: int,
    bw: int,
    bh: int,
    pages: Seq<PageV>,
    cur: Seq<WordV>,
    x: int,
    y: int,
)
    requires
        i >= 0,
    ensures
        spec_build_from(ws, i, cw, ch, bw, bh, pages, cur, x, y).len() >= pages.len(),
        cur.len() > 0 || has_placeable_from(ws, i) ==> spec_build_from(
            ws,
            i,
            cw,
            ch,
            bw,
            bh,
            pages,
            cur,
            x,
            y,
        ).len() >= pages.len() + 1,
    decreases ws.len() - i,
{
    if i >= ws.len() {
        assert(!has_placeable_from(ws, i));
    } else {
        if !spec_is_placeable(ws[i]) {
            assert(has_placeable_from(ws, i) ==> has_placeable_from(ws, i + 1)) by {
                if has_placeable_from(ws, i) {
                    let j = choose|j: int| i <= j < ws.len() && spec_is_placeable(ws[j]);
                    assert(i + 1 <= j < ws.len() && spec_is_placeable(ws[j]));
                }
            };
        } else {
            assert(spec_is_placeable(ws[i]));
        }
        match ws[i] {
            SWordV::LineBreak => {
                let y1 = if x != 0 {
                    y + ch
                } else {
                    y
                };
                if y1 > bh {
                    lemma_build_nonempty(
                        ws,
                        i + 1,
                        cw,
                        ch,
                        bw,
                        bh,
                        pages.push(spec_page_of(cur)),
                        Seq::empty(),
                        0,
                        0,
                    );
                } else {
                    lemma_build_nonempty(ws, i + 1, cw, ch, bw, bh, pages, cur, 0, y1);
                }
            },
            SWordV::PageBreak => {
                let y1 = if x != 0 {
                    y + ch
                } else {
                    y
                };
                if cur.len() > 0 {
                    lemma_build_nonempty(
                        ws,
                        i + 1,
                        cw,
                        ch,
                        bw,
                        bh,
                        pages.push(spec_page_of(cur)),
                        Seq::empty(),
                        0,
                        0,
                    );
                } else {
                    lemma_build_nonempty(ws, i + 1, cw, ch, bw, bh, pages, cur, 0, y1);
                }
            },
            w => {
                let wd = spec_word_width(w, cw);
                if x + wd > bw {
                    let y1 = if x != 0 {
                        y + ch
                    } else {
                        y
                    };
                    if y1 >= bh {
                        let pw = WordV { word: w, x: 0, y: 0, rendered: false };
                        lemma_build_nonempty(
                            ws,
                            i + 1,
                            cw,
                            ch,
                            bw,
                            bh,
                            pages.push(spec_page_of(cur)),
                            seq![pw],
                            spec_clamp_cursor(wd, bw),
                            0,
                        );
                    } else {
                        let pw = WordV { word: w, x: 0, y: y1, rendered: false };
                        lemma_build_nonempty(
                            ws,
                            i + 1,
                            cw,
                            ch,
                            bw,
                            bh,
                            pages,
                            cur.push(pw),
                            spec_clamp_cursor(wd, bw),
                            y1,
                        );
                    }
                } else {
                    let pw = WordV { word: w, x: x, y: y, rendered: false };
                    lemma_build_nonempty(
                        ws,
                        i + 1,
                        cw,
                        ch,
                        bw,
                        bh,
                        pages,
                        cur.push(pw),
                        spec_clamp_cursor(x + wd, bw),
                        y,
                    );
                }
            },
        }
    }
}

/// Any stream with at least one placeable word (text or icon) yields at
/// least one page.
pub proof fn lemma_nonempty_input_has_page(ws: Seq<SWordV>, cw: int, ch: int, bw: int, bh: int)
    requires
        has_placeable_from(ws, 0),
    ensures
        spec_pages(ws, cw, ch, bw, bh).len() >= 1,
{
    lemma_build_nonempty(ws, 0, cw, ch, bw, bh, Seq::empty(), Seq::empty(), 0, 0);
}

/// A placed word keeps to the line-width budget: it either starts the line
/// or ends at or before the right box edge.
pub open spec fn word_fits(w: WordV, cw: int, bw: int) -> bool {
    w.x == 0 || w.x + spec_word_width(w.word, cw) <= bw
}

/// A word recorded by a sound builder state: it keeps to the line-width
/// budget, sits inside the box, and is within the measurement bounds.
pub open spec fn word_placed_ok(w: WordV, cw: int, bw: int, bh: int) -> bool {
    word_fits(w, cw, bw) && 0 <= w.x <= bw && 0 <= w.y <= bh && sword_wf(w.word)
}

/// All words on all accumulated pages are placed soundly.
pub open spec fn pages_placed_ok(ps: Seq<PageV>, cw: int, bw: int, bh: int) -> bool {
    forall|p: int, k: int|
        0 <= p < ps.len() && 0 <= k < ps[p].words.len() ==> word_placed_ok(
            #[trigger] ps[p].words[k],
            cw,
            bw,
            bh,
        )
}

/// All words of one list are placed soundly.
pub open spec fn words_placed_ok(ws: Seq<WordV>, cw: int, bw: int, bh: int) -> bool {
    forall|k: int| 0 <= k < ws.len() ==> word_placed_ok(#[trigger] ws[k], cw, bw, bh)
}

proof fn lemma_placed_ok_push_page(ps: Seq<PageV>, cur: Seq<WordV>, cw: int, bw: int, bh: int)
    requires
        pages_placed_ok(ps, cw, bw, bh),
        words_placed_ok(cur, cw, bw, bh),
    ensures
        pages_placed_ok(ps.push(spec_page_of(cur)), cw, bw, bh),
{
    let ps2 = ps.push(spec_page_of(cur));
    assert forall|p: int, k: int|
        0 <= p < ps2.len() && 0 <= k < ps2[p].words.len() implies word_placed_ok(
        #[trigger] ps2[p].words[k],
        cw,
        bw,
        bh,
    ) by {
        if p < ps.len() {
            assert(ps2[p] == ps[p]);
            assert(word_placed_ok(ps[p].words[k], cw, bw, bh));
        } else {
            assert(ps2[p] == spec_page_of(cur));
            assert(word_placed_ok(cur[k], cw, bw, bh));
        }
    }
}

proof fn lemma_placed_ok_push_word(cur: Seq<WordV>, pw: WordV, cw: int, bw: int, bh: int)
    requires
        words_placed_ok(cur, cw, bw, bh),
        word_placed_ok(pw, cw, bw, bh),
    ensures
        words_placed_ok(cur.push(pw), cw, bw, bh),
{
    let c2 = cur.push(pw);
    assert forall|k: int| 0 <= k < c2.len() implies word_placed_ok(#[trigger] c2[k], cw, bw, bh) by {
        if k < cur.len() {
            assert(c2[k] == cur[k]);
            assert(word_placed_ok(cur[k], cw, bw, bh));
        } else {
            assert(c2[k] == pw);
        }
    }
}

/// Sound placement is invariant over the whole build.
proof fn lemma_build_placed_ok(
    ws: Seq<SWordV>,
    i: int,
    cw: int,
    ch: int,
    bw: int,
    bh: int,
    pages: Seq<PageV>,
    cur: Seq<WordV>,
    x: int,
    y: int,
)
    requires
        i >= 0,
        cw >= 0,
        ch >= 0,
        bw >= 0,
        bh >= 0,
        0 <= x,
        0 <= y <= bh,
        x != 0 ==> cur.len() > 0,
        forall|j: int| 0 <= j < ws.len() ==> sword_wf(#[trigger] ws[j]),
        pages_placed_ok(pages, cw, bw, bh),
        words_placed_ok(cur, cw, bw, bh),
    ensures
        pages_placed_ok(spec_build_from(ws, i, cw, ch, bw, bh, pages, cur, x, y), cw, bw, bh),
    decreases ws.len() - i,
{
    if i >= ws.len() {
        if cur.len() > 0 {
            lemma_placed_ok_push_page(pages, cur, cw, bw, bh);
        }
    } else {
        lemma_width_nonneg(ws[i], cw);
        match ws[i] {
            SWordV::LineBreak => {
                let y1 = if x != 0 {
                    y + ch
                } else {
                    y
                };
                if y1 > bh {
                    lemma_placed_ok_push_page(pages, cur, cw, bw, bh);
                    lemma_build_placed_ok(
                        ws,
                        i + 1,
                        cw,
                        ch,
                        bw,
                        bh,
                        pages.push(spec_page_of(cur)),
                        Seq::empty(),
                        0,
                        0,
                    );
                } else {
                    lemma_build_placed_ok(ws, i + 1, cw, ch, bw, bh, pages, cur, 0, y1);
                }
            },
            SWordV::PageBreak => {
                let y1 = if x != 0 {
                    y + ch
                } else {
                    y
                };
                if cur.len() > 0 {
                    lemma_placed_ok_push_page(pages, cur, cw, bw, bh);
                    lemma_build_placed_ok(
                        ws,
                        i + 1,
                        cw,
                        ch,
                        bw,
                        bh,
                        pages.push(spec_page_of(cur)),
                        Seq::empty(),
                        0,
                        0,
                    );
                } else {
                    lemma_build_placed_ok(ws, i + 1, cw, ch, bw, bh, pages, cur, 0, y1);
                }
            },
            w => {
                let wd = spec_word_width(w, cw);
                if x + wd > bw {
                    let y1 = if x != 0 {
                        y + ch
                    } else {
                        y
                    };
                    if y1 >= bh {
                        let pw = WordV { word: w, x: 0, y: 0, rendered: false };
                        assert(word_placed_ok(pw, cw, bw, bh));
                        lemma_placed_ok_push_page(pages, cur, cw, bw, bh);
                        lemma_placed_ok_push_word(Seq::empty(), pw, cw, bw, bh);
                        assert(Seq::<WordV>::empty().push(pw) =~= seq![pw]);
                        lemma_build_placed_ok(
                            ws,
                            i + 1,
                            cw,
                            ch,
                            bw,
                            bh,
                            pages.push(spec_page_of(cur)),
                            seq![pw],
                            spec_clamp_cursor(wd, bw),
                            0,
                        );
                    } else {
                        let pw = WordV { word: w, x: 0, y: y1, rendered: false };
                        assert(word_placed_ok(pw, cw, bw, bh));
                        lemma_placed_ok_push_word(cur, pw, cw, bw, bh);
                        lemma_build_placed_ok(
                            ws,
                            i + 1,
                            cw,
                            ch,
                            bw,
                            bh,
                            pages,
                            cur.push(pw),
                            spec_clamp_cursor(wd, bw),
                            y1,
                        );
                    }
                } else {
                    let pw = WordV { word: w, x: x, y: y, rendered: false };
                    assert(word_placed_ok(pw, cw, bw, bh));
                    lemma_placed_ok_push_word(cur, pw, cw, bw, bh);
                    lemma_build_placed_ok(
                        ws,
                        i + 1,
                        cw,
                        ch,
                        bw,
                        bh,
                        pages,
                        cur.push(pw),
                        spec_clamp_cursor(x + wd, bw),
                        y,
                    );
                }
            },
        }
    }
}

/// Line-width bound: on every produced page, the words at a shared height
/// stay within the box width — every word either starts its line or ends at
/// or before the right edge, so only a word placed alone at the line start
/// may exceed it.
pub proof fn lemma_line_width_bound(ws: Seq<SWordV>, cw: int, ch: int, bw: int, bh: int)
    requires
        cw >= 0,
        ch >= 0,
        bw >= 0,
        bh >= 0,
        stream_wf(ws),
    ensures
        forall|p: int, k: int|
            0 <= p < spec_pages(ws, cw, ch, bw, bh).len() && 0 <= k < spec_pages(
                ws,
                cw,
                ch,
                bw,
                bh,
            )[p].words.len() ==> word_fits(
                #[trigger] spec_pages(ws, cw, ch, bw, bh)[p].words[k],
                cw,
                bw,
            ),
{
    lemma_build_placed_ok(ws, 0, cw, ch, bw, bh, Seq::empty(), Seq::empty(), 0, 0);
}

/// Every page a sound build produces is within the measurement bounds.
pub proof fn lemma_pages_wf(ws: Seq<SWordV>, cw: int, ch: int, bw: int, bh: int)
    requires
        cw >= 0,
        ch >= 0,
        0 <= bw <= MAX_BOX_DIM,
        0 <= bh <= MAX_BOX_DIM,
        stream_wf(ws),
    ensures
        forall|p: int|
            0 <= p < spec_pages(ws, cw, ch, bw, bh).len() ==> page_wf(
                #[trigger] spec_pages(ws, cw, ch, bw, bh)[p],
            ),
{
    lemma_build_placed_ok(ws, 0, cw, ch, bw, bh, Seq::empty(), Seq::empty(), 0, 0);
    let ps = spec_pages(ws, cw, ch, bw, bh);
    assert forall|p: int| 0 <= p < ps.len() implies page_wf(#[trigger] ps[p]) by {
        assert forall|k: int| 0 <= k < ps[p].words.len() implies word_wf(#[trigger] ps[p].words[k]) by {
            assert(word_placed_ok(ps[p].words[k], cw, bw, bh));
        }
    }
}


/// Words that share a line sit flush against each other: each one starts
/// where the previous one ends.
pub open spec fn words_adjacent(ws: Seq<WordV>, cw: int) -> bool {
    forall|j: int|
        0 <= j < ws.len() - 1 ==> ((#[trigger] ws[j + 1]).y == ws[j].y ==> ws[j + 1].x == ws[j].x
            + spec_word_width(ws[j].word, cw))
}

/// Every page's word list is flush within its lines.
pub open spec fn pages_adjacent(ps: Seq<PageV>, cw: int) -> bool {
    forall|p: int| 0 <= p < ps.len() ==> words_adjacent((#[trigger] ps[p]).words, cw)
}

proof fn lemma_adjacent_push_page(ps: Seq<PageV>, cur: Seq<WordV>, cw: int)
    requires
        pages_adjacent(ps, cw),
        words_adjacent(cur, cw),
    ensures
        pages_adjacent(ps.push(spec_page_of(cur)), cw),
{
    let ps2 = ps.push(spec_page_of(cur));
    assert forall|p: int| 0 <= p < ps2.len() implies words_adjacent((#[trigger] ps2[p]).words, cw) by {
        if p < ps.len() {
            assert(ps2[p] == ps[p]);
        } else {
            assert(ps2[p] == spec_page_of(cur));
        }
    }
}

proof fn lemma_adjacent_push_word(cur: Seq<WordV>, pw: WordV, cw: int)
    requires
        words_adjacent(cur, cw),
        cur.len() > 0 ==> (pw.y != cur.last().y || pw.x == cur.last().x + spec_word_width(
            cur.last().word,
            cw,
        )),
    ensures
        words_adjacent(cur.push(pw), cw),
{
    let c2 = cur.push(pw);
    assert forall|j: int|
        0 <= j < c2.len() - 1 implies ((#[trigger] c2[j + 1]).y == c2[j].y ==> c2[j + 1].x == c2[j].x
        + spec_word_width(c2[j].word, cw)) by {
        if j < cur.len() - 1 {
            assert(c2[j] == cur[j]);
            assert(c2[j + 1] == cur[j + 1]);
        } else {
            assert(c2[j] == cur.last());
            assert(c2[j + 1] == pw);
        }
    }
}

/// Flush placement is invariant over the whole build: the cursor either
/// continues the last word of the line or a line flush moved on.
proof fn lemma_build_adjacent(
    ws: Seq<SWordV>,
    i: int,
    cw: int,
    ch: int,
    bw: int,
    bh: int,
    pages: Seq<PageV>,
    cur: Seq<WordV>,
    x: int,
    y: int,
)
    requires
        i >= 0,
        cw >= 0,
        ch >= 1,
        bw >= 0,
        bh >= 0,
        cur.len() > 0 ==> cur.last().y <= y,
        cur.len() > 0 && cur.last().y == y ==> x == spec_clamp_cursor(
            cur.last().x + spec_word_width(cur.last().word, cw),
            bw,
        ),
        pages_adjacent(pages, cw),
        words_adjacent(cur, cw),
    ensures
        pages_adjacent(spec_build_from(ws, i, cw, ch, bw, bh, pages, cur, x, y), cw),
    decreases ws.len() - i,
{
    if i >= ws.len() {
        if cur.len() > 0 {
            lemma_adjacent_push_page(pages, cur, cw);
        }
    } else {
        lemma_width_nonneg(ws[i], cw);
        match ws[i] {
            SWordV::LineBreak => {
                let y1 = if x != 0 {
                    y + ch
                } else {
                    y
                };
                if y1 > bh {
                    lemma_adjacent_push_page(pages, cur, cw);
                    lemma_build_adjacent(
                        ws,
                        i + 1,
                        cw,
                        ch,
                        bw,
                        bh,
                        pages.push(spec_page_of(cur)),
                        Seq::empty(),
                        0,
                        0,
                    );
                } else {
                    lemma_build_adjacent(ws, i + 1, cw, ch, bw, bh, pages, cur, 0, y1);
                }
            },
            SWordV::PageBreak => {
                let y1 = if x != 0 {
                    y + ch
                } else {
                    y
                };
                if cur.len() > 0 {
                    lemma_adjacent_push_page(pages, cur, cw);
                    lemma_build_adjacent(
                        ws,
                        i + 1,
                        cw,
                        ch,
                        bw,
                        bh,
                        pages.push(spec_page_of(cur)),
                        Seq::empty(),
                        0,
                        0,
                    );
                } else {
                    lemma_build_adjacent(ws, i + 1, cw, ch, bw, bh, pages, cur, 0, y1);
                }
            },
            w => {
                let wd = spec_word_width(w, cw);
                if x + wd > bw {
                    let y1 = if x != 0 {
                        y + ch
                    } else {
                        y
                    };
                    if y1 >= bh {
                        let pw = WordV { word: w, x: 0, y: 0, rendered: false };
                        lemma_adjacent_push_page(pages, cur, cw);
                        lemma_adjacent_push_word(Seq::empty(), pw, cw);
                        assert(Seq::<WordV>::empty().push(pw) =~= seq![pw]);
                        lemma_build_adjacent(
                            ws,
                            i + 1,
                            cw,
                            ch,
                            bw,
                            bh,
                            pages.push(spec_page_of(cur)),
                            seq![pw],
                            spec_clamp_cursor(wd, bw),
                            0,
                        );
                    } else {
                        let pw = WordV { word: w, x: 0, y: y1, rendered: false };
                        // A line flush either moved to a new height or the
                        // line was empty at the left edge.
                        if cur.len() > 0 && pw.y == cur.last().y {
                            assert(x == 0);
                            assert(cur.last().x + spec_word_width(cur.last().word, cw) == 0);
                        }
                        lemma_adjacent_push_word(cur, pw, cw);
                        lemma_build_adjacent(
                            ws,
                            i + 1,
                            cw,
                            ch,
                            bw,
                            bh,
                            pages,
                            cur.push(pw),
                            spec_clamp_cursor(wd, bw),
                            y1,
                        );
                    }
                } else {
                    let pw = WordV { word: w, x: x, y: y, rendered: false };
                    if cur.len() > 0 && pw.y == cur.last().y {
                        // The word fits, so the cursor clamp was an identity.
                        assert(x <= bw);
                        assert(x == cur.last().x + spec_word_width(cur.last().word, cw));
                    }
                    lemma_adjacent_push_word(cur, pw, cw);
                    lemma_build_adjacent(
                        ws,
                        i + 1,
                        cw,
                        ch,
                        bw,
                        bh,
                        pages,
                        cur.push(pw),
                        spec_clamp_cursor(x + wd, bw),
                        y,
                    );
                }
            },
        }
    }
}

/// Words on one line are packed flush from the left: with
/// [`lemma_line_width_bound`] this pins the sum of the widths placed on a
/// line to at most the box width, a lone overlong word excepted.
pub proof fn lemma_line_packing(ws: Seq<SWordV>, cw: int, ch: int, bw: int, bh: int)
    requires
        cw >= 0,
        ch >= 1,
        bw >= 0,
        bh >= 0,
    ensures
        pages_adjacent(spec_pages(ws, cw, ch, bw, bh), cw),
{
    lemma_build_adjacent(ws, 0, cw, ch, bw, bh, Seq::empty(), Seq::empty(), 0, 0);
}

} // verus!
