//! The dialog: an ordered FIFO queue of pages built from a markup string.
//! The first page is the one displayed; advancing either fast-forwards the
//! reveal or removes the page.

use vstd::prelude::*;

use crate::layout::{
    build_pages, lemma_pages_wf, page_all_rendered, page_wf, spec_pages, stream_wf, sword_wf,
    LayoutCfg, Page, PageV, MAX_BOX_DIM,
};
use crate::stream::{
    lemma_word_stream_len, spec_word_stream, sword_text_len_le, word_stream, StreamWord,
};

verus! {

/// Default pixel width of the dialog box: the full screen width.
pub const BOX_WIDTH: usize = 240;

/// Default pixel height budget of the dialog box; with an ordinary 8-pixel
/// font this fits two lines per page.
pub const BOX_HEIGHT: usize = 10;

/// An ordered queue of pages. The queue is consumed page by page; an empty
/// queue is the idle state (no dialog box drawn).
#[derive(Clone, Debug, PartialEq, Eq)]
pub struct Dialog {
    pub pages: Vec<Page>,
    /// Whether the box is drawn centered on the screen (used for endings)
    /// instead of along the bottom.
    pub center: bool,
    /// Pixel width of one font cell, fixed at construction.
    pub char_width: u8,
    /// Pixel height of one font line, fixed at construction.
    pub char_height: u8,
}

/// The mathematical shape of a [`Dialog`].
pub struct DialogV {
    pub pages: Seq<PageV>,
    pub center: bool,
    pub char_width: int,
    pub char_height: int,
}

impl View for Dialog {
    type V = DialogV;

    open spec fn view(&self) -> DialogV {
        DialogV {
            pages: self.pages.deep_view(),
            center: self.center,
            char_width: self.char_width as int,
            char_height: self.char_height as int,
        }
    }
}

/// Every page of the dialog is within the measurement bounds.
pub open spec fn dialog_wf(d: DialogV) -> bool {
    forall|i: int| 0 <= i < d.pages.len() ==> page_wf(d.pages[i])
}

/// What one advance signal does: nothing on an empty queue; on a page not
/// yet fully revealed and not fast-forwarded, fast-forward it; otherwise
/// pop the front page.
pub open spec fn spec_next_page(d: DialogV) -> DialogV {
    if d.pages.len() == 0 {
        d
    } else {
        let p = d.pages[0];
        if !p.fast && !page_all_rendered(p) {
            DialogV {
                pages: d.pages.update(0, PageV { words: p.words, started: p.started, fast: true }),
                ..d
            }
        } else {
            DialogV { pages: d.pages.skip(1), ..d }
        }
    }
}

/// The pages a markup text produces under the default box budgets.
pub open spec fn spec_dialog_pages(text: Seq<char>, cw: int, ch: int) -> Seq<PageV> {
    spec_pages(spec_word_stream(text), cw, ch, BOX_WIDTH as int, BOX_HEIGHT as int)
}

impl Dialog {
    /// Build a dialog from a markup string and the font cell metrics,
    /// using the default box budgets.
    pub fn new(dialog: &str, char_width: u8, char_height: u8) -> (d: Dialog)
        requires
            dialog@.len() <= MAX_BOX_DIM,
        ensures
            d@.pages == spec_dialog_pages(dialog@, char_width as int, char_height as int),
            !d@.center,
            d@.char_width == char_width as int,
            d@.char_height == char_height as int,
            dialog_wf(d@),
    {
        let words = word_stream(dialog);
        proof {
            lemma_word_stream_len(dialog@, MAX_BOX_DIM as int);
            assert forall|k: int|
                0 <= k < words.deep_view().len() implies sword_wf(#[trigger] words.deep_view()[k]) by {
                assert(sword_text_len_le(spec_word_stream(dialog@)[k], MAX_BOX_DIM as int));
            };
        }
        Self::from_words(&words, char_width, char_height, &LayoutCfg {
            box_width: BOX_WIDTH,
            box_height: BOX_HEIGHT,
        })
    }

    /// Build a dialog from an already evaluated word stream (for example one
    /// produced by an external script evaluator) and explicit box budgets.
    pub fn from_words(words: &Vec<StreamWord>, char_width: u8, char_height: u8, cfg: &LayoutCfg) -> (d:
        Dialog)
        requires
            cfg.box_width <= MAX_BOX_DIM,
            cfg.box_height <= MAX_BOX_DIM,
            stream_wf(words.deep_view()),
        ensures
            d@.pages == spec_pages(
                words.deep_view(),
                char_width as int,
                char_height as int,
                cfg.box_width as int,
                cfg.box_height as int,
            ),
            !d@.center,
            d@.char_width == char_width as int,
            d@.char_height == char_height as int,
            dialog_wf(d@),
    {
        proof {
            lemma_pages_wf(
                words.deep_view(),
                char_width as int,
                char_height as int,
                cfg.box_width as int,
                cfg.box_height as int,
            );
        }
        let pages = build_pages(words, char_width, char_height, cfg);
        Dialog { pages, center: false, char_width, char_height }
    }

    /// How many pages are left, the displayed one included.
    pub fn n_pages(&self) -> (n: usize)
        ensures
            n == self@.pages.len(),
    {
        self.pages.len()
    }

    /// The page currently displayed, if any.
    pub fn current_page(&self) -> (r: Option<&Page>)
        ensures
            match r {
                Option::Some(p) => self@.pages.len() > 0 && p@ == self@.pages[0],
                Option::None => self@.pages.len() == 0,
            },
    {
        if self.pages.len() == 0 {
            None
        } else {
            Some(&self.pages[0])
        }
    }

    /// Process one advance signal: fast-forward a page not yet fully
    /// revealed, otherwise pop it. A player's first confirming input skips
    /// to the full text; the second dismisses the page.
    pub fn next_page(&mut self)
        ensures
            final(self)@ == spec_next_page(old(self)@),
    {
        if self.pages.len() == 0 {
            return;
        }
        let all = self.pages[0].all_rendered();
        if !self.pages[0].fast && !all {
            let page = &mut self.pages[0];
            page.fast = true;
            proof {
                assert(self.pages.deep_view() =~= old(self).pages.deep_view().update(
                    0,
                    PageV {
                        words: old(self)@.pages[0].words,
                        started: old(self)@.pages[0].started,
                        fast: true,
                    },
                ));
            }
        } else {
            self.pages.remove(0);
            proof {
                assert(self.pages.deep_view() =~= old(self).pages.deep_view().skip(1));
            }
        }
    }
}

/// An advance signal never reorders the queue: it either leaves every page
/// in place (fast-forwarding the front page) or removes exactly the front
/// page. Pages therefore leave in construction order.
pub proof fn lemma_next_page_fifo(d: DialogV)
    ensures
        d.pages.len() == 0 ==> spec_next_page(d) == d,
        d.pages.len() > 0 ==> spec_next_page(d).pages =~= d.pages.skip(1) || spec_next_page(
            d,
        ).pages =~= d.pages.update(
            0,
            PageV { words: d.pages[0].words, started: d.pages[0].started, fast: true },
        ),
{
}

/// Reveal/advance two-phase law: on a page not yet fully revealed and not
/// yet fast-forwarded, one advance signal only sets fast-forward — every
/// page and every word stays in place — and a second advance signal then
/// pops the page.
pub proof fn lemma_two_phase(d: DialogV)
    requires
        d.pages.len() > 0,
        !d.pages[0].fast,
        !page_all_rendered(d.pages[0]),
    ensures
        spec_next_page(d).pages.len() == d.pages.len(),
        spec_next_page(d).pages[0].fast,
        spec_next_page(d).pages[0].words == d.pages[0].words,
        forall|i: int| 1 <= i < d.pages.len() ==> spec_next_page(d).pages[i] == d.pages[i],
        spec_next_page(spec_next_page(d)).pages =~= d.pages.skip(1),
{
    let d2 = spec_next_page(d);
    assert(d2.pages[0] == PageV {
        words: d.pages[0].words,
        started: d.pages[0].started,
        fast: true,
    });
}


/// A by-steps constructor for a [`Dialog`]: set the font metrics and the
/// box budgets, then build from a markup string.
pub struct DialogBuilder {
    pub char_width: u8,
    pub char_height: u8,
    pub cfg: LayoutCfg,
}

impl DialogBuilder {
    /// A builder with the default box budgets.
    pub fn new(char_width: u8, char_height: u8) -> (b: DialogBuilder)
        ensures
            b.char_width == char_width,
            b.char_height == char_height,
            b.cfg.box_width == BOX_WIDTH,
            b.cfg.box_height == BOX_HEIGHT,
    {
        DialogBuilder {
            char_width,
            char_height,
            cfg: LayoutCfg { box_width: BOX_WIDTH, box_height: BOX_HEIGHT },
        }
    }

    /// Build the dialog for a markup string.
    pub fn build(self, dialog: &str) -> (d: Dialog)
        requires
            dialog@.len() <= MAX_BOX_DIM,
            self.cfg.box_width <= MAX_BOX_DIM,
            self.cfg.box_height <= MAX_BOX_DIM,
        ensures
            d@.pages == spec_pages(
                spec_word_stream(dialog@),
                self.char_width as int,
                self.char_height as int,
                self.cfg.box_width as int,
                self.cfg.box_height as int,
            ),
            !d@.center,
            d@.char_width == self.char_width as int,
            d@.char_height == self.char_height as int,
            dialog_wf(d@),
    {
        let words = word_stream(dialog);
        proof {
            lemma_word_stream_len(dialog@, MAX_BOX_DIM as int);
            assert forall|k: int|
                0 <= k < words.deep_view().len() implies sword_wf(#[trigger] words.deep_view()[k]) by {
                assert(sword_text_len_le(spec_word_stream(dialog@)[k], MAX_BOX_DIM as int));
            };
        }
        Dialog::from_words(&words, self.char_width, self.char_height, &self.cfg)
    }
}

} // verus!
