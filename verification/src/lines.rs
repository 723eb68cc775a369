//! A simpler, line-based layout: split a dialog text into plain display
//! lines under a fixed character budget, with no effects or pagination.

use vstd::prelude::*;

use crate::layout::MAX_BOX_DIM;
use crate::stream::{spec_strip_quotes, strip_quotes_chars};
use crate::strutil::{chars_to_string, str_chars};

verus! {

/// Character cell width the line splitter budgets with.
pub const LINE_FONT_WIDTH: usize = 6;

/// Screen width the line splitter budgets against.
pub const LINE_SCREEN_WIDTH: usize = 240;

/// Horizontal margin on each side of a line.
pub const LINE_MARGIN_X: usize = 2;

/// The ASCII whitespace characters that separate words here.
pub open spec fn spec_is_ascii_space(c: char) -> bool {
    c == ' ' || c == '\t' || c == '\n' || c == '\r' || c == '\x0c'
}

/// Exec mirror of [`spec_is_ascii_space`].
fn is_ascii_space(c: char) -> (r: bool)
    ensures
        r == spec_is_ascii_space(c),
{
    c == ' ' || c == '\t' || c == '\n' || c == '\r' || c == '\x0c'
}

/// The maximal runs of non-whitespace characters of `s[i..]`, given an
/// in-progress word buffer.
pub open spec fn spec_split_words(s: Seq<char>, i: int, buf: Seq<char>) -> Seq<Seq<char>>
    decreases s.len() - i,
{
    if i < 0 || i >= s.len() {
        if buf.len() > 0 {
            seq![buf]
        } else {
            Seq::empty()
        }
    } else if spec_is_ascii_space(s[i]) {
        if buf.len() > 0 {
            seq![buf] + spec_split_words(s, i + 1, Seq::empty())
        } else {
            spec_split_words(s, i + 1, Seq::empty())
        }
    } else {
        spec_split_words(s, i + 1, buf.push(s[i]))
    }
}

/// Greedy line filling: each word is prefixed with one space and appended
/// to the current line; when a word would push the line past the pixel
/// budget, the line is emitted first (even empty, for a first word that is
/// itself too wide) and the word starts a new line. A trailing non-empty
/// line is kept.
pub open spec fn spec_fill_lines(
    words: Seq<Seq<char>>,
    k: int,
    line: Seq<char>,
    acc: Seq<Seq<char>>,
) -> Seq<Seq<char>>
    decreases words.len() - k,
{
    if k < 0 || k >= words.len() {
        if line.len() > 0 {
            acc.push(line)
        } else {
            acc
        }
    } else {
        let w = words[k];
        let needed = (w.len() + line.len() + 1) * LINE_FONT_WIDTH;
        if needed > LINE_SCREEN_WIDTH - 2 * LINE_MARGIN_X {
            spec_fill_lines(words, k + 1, seq![' '] + w, acc.push(line))
        } else {
            spec_fill_lines(words, k + 1, line + seq![' '] + w, acc)
        }
    }
}

/// The lines a dialog text splits into: quotes stripped, whitespace-split,
/// greedily filled.
pub open spec fn spec_split_lines(s: Seq<char>) -> Seq<Seq<char>> {
    spec_fill_lines(
        spec_split_words(spec_strip_quotes(s), 0, Seq::empty()),
        0,
        Seq::empty(),
        Seq::empty(),
    )
}

/// No split word can outgrow the input it was read from.
proof fn lemma_split_words_len(s: Seq<char>, i: int, buf: Seq<char>, n: int)
    requires
        0 <= i <= s.len(),
        buf.len() + s.len() - i <= n,
    ensures
        forall|k: int|
            0 <= k < spec_split_words(s, i, buf).len() ==> (#[trigger] spec_split_words(
                s,
                i,
                buf,
            )[k]).len() <= n,
    decreases s.len() - i,
{
    if i >= s.len() {
    } else if spec_is_ascii_space(s[i]) {
        lemma_split_words_len(s, i + 1, Seq::empty(), n);
        if buf.len() > 0 {
            let rest = spec_split_words(s, i + 1, Seq::empty());
            assert forall|k: int|
                0 <= k < spec_split_words(s, i, buf).len() implies (#[trigger] spec_split_words(
                s,
                i,
                buf,
            )[k]).len() <= n by {
                if k == 0 {
                    assert(spec_split_words(s, i, buf)[0] == buf);
                } else {
                    assert(spec_split_words(s, i, buf)[k] == rest[k - 1]);
                }
            }
        }
    } else {
        lemma_split_words_len(s, i + 1, buf.push(s[i]), n);
        assert forall|k: int|
            0 <= k < spec_split_words(s, i, buf).len() implies (#[trigger] spec_split_words(
            s,
            i,
            buf,
        )[k]).len() <= n by {
            assert(spec_split_words(s, i, buf)[k] == spec_split_words(s, i + 1, buf.push(s[i]))[k]);
        }
    }
}

/// Split the words of an unquoted character sequence.
fn split_words_chars(v: &Vec<char>) -> (ws: Vec<Vec<char>>)
    ensures
        ws.deep_view() == spec_split_words(v@, 0, Seq::empty()),
{
    let ghost target = spec_split_words(v@, 0, Seq::empty());
    let mut ws: Vec<Vec<char>> = Vec::new();
    let mut buf: Vec<char> = Vec::new();
    let mut i: usize = 0;
    proof {
        assert(ws.deep_view() =~= Seq::<Seq<char>>::empty());
        assert(buf@ =~= Seq::<char>::empty());
    }
    while i < v.len()
        invariant
            i <= v@.len(),
            target == spec_split_words(v@, 0, Seq::empty()),
            target == ws.deep_view() + spec_split_words(v@, i as int, buf@),
        decreases v@.len() - i,
    {
        let ghost ws0 = ws.deep_view();
        let ghost buf0 = buf@;
        let c = v[i];
        if is_ascii_space(c) {
            if buf.len() > 0 {
                ws.push(buf);
                buf = Vec::new();
                proof {
                    assert(ws.deep_view() =~~= ws0.push(buf0));
                    assert(buf@ =~= Seq::<char>::empty());
                    assert(ws0.push(buf0) + spec_split_words(v@, i + 1, Seq::empty()) =~= ws0 + (
                    seq![buf0] + spec_split_words(v@, i + 1, Seq::empty())));
                }
            } else {
                proof {
                    assert(buf@ =~= Seq::<char>::empty());
                }
            }
        } else {
            buf.push(c);
        }
        i = i + 1;
    }
    if buf.len() > 0 {
        let ghost ws0 = ws.deep_view();
        let ghost buf0 = buf@;
        ws.push(buf);
        proof {
            assert(ws.deep_view() =~~= ws0.push(buf0));
            assert(ws0.push(buf0) =~= ws0 + seq![buf0]);
        }
    }
    ws
}

/// Split a dialog text into display lines under the fixed budget.
pub fn split_lines(dialog: &str) -> (lines: Vec<String>)
    requires
        dialog@.len() <= MAX_BOX_DIM,
    ensures
        lines.deep_view() == spec_split_lines(dialog@),
{
    let chars = str_chars(dialog);
    let stripped = strip_quotes_chars(chars);
    proof {
        assert(stripped@.len() <= dialog@.len());
        lemma_split_words_len(stripped@, 0, Seq::empty(), MAX_BOX_DIM as int);
    }
    let words = split_words_chars(&stripped);
    let ghost wsv = words.deep_view();
    let ghost target = spec_split_lines(dialog@);
    let mut lines: Vec<String> = Vec::new();
    let mut line: Vec<char> = Vec::new();
    let mut k: usize = 0;
    proof {
        assert(lines.deep_view() =~= Seq::<Seq<char>>::empty());
        assert(line@ =~= Seq::<char>::empty());
    }
    while k < words.len()
        invariant
            k <= wsv.len(),
            wsv == words.deep_view(),
            forall|t: int| 0 <= t < wsv.len() ==> (#[trigger] wsv[t]).len() <= MAX_BOX_DIM,
            line@.len() <= MAX_BOX_DIM + 1,
            target == spec_split_lines(dialog@),
            target == spec_fill_lines(wsv, k as int, line@, lines.deep_view()),
        decreases wsv.len() - k,
    {
        let ghost lines0 = lines.deep_view();
        let ghost line0 = line@;
        let w = &words[k];
        proof {
            assert(w@ == wsv[k as int]);
            assert(w@.len() <= MAX_BOX_DIM);
        }
        let needed = (w.len() + line.len() + 1) * LINE_FONT_WIDTH;
        if needed > LINE_SCREEN_WIDTH - 2 * LINE_MARGIN_X {
            let s = chars_to_string(&line);
            lines.push(s);
            line = Vec::new();
            line.push(' ');
            let mut c: usize = 0;
            while c < w.len()
                invariant
                    c <= w@.len(),
                    line@ == seq![' '] + w@.subrange(0, c as int),
                decreases w@.len() - c,
            {
                line.push(w[c]);
                proof {
                    assert(line@ =~= seq![' '] + w@.subrange(0, c + 1));
                }
                c = c + 1;
            }
            proof {
                assert(line@ =~= seq![' '] + wsv[k as int]);
                assert(lines.deep_view() =~= lines0.push(line0));
            }
        } else {
            line.push(' ');
            let mut c: usize = 0;
            while c < w.len()
                invariant
                    c <= w@.len(),
                    line@ == line0 + seq![' '] + w@.subrange(0, c as int),
                decreases w@.len() - c,
            {
                line.push(w[c]);
                proof {
                    assert(line@ =~= line0 + seq![' '] + w@.subrange(0, c + 1));
                }
                c = c + 1;
            }
            proof {
                assert(line@ =~= line0 + seq![' '] + wsv[k as int]);
            }
        }
        k = k + 1;
    }
    if line.len() > 0 {
        let ghost lines0 = lines.deep_view();
        let s = chars_to_string(&line);
        lines.push(s);
        proof {
            assert(lines.deep_view() =~= lines0.push(line@));
        }
    }
    lines
}

} // verus!
