//! The word stream: the normalized semantic stream of dialog tokens that the
//! layout builder consumes. Effect tokens are folded into the following
//! plain-text words; unknown tags contribute nothing.

use vstd::prelude::*;

use crate::effect::TextEffect;
use crate::strutil::str_chars;
use crate::token::{spec_tokens, TokV, Token, Tokenizer};

verus! {

/// A semantic dialog token: a text word with its effect, an inline icon,
/// or an explicit break.
#[derive(Clone, Debug, PartialEq, Eq)]
pub enum StreamWord {
    /// A plain word with the effect in force where it was read.
    Text(String, TextEffect),
    /// An inline sprite icon.
    Sprite(String),
    /// An inline tile icon.
    Tile(String),
    /// An inline item icon.
    Item(String),
    /// An explicit end of line.
    LineBreak,
    /// An explicit end of page.
    PageBreak,
}

/// The mathematical shape of a [`StreamWord`].
pub enum SWordV {
    Text(Seq<char>, TextEffect),
    Sprite(Seq<char>),
    Tile(Seq<char>),
    Item(Seq<char>),
    LineBreak,
    PageBreak,
}

impl View for StreamWord {
    type V = SWordV;

    open spec fn view(&self) -> SWordV {
        match self {
            StreamWord::Text(s, e) => SWordV::Text(s@, *e),
            StreamWord::Sprite(s) => SWordV::Sprite(s@),
            StreamWord::Tile(s) => SWordV::Tile(s@),
            StreamWord::Item(s) => SWordV::Item(s@),
            StreamWord::LineBreak => SWordV::LineBreak,
            StreamWord::PageBreak => SWordV::PageBreak,
        }
    }
}

impl DeepView for StreamWord {
    type V = SWordV;

    open spec fn deep_view(&self) -> SWordV {
        self.view()
    }
}

/// A triple double quote wrapping the whole input is stripped once before
/// tokenization; without the closing marker the text is unchanged.
pub open spec fn spec_strip_quotes(s: Seq<char>) -> Seq<char> {
    if s.len() >= 6 && s[0] == '"' && s[1] == '"' && s[2] == '"' && s[s.len() - 1] == '"' && s[s.len()
        - 2] == '"' && s[s.len() - 3] == '"' {
        s.subrange(3, s.len() - 3)
    } else {
        s
    }
}

/// Exec mirror of [`spec_strip_quotes`] over a character vector.
pub fn strip_quotes_chars(v: Vec<char>) -> (r: Vec<char>)
    ensures
        r@ == spec_strip_quotes(v@),
{
    let n = v.len();
    if n >= 6 && v[0] == '"' && v[1] == '"' && v[2] == '"' && v[n - 1] == '"' && v[n - 2] == '"'
        && v[n - 3] == '"' {
        let mut r: Vec<char> = Vec::new();
        let mut i: usize = 3;
        while i < n - 3
            invariant
                3 <= i <= n - 3,
                n == v@.len(),
                r@ == v@.subrange(3, i as int),
            decreases n - 3 - i,
        {
            r.push(v[i]);
            proof {
                assert(r@ =~= v@.subrange(3, i + 1));
            }
            i = i + 1;
        }
        r
    } else {
        v
    }
}

/// Fold a token stream into the word stream: a running effect variable is
/// stamped onto every plain word; open and close tags update it; unknown
/// tags are dropped.
pub open spec fn spec_fold_tokens(toks: Seq<TokV>, eff: TextEffect) -> Seq<SWordV>
    decreases toks.len(),
{
    if toks.len() == 0 {
        Seq::empty()
    } else {
        let rest = toks.skip(1);
        match toks[0] {
            TokV::Word(t) => seq![SWordV::Text(t, eff)] + spec_fold_tokens(rest, eff),
            TokV::LineBreak => seq![SWordV::LineBreak] + spec_fold_tokens(rest, eff),
            TokV::PageBreak => seq![SWordV::PageBreak] + spec_fold_tokens(rest, eff),
            TokV::OpenEffect(e) => spec_fold_tokens(rest, e),
            TokV::CloseEffect => spec_fold_tokens(rest, TextEffect::Plain),
            TokV::UnknownTag => spec_fold_tokens(rest, eff),
        }
    }
}

/// The word stream of a raw dialog text: quotes stripped, tokenized, and
/// folded starting from no effect.
pub open spec fn spec_word_stream(s: Seq<char>) -> Seq<SWordV> {
    spec_fold_tokens(spec_tokens(spec_strip_quotes(s)), TextEffect::Plain)
}

/// Folding distributes over the head token of a stream.
proof fn lemma_fold_step(t: TokV, rest: Seq<TokV>, eff: TextEffect)
    ensures
        spec_fold_tokens(seq![t] + rest, eff) == match t {
            TokV::Word(w) => seq![SWordV::Text(w, eff)] + spec_fold_tokens(rest, eff),
            TokV::LineBreak => seq![SWordV::LineBreak] + spec_fold_tokens(rest, eff),
            TokV::PageBreak => seq![SWordV::PageBreak] + spec_fold_tokens(rest, eff),
            TokV::OpenEffect(e) => spec_fold_tokens(rest, e),
            TokV::CloseEffect => spec_fold_tokens(rest, TextEffect::Plain),
            TokV::UnknownTag => spec_fold_tokens(rest, eff),
        },
{
    let s = seq![t] + rest;
    assert(s[0] == t);
    assert(s.skip(1) =~= rest);
}

/// Produce the word stream of a raw dialog text.
pub fn word_stream(text: &str) -> (ws: Vec<StreamWord>)
    ensures
        ws.deep_view() == spec_word_stream(text@),
{
    let chars = str_chars(text);
    let stripped = strip_quotes_chars(chars);
    word_stream_of_chars(stripped)
}

/// Produce the word stream of an already unquoted character sequence.
fn word_stream_of_chars(chars: Vec<char>) -> (ws: Vec<StreamWord>)
    ensures
        ws.deep_view() == spec_fold_tokens(spec_tokens(chars@), TextEffect::Plain),
{
    let ghost full = spec_fold_tokens(spec_tokens(chars@), TextEffect::Plain);
    let mut tok = Tokenizer::from_chars(chars);
    let mut eff = TextEffect::Plain;
    let mut out: Vec<StreamWord> = Vec::new();
    loop
        invariant
            tok.wf(),
            full == spec_fold_tokens(spec_tokens(chars@), TextEffect::Plain),
            full == out.deep_view() + spec_fold_tokens(spec_tokens(tok.remaining()), eff),
        decreases tok.remaining().len(),
    {
        let ghost rem0 = tok.remaining();
        let r = tok.next_token();
        match r {
            Option::None => {
                proof {
                    assert(spec_fold_tokens(spec_tokens(rem0), eff) =~= Seq::<SWordV>::empty());
                    assert(full =~= out.deep_view());
                }
                return out;
            },
            Option::Some(t) => {
                proof {
                    lemma_fold_step(t@, spec_tokens(tok.remaining()), eff);
                }
                let ghost out0 = out.deep_view();
                match t {
                    Token::Word(s) => {
                        let e = eff;
                        out.push(StreamWord::Text(s, e));
                        proof {
                            assert(out.deep_view() =~= out0.push(
                                SWordV::Text(out@[out@.len() - 1]->Text_0@, e),
                            ));
                            assert(out.deep_view() + spec_fold_tokens(
                                spec_tokens(tok.remaining()),
                                eff,
                            ) =~= full);
                        }
                    },
                    Token::LineBreak => {
                        out.push(StreamWord::LineBreak);
                        proof {
                            assert(out.deep_view() =~= out0.push(SWordV::LineBreak));
                            assert(out.deep_view() + spec_fold_tokens(
                                spec_tokens(tok.remaining()),
                                eff,
                            ) =~= full);
                        }
                    },
                    Token::PageBreak => {
                        out.push(StreamWord::PageBreak);
                        proof {
                            assert(out.deep_view() =~= out0.push(SWordV::PageBreak));
                            assert(out.deep_view() + spec_fold_tokens(
                                spec_tokens(tok.remaining()),
                                eff,
                            ) =~= full);
                        }
                    },
                    Token::OpenEffect(e) => {
                        eff = e;
                    },
                    Token::CloseEffect => {
                        eff = TextEffect::Plain;
                    },
                    Token::UnknownTag => {},
                }
            },
        }
    }
}


/// A stream word's text, if any, is no longer than `n`.
pub open spec fn sword_text_len_le(w: SWordV, n: int) -> bool {
    match w {
        SWordV::Text(t, _) => t.len() <= n,
        _ => true,
    }
}

proof fn lemma_cons_sword_len(s: Seq<SWordV>, w: SWordV, rest: Seq<SWordV>, n: int)
    requires
        s == seq![w] + rest,
        sword_text_len_le(w, n),
        forall|k: int| 0 <= k < rest.len() ==> sword_text_len_le(#[trigger] rest[k], n),
    ensures
        forall|k: int| 0 <= k < s.len() ==> sword_text_len_le(#[trigger] s[k], n),
{
    assert forall|k: int| 0 <= k < s.len() implies sword_text_len_le(#[trigger] s[k], n) by {
        if k == 0 {
            assert(s[0] == w);
        } else {
            assert(s[k] == rest[k - 1]);
        }
    }
}

/// Folding keeps every word text: a bound on the token words is a bound on
/// the stream's text words.
pub proof fn lemma_fold_word_len(toks: Seq<TokV>, eff: TextEffect, n: int)
    requires
        forall|k: int| 0 <= k < toks.len() ==> crate::token::tok_word_len_le(#[trigger] toks[k], n),
    ensures
        forall|k: int|
            0 <= k < spec_fold_tokens(toks, eff).len() ==> sword_text_len_le(
                #[trigger] spec_fold_tokens(toks, eff)[k],
                n,
            ),
    decreases toks.len(),
{
    if toks.len() == 0 {
    } else {
        let rest = toks.skip(1);
        assert(forall|k: int|
            0 <= k < rest.len() ==> crate::token::tok_word_len_le(#[trigger] rest[k], n)) by {
            assert(forall|k: int| 0 <= k < rest.len() ==> rest[k] == toks[k + 1]);
        };
        match toks[0] {
            TokV::Word(t) => {
                lemma_fold_word_len(rest, eff, n);
                assert(crate::token::tok_word_len_le(toks[0], n));
                lemma_cons_sword_len(
                    spec_fold_tokens(toks, eff),
                    SWordV::Text(t, eff),
                    spec_fold_tokens(rest, eff),
                    n,
                );
            },
            TokV::LineBreak => {
                lemma_fold_word_len(rest, eff, n);
                lemma_cons_sword_len(
                    spec_fold_tokens(toks, eff),
                    SWordV::LineBreak,
                    spec_fold_tokens(rest, eff),
                    n,
                );
            },
            TokV::PageBreak => {
                lemma_fold_word_len(rest, eff, n);
                lemma_cons_sword_len(
                    spec_fold_tokens(toks, eff),
                    SWordV::PageBreak,
                    spec_fold_tokens(rest, eff),
                    n,
                );
            },
            TokV::OpenEffect(e) => {
                lemma_fold_word_len(rest, e, n);
                                    assert(spec_fold_tokens(toks, eff) == spec_fold_tokens(rest, e));
                    assert forall|k: int|
                        0 <= k < spec_fold_tokens(toks, eff).len() implies sword_text_len_le(
                        #[trigger] spec_fold_tokens(toks, eff)[k],
                        n,
                    ) by {
                        assert(spec_fold_tokens(toks, eff)[k] == spec_fold_tokens(rest, e)[k]);
                    };
            },
            TokV::CloseEffect => {
                lemma_fold_word_len(rest, TextEffect::Plain, n);
                                    assert(spec_fold_tokens(toks, eff) == spec_fold_tokens(rest, TextEffect::Plain));
                    assert forall|k: int|
                        0 <= k < spec_fold_tokens(toks, eff).len() implies sword_text_len_le(
                        #[trigger] spec_fold_tokens(toks, eff)[k],
                        n,
                    ) by {
                        assert(spec_fold_tokens(toks, eff)[k] == spec_fold_tokens(rest, TextEffect::Plain)[k]);
                    };
            },
            TokV::UnknownTag => {
                lemma_fold_word_len(rest, eff, n);
                                    assert(spec_fold_tokens(toks, eff) == spec_fold_tokens(rest, eff));
                    assert forall|k: int|
                        0 <= k < spec_fold_tokens(toks, eff).len() implies sword_text_len_le(
                        #[trigger] spec_fold_tokens(toks, eff)[k],
                        n,
                    ) by {
                        assert(spec_fold_tokens(toks, eff)[k] == spec_fold_tokens(rest, eff)[k]);
                    };
            },
        }
    }
}

/// No text word of the word stream can outgrow the raw input.
pub proof fn lemma_word_stream_len(s: Seq<char>, n: int)
    requires
        s.len() <= n,
    ensures
        forall|k: int|
            0 <= k < spec_word_stream(s).len() ==> sword_text_len_le(
                #[trigger] spec_word_stream(s)[k],
                n,
            ),
{
    let stripped = spec_strip_quotes(s);
    assert(stripped.len() <= s.len());
    crate::token::lemma_tokens_word_len(stripped, Seq::empty(), false, n);
    lemma_fold_word_len(spec_tokens(stripped), TextEffect::Plain, n);
}

} // verus!
