//! The markup tokenizer: scans a dialog string character by character and
//! yields a flat stream of tokens (word, line break, page break, effect open,
//! effect close, unknown tag).
//!
//! The scanner keeps a one-slot pushback buffer: when an opening brace is met
//! mid-word, the brace is stashed and the in-progress word is emitted first,
//! so a tag never merges into a preceding word.

use vstd::prelude::*;

use crate::effect::TextEffect;
use crate::strutil::{chars_to_string, str_chars};

verus! {

/// A single token produced by the tokenizer.
#[derive(Clone, Debug, PartialEq, Eq)]
pub enum Token {
    /// A run of non-whitespace characters outside any tag.
    Word(String),
    /// A literal newline or a `{br}` tag.
    LineBreak,
    /// A `{pg}` tag.
    PageBreak,
    /// A tag that opens a rendering effect.
    OpenEffect(TextEffect),
    /// A `{/...}` tag: resets the effect.
    CloseEffect,
    /// A tag that matches nothing in the tag table; dropped by consumers.
    UnknownTag,
}

/// The mathematical shape of a [`Token`].
pub enum TokV {
    Word(Seq<char>),
    LineBreak,
    PageBreak,
    OpenEffect(TextEffect),
    CloseEffect,
    UnknownTag,
}

impl View for Token {
    type V = TokV;

    open spec fn view(&self) -> TokV {
        match self {
            Token::Word(s) => TokV::Word(s@),
            Token::LineBreak => TokV::LineBreak,
            Token::PageBreak => TokV::PageBreak,
            Token::OpenEffect(e) => TokV::OpenEffect(*e),
            Token::CloseEffect => TokV::CloseEffect,
            Token::UnknownTag => TokV::UnknownTag,
        }
    }
}

impl DeepView for Token {
    type V = TokV;

    open spec fn deep_view(&self) -> TokV {
        self.view()
    }
}

/// The ASCII whitespace characters that end a word outside a tag.
/// A newline is handled separately: it emits a line break.
pub open spec fn spec_is_word_space(c: char) -> bool {
    c == ' ' || c == '\t' || c == '\r' || c == '\x0c'
}

/// Exec mirror of [`spec_is_word_space`].
pub fn is_word_space(c: char) -> (r: bool)
    ensures
        r == spec_is_word_space(c),
{
    c == ' ' || c == '\t' || c == '\r' || c == '\x0c'
}

/// Classify a complete tag body (including the leading `{`, without the
/// closing `}`) against the fixed tag table.
pub open spec fn spec_classify_tag(buf: Seq<char>) -> TokV {
    if buf.len() >= 2 && buf[1] == '/' {
        TokV::CloseEffect
    } else if buf == seq!['{', 'b', 'r'] {
        TokV::LineBreak
    } else if buf == seq!['{', 'p', 'g'] {
        TokV::PageBreak
    } else if buf == seq!['{', 'w', 'v', 'y'] {
        TokV::OpenEffect(TextEffect::Wavy)
    } else if buf == seq!['{', 's', 'h', 'k'] {
        TokV::OpenEffect(TextEffect::Shaky)
    } else if buf == seq!['{', 'r', 'b', 'w'] {
        TokV::OpenEffect(TextEffect::Rainbow)
    } else if buf == seq!['{', 'c', 'l', 'r', '1'] || buf == seq!['{', 'c', 'l', 'r', ' ', '1'] {
        TokV::OpenEffect(TextEffect::Color(1))
    } else if buf == seq!['{', 'c', 'l', 'r', '2'] || buf == seq!['{', 'c', 'l', 'r', ' ', '2'] {
        TokV::OpenEffect(TextEffect::Color(2))
    } else if buf == seq!['{', 'c', 'l', 'r', '3'] || buf == seq!['{', 'c', 'l', 'r', ' ', '3'] {
        TokV::OpenEffect(TextEffect::Color(3))
    } else {
        TokV::UnknownTag
    }
}

/// Exec mirror of [`spec_classify_tag`].
fn classify_tag(buf: &Vec<char>) -> (t: Token)
    ensures
        t@ == spec_classify_tag(buf@),
{
    let n = buf.len();
    if n >= 2 && buf[1] == '/' {
        return Token::CloseEffect;
    }
    if n == 3 && buf[0] == '{' && buf[1] == 'b' && buf[2] == 'r' {
        proof {
            assert(buf@ =~= seq!['{', 'b', 'r']);
        }
        return Token::LineBreak;
    }
    if n == 3 && buf[0] == '{' && buf[1] == 'p' && buf[2] == 'g' {
        proof {
            assert(buf@ =~= seq!['{', 'p', 'g']);
        }
        return Token::PageBreak;
    }
    if n == 4 && buf[0] == '{' && buf[1] == 'w' && buf[2] == 'v' && buf[3] == 'y' {
        proof {
            assert(buf@ =~= seq!['{', 'w', 'v', 'y']);
        }
        return Token::OpenEffect(TextEffect::Wavy);
    }
    if n == 4 && buf[0] == '{' && buf[1] == 's' && buf[2] == 'h' && buf[3] == 'k' {
        proof {
            assert(buf@ =~= seq!['{', 's', 'h', 'k']);
        }
        return Token::OpenEffect(TextEffect::Shaky);
    }
    if n == 4 && buf[0] == '{' && buf[1] == 'r' && buf[2] == 'b' && buf[3] == 'w' {
        proof {
            assert(buf@ =~= seq!['{', 'r', 'b', 'w']);
        }
        return Token::OpenEffect(TextEffect::Rainbow);
    }
    if n == 5 && buf[0] == '{' && buf[1] == 'c' && buf[2] == 'l' && buf[3] == 'r' {
        if buf[4] == '1' {
            proof {
                assert(buf@ =~= seq!['{', 'c', 'l', 'r', '1']);
            }
            return Token::OpenEffect(TextEffect::Color(1));
        }
        if buf[4] == '2' {
            proof {
                assert(buf@ =~= seq!['{', 'c', 'l', 'r', '2']);
            }
            return Token::OpenEffect(TextEffect::Color(2));
        }
        if buf[4] == '3' {
            proof {
                assert(buf@ =~= seq!['{', 'c', 'l', 'r', '3']);
            }
            return Token::OpenEffect(TextEffect::Color(3));
        }
        return Token::UnknownTag;
    }
    if n == 6 && buf[0] == '{' && buf[1] == 'c' && buf[2] == 'l' && buf[3] == 'r' && buf[4] == ' ' {
        if buf[5] == '1' {
            proof {
                assert(buf@ =~= seq!['{', 'c', 'l', 'r', ' ', '1']);
            }
            return Token::OpenEffect(TextEffect::Color(1));
        }
        if buf[5] == '2' {
            proof {
                assert(buf@ =~= seq!['{', 'c', 'l', 'r', ' ', '2']);
            }
            return Token::OpenEffect(TextEffect::Color(2));
        }
        if buf[5] == '3' {
            proof {
                assert(buf@ =~= seq!['{', 'c', 'l', 'r', ' ', '3']);
            }
            return Token::OpenEffect(TextEffect::Color(3));
        }
        return Token::UnknownTag;
    }
    Token::UnknownTag
}

/// The whole token stream of an input, given an in-progress buffer and
/// whether the scanner stands inside a tag.
///
/// One character is consumed per step:
/// - a newline emits a line break at once and discards the buffer;
/// - inside a tag, `}` closes and classifies it, anything else accumulates;
/// - outside a tag, `{` ends a pending word (the brace is then reprocessed
///   as the start of a tag), whitespace ends a pending word and is otherwise
///   absorbed, and any other character accumulates;
/// - at the end of the input a non-empty buffer (a trailing word or a
///   truncated tag) is flushed as one final word.
pub open spec fn spec_tokenize(s: Seq<char>, buf: Seq<char>, in_tag: bool) -> Seq<TokV>
    decreases s.len(),
{
    if s.len() == 0 {
        if buf.len() == 0 {
            Seq::empty()
        } else {
            seq![TokV::Word(buf)]
        }
    } else {
        let c = s[0];
        let rest = s.skip(1);
        if c == '\n' {
            seq![TokV::LineBreak] + spec_tokenize(rest, Seq::empty(), false)
        } else if in_tag {
            if c == '}' {
                seq![spec_classify_tag(buf)] + spec_tokenize(rest, Seq::empty(), false)
            } else {
                spec_tokenize(rest, buf.push(c), true)
            }
        } else if c == '{' {
            if buf.len() > 0 {
                seq![TokV::Word(buf)] + spec_tokenize(rest, seq!['{'], true)
            } else {
                spec_tokenize(rest, seq!['{'], true)
            }
        } else if spec_is_word_space(c) {
            if buf.len() > 0 {
                seq![TokV::Word(buf)] + spec_tokenize(rest, Seq::empty(), false)
            } else {
                spec_tokenize(rest, Seq::empty(), false)
            }
        } else {
            spec_tokenize(rest, buf.push(c), false)
        }
    }
}

/// The token stream of an input, scanned from a clean start.
pub open spec fn spec_tokens(s: Seq<char>) -> Seq<TokV> {
    spec_tokenize(s, Seq::empty(), false)
}

/// Single-pass, restartable scanner over a fixed character sequence,
/// with a one-slot pushback buffer.
pub struct Tokenizer {
    chars: Vec<char>,
    pos: usize,
    pending: Option<char>,
}

impl Tokenizer {
    /// The scanner never stands past the end of its input.
    pub closed spec fn wf(self) -> bool {
        self.pos <= self.chars@.len()
    }

    /// The input still to be consumed: the stashed character, if any,
    /// followed by the unread tail.
    pub closed spec fn remaining(self) -> Seq<char> {
        match self.pending {
            Some(c) => seq![c] + self.chars@.skip(self.pos as int),
            None => self.chars@.skip(self.pos as int),
        }
    }

    /// Start a scanner over the characters of a string.
    pub fn new(text: &str) -> (t: Tokenizer)
        ensures
            t.wf(),
            t.remaining() == text@,
    {
        let chars = str_chars(text);
        Self::from_chars(chars)
    }

    /// Start a scanner over an explicit character vector.
    pub fn from_chars(chars: Vec<char>) -> (t: Tokenizer)
        ensures
            t.wf(),
            t.remaining() == chars@,
    {
        let t = Tokenizer { chars, pos: 0, pending: None };
        proof {
            assert(t.remaining() =~= t.chars@);
        }
        t
    }

    /// Yield the next token, or `None` at the end of the input.
    ///
    /// The token produced is exactly the head of [`spec_tokens`] on the
    /// remaining input, and what is left to produce is the stream of the new
    /// remaining input.
    pub fn next_token(&mut self) -> (r: Option<Token>)
        requires
            old(self).wf(),
        ensures
            final(self).wf(),
            match r {
                Option::None => spec_tokens(old(self).remaining()) == Seq::<TokV>::empty()
                    && final(self).remaining().len() == 0,
                Option::Some(t) => spec_tokens(old(self).remaining()) == seq![t@] + spec_tokens(
                    final(self).remaining(),
                ) && final(self).remaining().len() < old(self).remaining().len(),
            },
    {
        let mut buf: Vec<char> = Vec::new();
        let mut in_tag: bool = false;
        loop
            invariant
                self.wf(),
                in_tag ==> buf@.len() > 0,
                self.chars@ == old(self).chars@,
                spec_tokenize(old(self).remaining(), Seq::empty(), false) == spec_tokenize(
                    self.remaining(),
                    buf@,
                    in_tag,
                ),
                self.remaining().len() + buf@.len() <= old(self).remaining().len(),
            decreases self.remaining().len(),
        {
            let ghost rem0 = self.remaining();
            let c_opt: Option<char> = match self.pending {
                Option::Some(c) => {
                    self.pending = None;
                    Some(c)
                },
                Option::None => {
                    if self.pos < self.chars.len() {
                        let c = self.chars[self.pos];
                        self.pos = self.pos + 1;
                        Some(c)
                    } else {
                        None
                    }
                },
            };
            match c_opt {
                Option::None => {
                    // End of input: flush a pending word, or end the stream.
                    assert(rem0.len() == 0);
                    if buf.len() == 0 {
                        return None;
                    } else {
                        let w = chars_to_string(&buf);
                        return Some(Token::Word(w));
                    }
                },
                Option::Some(c) => {
                    let ghost buf0 = buf@;
                    let ghost tag0 = in_tag;
                    proof {
                        assert(rem0.len() > 0);
                        assert(rem0[0] == c);
                        assert(self.remaining() =~= rem0.skip(1));
                    }
                    if c == '\n' {
                        return Some(Token::LineBreak);
                    } else if in_tag {
                        if c == '}' {
                            let t = classify_tag(&buf);
                            return Some(t);
                        } else {
                            buf.push(c);
                            proof {
                                assert(spec_tokenize(rem0, buf0, tag0) == spec_tokenize(
                                    self.remaining(),
                                    buf@,
                                    in_tag,
                                ));
                            }
                        }
                    } else if c == '{' {
                        if buf.len() > 0 {
                            self.pending = Some('{');
                            let ghost rem1 = self.remaining();
                            proof {
                                assert(rem1 =~= seq!['{'] + rem0.skip(1));
                                // Reprocessing the brace from a clean buffer
                                // enters tag mode at once.
                                assert(spec_tokenize(rem1, Seq::empty(), false) == spec_tokenize(
                                    rem0.skip(1),
                                    seq!['{'],
                                    true,
                                )) by {
                                    assert(rem1.skip(1) =~= rem0.skip(1));
                                    assert(Seq::<char>::empty().push('{') =~= seq!['{']);
                                };
                            }
                            let w = chars_to_string(&buf);
                            return Some(Token::Word(w));
                        } else {
                            buf.push(c);
                            in_tag = true;
                            proof {
                                assert(buf@ =~= seq!['{']);
                                assert(spec_tokenize(rem0, buf0, tag0) == spec_tokenize(
                                    self.remaining(),
                                    buf@,
                                    in_tag,
                                ));
                            }
                        }
                    } else if is_word_space(c) {
                        if buf.len() > 0 {
                            let w = chars_to_string(&buf);
                            return Some(Token::Word(w));
                        } else {
                            proof {
                                assert(buf@ =~= Seq::<char>::empty());
                                assert(spec_tokenize(rem0, buf0, tag0) == spec_tokenize(
                                    self.remaining(),
                                    buf@,
                                    in_tag,
                                ));
                            }
                        }
                    } else {
                        buf.push(c);
                        proof {
                            assert(spec_tokenize(rem0, buf0, tag0) == spec_tokenize(
                                self.remaining(),
                                buf@,
                                in_tag,
                            ));
                        }
                    }
                },
            }
        }
    }
}


/// A token's word text, if any, is no longer than `n`.
pub open spec fn tok_word_len_le(t: TokV, n: int) -> bool {
    match t {
        TokV::Word(w) => w.len() <= n,
        _ => true,
    }
}

proof fn lemma_cons_word_len(s: Seq<TokV>, t: TokV, rest: Seq<TokV>, n: int)
    requires
        s == seq![t] + rest,
        tok_word_len_le(t, n),
        forall|k: int| 0 <= k < rest.len() ==> tok_word_len_le(#[trigger] rest[k], n),
    ensures
        forall|k: int| 0 <= k < s.len() ==> tok_word_len_le(#[trigger] s[k], n),
{
    assert forall|k: int| 0 <= k < s.len() implies tok_word_len_le(#[trigger] s[k], n) by {
        if k == 0 {
            assert(s[0] == t);
        } else {
            assert(s[k] == rest[k - 1]);
        }
    }
}

/// No word token can outgrow the input it was read from: every word's text
/// fits in the pending buffer plus the unread input.
pub proof fn lemma_tokens_word_len(s: Seq<char>, buf: Seq<char>, in_tag: bool, n: int)
    requires
        buf.len() + s.len() <= n,
    ensures
        forall|k: int|
            0 <= k < spec_tokenize(s, buf, in_tag).len() ==> tok_word_len_le(
                #[trigger] spec_tokenize(s, buf, in_tag)[k],
                n,
            ),
    decreases s.len(),
{
    if s.len() == 0 {
        if buf.len() > 0 {
            assert(spec_tokenize(s, buf, in_tag)[0] == TokV::Word(buf));
        }
    } else {
        let c = s[0];
        let rest = s.skip(1);
        if c == '\n' {
            lemma_tokens_word_len(rest, Seq::empty(), false, n);
            lemma_cons_word_len(
                spec_tokenize(s, buf, in_tag),
                TokV::LineBreak,
                spec_tokenize(rest, Seq::empty(), false),
                n,
            );
        } else if in_tag {
            if c == '}' {
                lemma_tokens_word_len(rest, Seq::empty(), false, n);
                lemma_cons_word_len(
                    spec_tokenize(s, buf, in_tag),
                    spec_classify_tag(buf),
                    spec_tokenize(rest, Seq::empty(), false),
                    n,
                );
            } else {
                lemma_tokens_word_len(rest, buf.push(c), true, n);
                assert(spec_tokenize(s, buf, in_tag) == spec_tokenize(rest, buf.push(c), true));
                assert forall|k: int|
                    0 <= k < spec_tokenize(s, buf, in_tag).len() implies tok_word_len_le(
                    #[trigger] spec_tokenize(s, buf, in_tag)[k],
                    n,
                ) by {
                    assert(spec_tokenize(s, buf, in_tag)[k] == spec_tokenize(rest, buf.push(c), true)[k]);
                };
            }
        } else if c == '{' {
            if buf.len() > 0 {
                lemma_tokens_word_len(rest, seq!['{'], true, n);
                lemma_cons_word_len(
                    spec_tokenize(s, buf, in_tag),
                    TokV::Word(buf),
                    spec_tokenize(rest, seq!['{'], true),
                    n,
                );
            } else {
                lemma_tokens_word_len(rest, seq!['{'], true, n);
                assert(spec_tokenize(s, buf, in_tag) == spec_tokenize(rest, seq!['{'], true));
                assert forall|k: int|
                    0 <= k < spec_tokenize(s, buf, in_tag).len() implies tok_word_len_le(
                    #[trigger] spec_tokenize(s, buf, in_tag)[k],
                    n,
                ) by {
                    assert(spec_tokenize(s, buf, in_tag)[k] == spec_tokenize(rest, seq!['{'], true)[k]);
                };
            }
        } else if spec_is_word_space(c) {
            if buf.len() > 0 {
                lemma_tokens_word_len(rest, Seq::empty(), false, n);
                lemma_cons_word_len(
                    spec_tokenize(s, buf, in_tag),
                    TokV::Word(buf),
                    spec_tokenize(rest, Seq::empty(), false),
                    n,
                );
            } else {
                lemma_tokens_word_len(rest, Seq::empty(), false, n);
                assert(spec_tokenize(s, buf, in_tag) == spec_tokenize(rest, Seq::empty(), false));
                assert forall|k: int|
                    0 <= k < spec_tokenize(s, buf, in_tag).len() implies tok_word_len_le(
                    #[trigger] spec_tokenize(s, buf, in_tag)[k],
                    n,
                ) by {
                    assert(spec_tokenize(s, buf, in_tag)[k] == spec_tokenize(rest, Seq::empty(), false)[k]);
                };
            }
        } else {
            lemma_tokens_word_len(rest, buf.push(c), false, n);
                            assert(spec_tokenize(s, buf, in_tag) == spec_tokenize(rest, buf.push(c), false));
                assert forall|k: int|
                    0 <= k < spec_tokenize(s, buf, in_tag).len() implies tok_word_len_le(
                    #[trigger] spec_tokenize(s, buf, in_tag)[k],
                    n,
                ) by {
                    assert(spec_tokenize(s, buf, in_tag)[k] == spec_tokenize(rest, buf.push(c), false)[k]);
                };
        }
    }
}

} // verus!
