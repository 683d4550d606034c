//! Formatted commentary text.

use super::card::{spec_rank_char, spec_suit_symbol, Rank, Suit};
use crate::text::{chars_of, string_of};
use vstd::prelude::*;

verus! {

/// A piece of commentary with one style.
#[derive(Debug, Clone, PartialEq, Eq)]
pub enum TextSpan {
    Plain(String),
    Bold(String),
    Italic(String),
    BoldItalic(String),
    SuitSymbol(Suit),
    CardRef { suit: Suit, rank: Rank },
    LineBreak,
}

/// The plain text of a span: its text, a suit symbol, a suit symbol and a
/// rank character, or a newline.
pub open spec fn span_text(s: TextSpan) -> Seq<char> {
    match s {
        TextSpan::Plain(t) => t@,
        TextSpan::Bold(t) => t@,
        TextSpan::Italic(t) => t@,
        TextSpan::BoldItalic(t) => t@,
        TextSpan::SuitSymbol(suit) => seq![spec_suit_symbol(suit)],
        TextSpan::CardRef { suit, rank } => seq![spec_suit_symbol(suit), spec_rank_char(rank)],
        TextSpan::LineBreak => seq!['\n'],
    }
}

/// The plain text of the first `n` spans.
pub open spec fn plain_text_upto(spans: Seq<TextSpan>, n: int) -> Seq<char>
    decreases n,
{
    if n <= 0 {
        seq![]
    } else {
        plain_text_upto(spans, n - 1) + span_text(spans[n - 1])
    }
}

/// The plain text of a span list.
pub open spec fn plain_text(spans: Seq<TextSpan>) -> Seq<char> {
    plain_text_upto(spans, spans.len() as int)
}

impl TextSpan {
    pub fn plain(s: &str) -> (t: TextSpan)
        ensures
            t matches TextSpan::Plain(x) && x@ == s@,
    {
        TextSpan::Plain(s.to_owned())
    }

    pub fn bold(s: &str) -> (t: TextSpan)
        ensures
            t matches TextSpan::Bold(x) && x@ == s@,
    {
        TextSpan::Bold(s.to_owned())
    }

    pub fn italic(s: &str) -> (t: TextSpan)
        ensures
            t matches TextSpan::Italic(x) && x@ == s@,
    {
        TextSpan::Italic(s.to_owned())
    }

    pub fn bold_italic(s: &str) -> (t: TextSpan)
        ensures
            t matches TextSpan::BoldItalic(x) && x@ == s@,
    {
        TextSpan::BoldItalic(s.to_owned())
    }
}

/// Text made of styled spans.
#[derive(Debug, Clone, Default)]
pub struct FormattedText {
    pub spans: Vec<TextSpan>,
}

impl FormattedText {
    pub fn new() -> (t: FormattedText)
        ensures
            t.spans@ == Seq::<TextSpan>::empty(),
    {
        FormattedText { spans: Vec::new() }
    }

    pub fn push(&mut self, span: TextSpan)
        ensures
            final(self).spans@ == old(self).spans@.push(span),
    {
        self.spans.push(span);
    }

    pub fn is_empty(&self) -> (b: bool)
        ensures
            b == (self.spans@.len() == 0),
    {
        self.spans.len() == 0
    }

    /// The text without styles, suit symbols written as Unicode symbols.
    pub fn to_plain_text(&self) -> (s: String)
        ensures
            s@ == plain_text(self.spans@),
    {
        let mut out: Vec<char> = Vec::new();
        let mut i: usize = 0;
        while i < self.spans.len()
            invariant
                0 <= i <= self.spans@.len(),
                out@ == plain_text_upto(self.spans@, i as int),
            decreases self.spans@.len() - i,
        {
            let ghost before = out@;
            match &self.spans[i] {
                TextSpan::Plain(t) | TextSpan::Bold(t) | TextSpan::Italic(t) | TextSpan::BoldItalic(
                    t,
                ) => {
                    let cs = chars_of(t.as_str());
                    push_all(&mut out, &cs);
                },
                TextSpan::SuitSymbol(suit) => {
                    out.push(suit.symbol());
                },
                TextSpan::CardRef { suit, rank } => {
                    out.push(suit.symbol());
                    out.push(rank.to_char());
                },
                TextSpan::LineBreak => {
                    out.push('\n');
                },
            }
            proof {
                assert(out@ =~= before + span_text(self.spans@[i as int]));
            }
            i = i + 1;
        }
        string_of(&out)
    }
}

/// Appends all of `src` to `dst`.
pub fn push_all(dst: &mut Vec<char>, src: &Vec<char>)
    ensures
        final(dst)@ == old(dst)@ + src@,
{
    let ghost start = dst@;
    let mut i: usize = 0;
    while i < src.len()
        invariant
            0 <= i <= src@.len(),
            dst@ == start + src@.take(i as int),
        decreases src@.len() - i,
    {
        dst.push(src[i]);
        proof {
            assert(src@.take(i + 1) =~= src@.take(i as int).push(src@[i as int]));
        }
        i = i + 1;
    }
    proof {
        assert(src@.take(src@.len() as int) =~= src@);
    }
}

/// A block of commentary (the text between braces in a PBN file).
#[derive(Debug, Clone)]
pub struct CommentaryBlock {
    pub content: FormattedText,
}

impl CommentaryBlock {
    pub fn new(content: FormattedText) -> (b: CommentaryBlock)
        ensures
            b.content.spans@ == content.spans@,
    {
        CommentaryBlock { content }
    }

    pub fn is_empty(&self) -> (b: bool)
        ensures
            b == (self.content.spans@.len() == 0),
    {
        self.content.is_empty()
    }
}

} // verus!
