//! Commentary: `{...}` blocks with `<b>`, `<i>` and suit escapes.

use crate::model::card::{
    law_rank_char_roundtrip, spec_rank_char, spec_rank_from_char, spec_suit_letter, Rank, Suit,
};
use crate::model::commentary::{CommentaryBlock, FormattedText, TextSpan};
use crate::text::{ascii_ci, chars_of, occurs_at, starts_with_at, string_of, string_of_range};
use vstd::prelude::*;

verus! {

/// A span as a mathematical value: styles over character sequences.
pub enum SpanView {
    Plain(Seq<char>),
    Bold(Seq<char>),
    Italic(Seq<char>),
    BoldItalic(Seq<char>),
    SuitSymbol(Suit),
    CardRef(Suit, Rank),
    LineBreak,
}

impl View for TextSpan {
    type V = SpanView;

    open spec fn view(&self) -> SpanView {
        match self {
            TextSpan::Plain(s) => SpanView::Plain(s@),
            TextSpan::Bold(s) => SpanView::Bold(s@),
            TextSpan::Italic(s) => SpanView::Italic(s@),
            TextSpan::BoldItalic(s) => SpanView::BoldItalic(s@),
            TextSpan::SuitSymbol(suit) => SpanView::SuitSymbol(*suit),
            TextSpan::CardRef { suit, rank } => SpanView::CardRef(*suit, *rank),
            TextSpan::LineBreak => SpanView::LineBreak,
        }
    }
}

/// The views of a span list.
pub open spec fn spans_view(spans: Seq<TextSpan>) -> Seq<SpanView> {
    spans.map_values(|t: TextSpan| t@)
}

/// Outcome of parsing formatted text.
pub enum FmtOutcome {
    Done(Seq<SpanView>),
    /// `<b>` (true) or `<i>` (false) without its closing tag.
    Unclosed(bool),
}

/// The first position at or after `from` where `t` occurs in `s`.
pub open spec fn find_from(s: Seq<char>, t: Seq<char>, from: int) -> Option<int>
    decreases s.len() + 1 - from,
{
    if from < 0 || from + t.len() > s.len() {
        None
    } else if occurs_at(s, t, from) {
        Some(from)
    } else {
        find_from(s, t, from + 1)
    }
}

/// The suit that an escape letter `S`, `H`, `D`, `C` (either case) names.
pub open spec fn escape_suit(c: char) -> Option<Suit> {
    if c == 'S' || c == 's' {
        Some(Suit::Spades)
    } else if c == 'H' || c == 'h' {
        Some(Suit::Hearts)
    } else if c == 'D' || c == 'd' {
        Some(Suit::Diamonds)
    } else if c == 'C' || c == 'c' {
        Some(Suit::Clubs)
    } else {
        None
    }
}

/// Pending plain text becomes a span of its own.
pub open spec fn flush(buf: Seq<char>, spans: Seq<SpanView>) -> Seq<SpanView> {
    if buf.len() > 0 {
        spans.push(SpanView::Plain(buf))
    } else {
        spans
    }
}

pub open spec fn open_b() -> Seq<char> {
    seq!['<', 'b', '>']
}

pub open spec fn close_b() -> Seq<char> {
    seq!['<', '/', 'b', '>']
}

pub open spec fn open_i() -> Seq<char> {
    seq!['<', 'i', '>']
}

pub open spec fn close_i() -> Seq<char> {
    seq!['<', '/', 'i', '>']
}

pub open spec fn para_lf() -> Seq<char> {
    seq!['\n', '\n']
}

pub open spec fn para_crlf() -> Seq<char> {
    seq!['\r', '\n', '\r', '\n']
}

pub open spec fn crlf() -> Seq<char> {
    seq!['\r', '\n']
}

/// Formatted text from position `pos` on, with pending plain text `buf` and
/// spans `spans` so far.
///
/// - `<b>...</b>` and `<i>...</i>` give bold and italic spans (the text up to
///   the first closing tag);
/// - `\S` `\H` `\D` `\C` (either case) give a suit symbol, or a card reference
///   when a rank character follows;
/// - `\n` (backslash, n) and a blank line give line breaks (two for a blank line);
/// - a single line end reads as a space unless the pending text ends in one;
/// - any other escape is kept as written; everything else is plain text.
pub open spec fn fmt_run(s: Seq<char>, pos: int, buf: Seq<char>, spans: Seq<SpanView>) -> FmtOutcome
    decreases s.len() - pos,
{
    if pos < 0 || pos >= s.len() {
        FmtOutcome::Done(flush(buf, spans))
    } else if occurs_at(s, open_b(), pos) {
        match find_from(s, close_b(), pos) {
            None => FmtOutcome::Unclosed(true),
            Some(j) => {
                proof {
                    lemma_find_from_found(s, close_b(), pos);
                }
                fmt_run(
                    s,
                    j + 4,
                    seq![],
                    flush(buf, spans).push(SpanView::Bold(s.subrange(pos + 3, j))),
                )
            },
        }
    } else if occurs_at(s, open_i(), pos) {
        match find_from(s, close_i(), pos) {
            None => FmtOutcome::Unclosed(false),
            Some(j) => {
                proof {
                    lemma_find_from_found(s, close_i(), pos);
                }
                fmt_run(
                    s,
                    j + 4,
                    seq![],
                    flush(buf, spans).push(SpanView::Italic(s.subrange(pos + 3, j))),
                )
            },
        }
    } else if s[pos] == '\\' && pos + 1 < s.len() {
        let c = s[pos + 1];
        match escape_suit(c) {
            Some(suit) => if pos + 2 < s.len() && spec_rank_from_char(s[pos + 2]) is Some {
                fmt_run(
                    s,
                    pos + 3,
                    seq![],
                    flush(buf, spans).push(
                        SpanView::CardRef(suit, spec_rank_from_char(s[pos + 2]).unwrap()),
                    ),
                )
            } else {
                fmt_run(s, pos + 2, seq![], flush(buf, spans).push(SpanView::SuitSymbol(suit)))
            },
            None => if c == 'n' {
                fmt_run(s, pos + 2, seq![], flush(buf, spans).push(SpanView::LineBreak))
            } else {
                fmt_run(s, pos + 2, buf + seq!['\\', c], spans)
            },
        }
    } else if occurs_at(s, para_lf(), pos) || occurs_at(s, para_crlf(), pos) {
        fmt_run(
            s,
            pos + (if occurs_at(s, para_crlf(), pos) {
                4int
            } else {
                2int
            }),
            seq![],
            flush(buf, spans).push(SpanView::LineBreak).push(SpanView::LineBreak),
        )
    } else if s[pos] == '\n' || occurs_at(s, crlf(), pos) {
        fmt_run(
            s,
            pos + (if occurs_at(s, crlf(), pos) {
                2int
            } else {
                1int
            }),
            if buf.len() > 0 && buf.last() != ' ' {
                buf.push(' ')
            } else {
                buf
            },
            spans,
        )
    } else {
        fmt_run(s, pos + 1, buf.push(s[pos]), spans)
    }
}

/// The parse of formatted text `s`.
pub open spec fn spec_formatted(s: Seq<char>) -> FmtOutcome {
    fmt_run(s, 0, seq![], seq![])
}

/// The error message for an unclosed tag.
pub open spec fn unclosed_message(bold: bool) -> Seq<char> {
    if bold {
        seq!['U', 'n', 'c', 'l', 'o', 's', 'e', 'd', ' ', '<', 'b', '>', ' ', 't', 'a', 'g']
    } else {
        seq!['U', 'n', 'c', 'l', 'o', 's', 'e', 'd', ' ', '<', 'i', '>', ' ', 't', 'a', 'g']
    }
}

/// The first position at or after `from` where `t` (of length 4) occurs in `v`.
fn find_from_exec(v: &Vec<char>, t: &[char], from: usize) -> (r: Option<usize>)
    requires
        from <= v@.len(),
        t@.len() > 0,
    ensures
        match r {
            Some(j) => find_from(v@, t@, from as int) == Some(j as int),
            None => find_from(v@, t@, from as int) is None,
        },
{
    let mut j = from;
    while j <= v.len() && t.len() <= v.len() - j
        invariant
            from <= j,
            t@.len() > 0,
            find_from(v@, t@, from as int) == find_from(v@, t@, j as int),
        decreases v@.len() - j + 1,
    {
        if starts_with_at(v, j, t) {
            return Some(j);
        }
        j = j + 1;
    }
    None
}

fn flush_exec(buf: &mut Vec<char>, text: &mut FormattedText)
    ensures
        final(buf)@ == Seq::<char>::empty(),
        spans_view(final(text).spans@) == flush(old(buf)@, spans_view(old(text).spans@)),
{
    if buf.len() > 0 {
        let s = string_of(buf.as_slice());
        let ghost before = text.spans@;
        text.push(TextSpan::Plain(s));
        proof {
            assert(spans_view(text.spans@) =~= spans_view(before).push(SpanView::Plain(old(buf)@)));
        }
    }
    *buf = Vec::new();
}

fn push_span(text: &mut FormattedText, span: TextSpan)
    ensures
        spans_view(final(text).spans@) == spans_view(old(text).spans@).push(span@),
{
    let ghost before = text.spans@;
    text.push(span);
    proof {
        assert(spans_view(text.spans@) =~= spans_view(before).push(span@));
    }
}

fn escape_suit_exec(c: char) -> (r: Option<Suit>)
    ensures
        r == escape_suit(c),
{
    if c == 'S' || c == 's' {
        Some(Suit::Spades)
    } else if c == 'H' || c == 'h' {
        Some(Suit::Hearts)
    } else if c == 'D' || c == 'd' {
        Some(Suit::Diamonds)
    } else if c == 'C' || c == 'c' {
        Some(Suit::Clubs)
    } else {
        None
    }
}

/// Parses formatted text with HTML-like tags and suit escapes.
pub fn parse_formatted_text(input: &str) -> (r: Result<FormattedText, String>)
    ensures
        match r {
            Ok(t) => spec_formatted(input@) == FmtOutcome::Done(spans_view(t.spans@)),
            Err(e) => exists|b: bool|
                spec_formatted(input@) == FmtOutcome::Unclosed(b) && e@ == unclosed_message(b),
        },
{
    let v = chars_of(input);
    formatted_of_chars(&v)
}

/// Parses the formatted text `v`.
pub(crate) fn formatted_of_chars(v: &Vec<char>) -> (r: Result<FormattedText, String>)
    ensures
        match r {
            Ok(t) => spec_formatted(v@) == FmtOutcome::Done(spans_view(t.spans@)),
            Err(e) => exists|b: bool|
                spec_formatted(v@) == FmtOutcome::Unclosed(b) && e@ == unclosed_message(b),
        },
{
    let ghost input = v@;
    let ob = ['<', 'b', '>'];
    let cb = ['<', '/', 'b', '>'];
    let oi = ['<', 'i', '>'];
    let ci = ['<', '/', 'i', '>'];
    let lflf = ['\n', '\n'];
    let crlfcrlf = ['\r', '\n', '\r', '\n'];
    let crlf2 = ['\r', '\n'];
    proof {
        assert(ob@ =~= open_b());
        assert(cb@ =~= close_b());
        assert(oi@ =~= open_i());
        assert(ci@ =~= close_i());
        assert(lflf@ =~= para_lf());
        assert(crlfcrlf@ =~= para_crlf());
        assert(crlf2@ =~= crlf());
    }
    let mut text = FormattedText::new();
    let mut buf: Vec<char> = Vec::new();
    let mut pos: usize = 0;
    proof {
        assert(spans_view(text.spans@) =~= Seq::<SpanView>::empty());
    }
    while pos < v.len()
        invariant
            0 <= pos <= v@.len(),
            v@ == input,
            ob@ == open_b(),
            cb@ == close_b(),
            oi@ == open_i(),
            ci@ == close_i(),
            lflf@ == para_lf(),
            crlfcrlf@ == para_crlf(),
            crlf2@ == crlf(),
            spec_formatted(v@) == fmt_run(v@, pos as int, buf@, spans_view(text.spans@)),
        decreases v@.len() - pos,
    {
        let ghost p0 = pos as int;
        let ghost b0 = buf@;
        let ghost s0 = spans_view(text.spans@);
        if starts_with_at(v, pos, &ob) {
            match find_from_exec(v, &cb, pos) {
                None => {
                    proof {
                        reveal_strlit("Unclosed <b> tag");
                        assert(fmt_run(v@, p0, b0, s0) == FmtOutcome::Unclosed(true));
                    }
                    let e = String::from_str("Unclosed <b> tag");
                    proof {
                        assert(e@ =~= unclosed_message(true));
                    }
                    return Err(e);
                },
                Some(end) => {
                    proof {
                        lemma_close_after_open(v@, cb@, ob@, pos as int);
                        lemma_find_from_found(v@, cb@, pos as int);
                    }
                    flush_exec(&mut buf, &mut text);
                    let content = string_of_range(v, pos + 3, end);
                    push_span(&mut text, TextSpan::Bold(content));
                    pos = end + 4;
                    proof {
                        assert(fmt_run(v@, p0, b0, s0) == fmt_run(v@, pos as int, buf@, spans_view(text.spans@)));
                    }
                },
            }
        } else if starts_with_at(v, pos, &oi) {
            match find_from_exec(v, &ci, pos) {
                None => {
                    proof {
                        reveal_strlit("Unclosed <i> tag");
                        assert(fmt_run(v@, p0, b0, s0) == FmtOutcome::Unclosed(false));
                    }
                    let e = String::from_str("Unclosed <i> tag");
                    proof {
                        assert(e@ =~= unclosed_message(false));
                    }
                    return Err(e);
                },
                Some(end) => {
                    proof {
                        lemma_close_after_open(v@, ci@, oi@, pos as int);
                        lemma_find_from_found(v@, ci@, pos as int);
                    }
                    flush_exec(&mut buf, &mut text);
                    let content = string_of_range(v, pos + 3, end);
                    push_span(&mut text, TextSpan::Italic(content));
                    pos = end + 4;
                    proof {
                        assert(fmt_run(v@, p0, b0, s0) == fmt_run(v@, pos as int, buf@, spans_view(text.spans@)));
                    }
                },
            }
        } else if v[pos] == '\\' && pos + 1 < v.len() {
            let c = v[pos + 1];
            match escape_suit_exec(c) {
                Some(suit) => {
                    flush_exec(&mut buf, &mut text);
                    let mut done = false;
                    if pos + 2 < v.len() {
                        match Rank::from_pbn_char(v[pos + 2]) {
                            Some(rank) => {
                                push_span(&mut text, TextSpan::CardRef { suit, rank });
                                pos = pos + 3;
                                done = true;
                            },
                            None => {},
                        }
                    }
                    if !done {
                        push_span(&mut text, TextSpan::SuitSymbol(suit));
                        pos = pos + 2;
                    }
                    proof {
                        assert(fmt_run(v@, p0, b0, s0) == fmt_run(v@, pos as int, buf@, spans_view(text.spans@)));
                    }
                },
                None => {
                    if c == 'n' {
                        flush_exec(&mut buf, &mut text);
                        push_span(&mut text, TextSpan::LineBreak);
                    } else {
                        buf.push('\\');
                        buf.push(c);
                        proof {
                            assert(buf@ =~= b0 + seq!['\\', c]);
                        }
                    }
                    pos = pos + 2;
                    proof {
                        assert(fmt_run(v@, p0, b0, s0) == fmt_run(v@, pos as int, buf@, spans_view(text.spans@)));
                    }
                },
            }
        } else if starts_with_at(v, pos, &lflf) || starts_with_at(v, pos, &crlfcrlf) {
            flush_exec(&mut buf, &mut text);
            push_span(&mut text, TextSpan::LineBreak);
            push_span(&mut text, TextSpan::LineBreak);
            if starts_with_at(v, pos, &crlfcrlf) {
                pos = pos + 4;
            } else {
                pos = pos + 2;
            }
                    proof {
                        assert(fmt_run(v@, p0, b0, s0) == fmt_run(v@, pos as int, buf@, spans_view(text.spans@)));
                    }
        } else if v[pos] == '\n' || starts_with_at(v, pos, &crlf2) {
            if buf.len() > 0 && buf[buf.len() - 1] != ' ' {
                buf.push(' ');
            }
            if starts_with_at(v, pos, &crlf2) {
                pos = pos + 2;
            } else {
                pos = pos + 1;
            }
                    proof {
                        assert(fmt_run(v@, p0, b0, s0) == fmt_run(v@, pos as int, buf@, spans_view(text.spans@)));
                    }
        } else {
            buf.push(v[pos]);
            pos = pos + 1;
        }
        proof {
            assert(fmt_run(v@, p0, b0, s0) == fmt_run(v@, pos as int, buf@, spans_view(text.spans@)));
        }
    }
    flush_exec(&mut buf, &mut text);
    Ok(text)
}

/// A closing tag is found only past the opening tag.
proof fn lemma_close_after_open(s: Seq<char>, close: Seq<char>, open: Seq<char>, pos: int)
    requires
        close.len() == 4,
        close[0] == '<',
        close[1] == '/',
        open.len() == 3,
        open[0] == '<',
        open[1] != '/',
        open[1] != '<',
        open[2] == '>',
        occurs_at(s, open, pos),
        find_from(s, close, pos) is Some,
    ensures
        find_from(s, close, pos) == find_from(s, close, pos + 3),
        find_from(s, close, pos).unwrap() >= pos + 3,
{
    assert(s[pos + 1] == open[1]) by {
        assert(s.subrange(pos, pos + 3)[1] == s[pos + 1]);
    }
    assert(s[pos + 2] == open[2]) by {
        assert(s.subrange(pos, pos + 3)[2] == s[pos + 2]);
    }
    lemma_find_from_found(s, close, pos);
    if pos + 4 <= s.len() {
        assert(!occurs_at(s, close, pos)) by {
            assert(s.subrange(pos, pos + 4)[1] == s[pos + 1]);
        }
    }
    if pos + 5 <= s.len() {
        assert(!occurs_at(s, close, pos + 1)) by {
            assert(s.subrange(pos + 1, pos + 5)[0] == s[pos + 1]);
        }
    }
    if pos + 6 <= s.len() {
        assert(!occurs_at(s, close, pos + 2)) by {
            assert(s.subrange(pos + 2, pos + 6)[0] == s[pos + 2]);
        }
    }
    assert forall|m: int| pos <= m < pos + 3 implies !occurs_at(s, close, m) by {
        if m + 4 <= s.len() {
            if m == pos {
                assert(s.subrange(pos, pos + 4)[1] == s[pos + 1]);
            } else if m == pos + 1 {
                assert(s.subrange(pos + 1, pos + 5)[0] == s[pos + 1]);
            } else {
                assert(s.subrange(pos + 2, pos + 6)[0] == s[pos + 2]);
            }
        }
    }
    lemma_find_from_skip(s, close, pos, pos + 3);
    lemma_find_from_found(s, close, pos);
    let j = find_from(s, close, pos).unwrap();
    if j < pos + 3 {
        assert(!occurs_at(s, close, j));
    }
}

/// A position that `find_from` returns holds an occurrence at or after the start.
pub proof fn lemma_find_from_found(s: Seq<char>, t: Seq<char>, from: int)
    requires
        find_from(s, t, from) is Some,
    ensures
        from <= find_from(s, t, from).unwrap(),
        occurs_at(s, t, find_from(s, t, from).unwrap()),
        forall|k: int|
            from <= k < find_from(s, t, from).unwrap() ==> !occurs_at(s, t, k),
    decreases s.len() + 1 - from,
{
    if !occurs_at(s, t, from) {
        lemma_find_from_found(s, t, from + 1);
    }
}

/// A position past which `t` does not occur before `k` has the same search result as `k`.
pub proof fn lemma_find_from_skip(s: Seq<char>, t: Seq<char>, from: int, k: int)
    requires
        0 <= from <= k,
        forall|m: int| from <= m < k ==> !occurs_at(s, t, m),
        find_from(s, t, from) is Some,
    ensures
        find_from(s, t, from) == find_from(s, t, k),
    decreases k - from,
{
    lemma_find_from_found(s, t, from);
    if from < k {
        assert(!occurs_at(s, t, from));
        lemma_find_from_skip(s, t, from + 1, k);
    }
}

/// Parses a commentary block's text.
pub fn parse_commentary(input: &str) -> (r: Result<CommentaryBlock, String>)
    ensures
        match r {
            Ok(b) => spec_formatted(input@) == FmtOutcome::Done(spans_view(b.content.spans@)),
            Err(e) => exists|b: bool|
                spec_formatted(input@) == FmtOutcome::Unclosed(b) && e@ == unclosed_message(b),
        },
{
    match parse_formatted_text(input) {
        Ok(content) => Ok(CommentaryBlock::new(content)),
        Err(e) => Err(e),
    }
}

/// A backslash and a suit's letter, in either case, read as that suit's
/// symbol: `\C` is the clubs symbol, `\h` the hearts symbol.
pub proof fn law_suit_escape(suit: Suit, c: char)
    requires
        ascii_ci(c, spec_suit_letter(suit)),
    ensures
        spec_formatted(seq!['\\', c]) == FmtOutcome::Done(seq![SpanView::SuitSymbol(suit)]),
{
    let s = seq!['\\', c];
    reveal_with_fuel(fmt_run, 3);
    assert(!occurs_at(s, open_b(), 0));
    assert(!occurs_at(s, open_i(), 0));
    assert(escape_suit(c) == Some(suit));
    assert(flush(seq![], seq![]).push(SpanView::SuitSymbol(suit)) =~= seq![SpanView::SuitSymbol(suit)]);
}

/// A backslash, a suit's letter (either case) and a rank's character read as
/// a reference to that card: `\SQ` is the queen of spades.
pub proof fn law_card_escape(suit: Suit, c: char, rank: Rank)
    requires
        ascii_ci(c, spec_suit_letter(suit)),
    ensures
        spec_formatted(seq!['\\', c, spec_rank_char(rank)]) == FmtOutcome::Done(
            seq![SpanView::CardRef(suit, rank)],
        ),
{
    let s = seq!['\\', c, spec_rank_char(rank)];
    reveal_with_fuel(fmt_run, 3);
    law_rank_char_roundtrip(rank);
    assert(s.subrange(0, 3)[0] == '\\');
    assert(!occurs_at(s, open_b(), 0));
    assert(!occurs_at(s, open_i(), 0));
    assert(escape_suit(c) == Some(suit));
    assert(flush(seq![], seq![]).push(SpanView::CardRef(suit, rank)) =~= seq![SpanView::CardRef(suit, rank)]);
}

/// Only a suit's own letter escapes to that suit's symbol: when a backslash
/// and `c` read as the symbol of `suit`, `c` is that suit's letter in one case
/// or the other.
pub proof fn law_suit_escape_names_its_suit(suit: Suit, c: char)
    requires
        spec_formatted(seq!['\\', c]) == FmtOutcome::Done(seq![SpanView::SuitSymbol(suit)]),
    ensures
        ascii_ci(c, spec_suit_letter(suit)),
{
    let s = seq!['\\', c];
    reveal_with_fuel(fmt_run, 3);
    assert(!occurs_at(s, open_b(), 0));
    assert(!occurs_at(s, open_i(), 0));
    match escape_suit(c) {
        Some(x) => {
            assert(flush(seq![], seq![]).push(SpanView::SuitSymbol(x)) =~= seq![SpanView::SuitSymbol(x)]);
            assert(spec_formatted(s) == FmtOutcome::Done(seq![SpanView::SuitSymbol(x)]));
            assert(seq![SpanView::SuitSymbol(x)][0] == seq![SpanView::SuitSymbol(suit)][0]);
            assert(x == suit);
        },
        None => {
            if c == 'n' {
                assert(flush(seq![], seq![]).push(SpanView::LineBreak) =~= seq![SpanView::LineBreak]);
                assert(seq![SpanView::LineBreak][0] != seq![SpanView::SuitSymbol(suit)][0]);
            } else {
                let p = seq!['\\', c];
                assert(seq![] + seq!['\\', c] =~= p);
                assert(flush(p, seq![]) =~= seq![SpanView::Plain(p)]);
                assert(seq![SpanView::Plain(p)][0] != seq![SpanView::SuitSymbol(suit)][0]);
            }
        },
    }
}

/// Text without markup: no tag, no escape, no line end.
pub open spec fn unmarked(s: Seq<char>) -> bool {
    forall|i: int|
        0 <= i < s.len() ==> #[trigger] s[i] != '<' && s[i] != '\\' && s[i] != '\n' && s[i] != '\r'
}

proof fn lemma_unmarked_run(s: Seq<char>, i: int)
    requires
        unmarked(s),
        0 <= i <= s.len(),
    ensures
        fmt_run(s, i, s.take(i), seq![]) == FmtOutcome::Done(flush(s, seq![])),
    decreases s.len() - i,
{
    if i < s.len() {
        assert(s[i] != '<');
        assert(!occurs_at(s, open_b(), i)) by {
            if occurs_at(s, open_b(), i) {
                assert(s.subrange(i, i + 3)[0] == s[i]);
            }
        }
        assert(!occurs_at(s, open_i(), i)) by {
            if occurs_at(s, open_i(), i) {
                assert(s.subrange(i, i + 3)[0] == s[i]);
            }
        }
        assert(!occurs_at(s, para_lf(), i)) by {
            if occurs_at(s, para_lf(), i) {
                assert(s.subrange(i, i + 2)[0] == s[i]);
            }
        }
        assert(!occurs_at(s, para_crlf(), i)) by {
            if occurs_at(s, para_crlf(), i) {
                assert(s.subrange(i, i + 4)[0] == s[i]);
            }
        }
        assert(!occurs_at(s, crlf(), i)) by {
            if occurs_at(s, crlf(), i) {
                assert(s.subrange(i, i + 2)[0] == s[i]);
            }
        }
        assert(s.take(i).push(s[i]) =~= s.take(i + 1));
        lemma_unmarked_run(s, i + 1);
    } else {
        assert(s.take(i) =~= s);
    }
}

/// Text without markup reads back as itself: one plain span holding it.
pub proof fn law_unmarked_text(s: Seq<char>)
    requires
        unmarked(s),
        s.len() > 0,
    ensures
        spec_formatted(s) == FmtOutcome::Done(seq![SpanView::Plain(s)]),
{
    lemma_unmarked_run(s, 0);
    assert(s.take(0) =~= Seq::<char>::empty());
}

/// Text holding no `<` between `<b>` and `</b>` reads as one bold span of
/// that text, and between `<i>` and `</i>` as one italic span.
pub proof fn law_tagged_text(t: Seq<char>, bold: bool)
    requires
        forall|i: int| 0 <= i < t.len() ==> t[i] != '<',
    ensures
        spec_formatted(
            if bold {
                open_b() + t + close_b()
            } else {
                open_i() + t + close_i()
            },
        ) == FmtOutcome::Done(
            seq![
                if bold {
                    SpanView::Bold(t)
                } else {
                    SpanView::Italic(t)
                },
            ],
        ),
{
    let open = if bold {
        open_b()
    } else {
        open_i()
    };
    let close = if bold {
        close_b()
    } else {
        close_i()
    };
    let s = open + t + close;
    let e: int = 3 + t.len() as int;
    assert(s.len() == e + 4);
    assert(s.subrange(0, 3) =~= open);
    assert(occurs_at(s, open, 0));
    if !bold {
        assert(!occurs_at(s, open_b(), 0)) by {
            assert(s.subrange(0, 3)[1] == 'i');
        }
    }
    assert(s.subrange(e, e + 4) =~= close);
    assert(occurs_at(s, close, e));
    assert forall|m: int| 0 <= m < e implies !occurs_at(s, close, m) by {
        if m + 4 <= s.len() {
            assert(s.subrange(m, m + 4)[0] == s[m]);
            assert(s.subrange(m, m + 4)[1] == s[m + 1]);
            if m >= 3 {
                assert(s[m] == t[m - 3]);
            } else if m == 0 {
                assert(s[1] == open[1]);
            } else {
                assert(s[m] == open[m]);
            }
        }
    }
    if 0 < e {
        assert(!occurs_at(s, close, 0));
    }
    lemma_find_from_to(s, close, 0, e);
    assert(s.subrange(3, e) =~= t);
    assert(flush(seq![], seq![]) =~= Seq::<SpanView>::empty());
    let sp = if bold {
        SpanView::Bold(t)
    } else {
        SpanView::Italic(t)
    };
    assert(fmt_run(s, e + 4, seq![], seq![sp]) == FmtOutcome::Done(flush(seq![], seq![sp])));
    assert(flush(seq![], seq![sp]) =~= seq![sp]);
    assert(Seq::<SpanView>::empty().push(sp) =~= seq![sp]);
}

/// `find_from` from `from` finds `t` at `e` when it occurs there and nowhere
/// between.
proof fn lemma_find_from_to(s: Seq<char>, t: Seq<char>, from: int, e: int)
    requires
        0 <= from <= e,
        occurs_at(s, t, e),
        forall|m: int| from <= m < e ==> !occurs_at(s, t, m),
    ensures
        find_from(s, t, from) == Some(e),
    decreases e - from,
{
    if from < e {
        assert(!occurs_at(s, t, from));
        lemma_find_from_to(s, t, from + 1, e);
    }
}

/// The first position of `c` in `s`.
pub open spec fn first_index(s: Seq<char>, c: char) -> Option<int> {
    if exists|i: int| 0 <= i < s.len() && s[i] == c {
        Some(choose|i: int| 0 <= i < s.len() && s[i] == c && forall|j: int| 0 <= j < i ==> s[j] != c)
    } else {
        None
    }
}

/// The last position of `c` in `s`.
pub open spec fn last_index(s: Seq<char>, c: char) -> Option<int> {
    if exists|i: int| 0 <= i < s.len() && s[i] == c {
        Some(choose|i: int| 0 <= i < s.len() && s[i] == c && forall|j: int| i < j < s.len() ==> s[j] != c)
    } else {
        None
    }
}

/// The text between the first `{` and the last `}`, and what follows that
/// `}`; nothing when either is missing or the `}` comes first.
pub open spec fn spec_extract(s: Seq<char>) -> Option<(Seq<char>, Seq<char>)> {
    match (first_index(s, '{'), last_index(s, '}')) {
        (Some(a), Some(b)) => if b > a {
            Some((s.subrange(a + 1, b), s.subrange(b + 1, s.len() as int)))
        } else {
            None
        },
        _ => None,
    }
}

/// Positions of the first `{` and of the last `}` of `v`, when that `}` comes
/// after that `{`.
pub(crate) fn extract_range(v: &Vec<char>) -> (r: Option<(usize, usize)>)
    ensures
        match r {
            Some((a, b)) => a < b < v@.len() && spec_extract(v@) == Some(
                (v@.subrange(a + 1, b as int), v@.subrange(b + 1, v@.len() as int)),
            ),
            None => spec_extract(v@) is None,
        },
{
    let n = v.len();
    let mut start: usize = 0;
    while start < n && v[start] != '{'
        invariant
            0 <= start <= n,
            n == v@.len(),
            forall|j: int| 0 <= j < start ==> v@[j] != '{',
        decreases n - start,
    {
        start = start + 1;
    }
    if start == n {
        return None;
    }
    let mut end: usize = n;
    while end > 0 && v[end - 1] != '}'
        invariant
            0 <= end <= n,
            n == v@.len(),
            forall|j: int| end <= j < n ==> v@[j] != '}',
        decreases end,
    {
        end = end - 1;
    }
    proof {
        let s = v@;
        assert(s[start as int] == '{');
        let a = first_index(s, '{').unwrap();
        assert(a == start) by {
            if a < start {
                assert(s[a] != '{');
            }
            if a > start {
                assert(s[start as int] != '{');
            }
        }
    }
    if end == 0 {
        return None;
    }
    let e = end - 1;
    proof {
        let s = v@;
        assert(s[e as int] == '}');
        let b = last_index(s, '}').unwrap();
        assert(b == e) by {
            if b < e {
                assert(s[e as int] != '}');
            }
            if b > e {
                assert(s[b] != '}');
            }
        }
    }
    if e > start {
        Some((start, e))
    } else {
        None
    }
}

/// Text put between braces is extracted again, with nothing after it,
/// provided it holds no brace itself.
pub proof fn law_braces_roundtrip(t: Seq<char>)
    requires
        forall|i: int| 0 <= i < t.len() ==> #[trigger] t[i] != '{' && t[i] != '}',
    ensures
        spec_extract(seq!['{'] + t + seq!['}']) == Some((t, Seq::<char>::empty())),
{
    let s = seq!['{'] + t + seq!['}'];
    let n = s.len() as int;
    assert(s[0] == '{');
    assert(s[n - 1] == '}');
    assert forall|j: int| 1 <= j < n - 1 implies s[j] != '{' && s[j] != '}' by {
        assert(s[j] == t[j - 1]);
    }
    let a = first_index(s, '{').unwrap();
    assert(a == 0) by {
        if a > 0 {
            assert(s[0] != '{');
        }
    }
    let b = last_index(s, '}').unwrap();
    assert(b == n - 1) by {
        if b < n - 1 {
            assert(s[n - 1] != '}');
        }
    }
    assert(s.subrange(1, n - 1) =~= t);
    assert(s.subrange(n, n) =~= Seq::<char>::empty());
}

/// Extracts the commentary text between braces, and what follows the closing brace.
pub fn extract_commentary(input: &str) -> (r: Option<(&str, &str)>)
    ensures
        match r {
            Some((a, b)) => spec_extract(input@) == Some((a@, b@)),
            None => spec_extract(input@) is None,
        },
{
    let v = chars_of(input);
    match extract_range(&v) {
        Some((start, e)) => {
            let inner = input.substring_char(start + 1, e);
            let rest = input.substring_char(e + 1, v.len());
            Some((inner, rest))
        },
        None => None,
    }
}
} // verus!
