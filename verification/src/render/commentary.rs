//! Breaking commentary into the word groups and spaces that are laid out on
//! lines. Suit symbols start "card lists" (such as `♣K J 10`) whose
//! cards are kept together with the symbol.

use crate::model::card::{spec_rank_from_char, spec_suit_symbol, Rank, Suit};
use crate::model::commentary::TextSpan;
use crate::parser::commentary::{spans_view, SpanView};
use crate::parser::tags::{is_alphabetic, spec_is_alphabetic};
use crate::text::{chars_of, is_whitespace, is_ws, string_of};
use vstd::prelude::*;

verus! {

/// The suit whose Unicode symbol is `c`.
pub open spec fn spec_suit_from_symbol(c: char) -> Option<Suit> {
    if c == '\u{2660}' {
        Some(Suit::Spades)
    } else if c == '\u{2665}' {
        Some(Suit::Hearts)
    } else if c == '\u{2666}' {
        Some(Suit::Diamonds)
    } else if c == '\u{2663}' {
        Some(Suit::Clubs)
    } else {
        None
    }
}

/// The suit whose Unicode symbol (♠ ♥ ♦ ♣) is `c`.
pub fn suit_from_symbol(c: char) -> (s: Option<Suit>)
    ensures
        s == spec_suit_from_symbol(c),
{
    if c == '\u{2660}' {
        Some(Suit::Spades)
    } else if c == '\u{2665}' {
        Some(Suit::Hearts)
    } else if c == '\u{2666}' {
        Some(Suit::Diamonds)
    } else if c == '\u{2663}' {
        Some(Suit::Clubs)
    } else {
        None
    }
}

/// Reading the symbol of a suit gives back the suit.
pub proof fn law_suit_symbol_roundtrip(s: Suit)
    ensures
        spec_suit_from_symbol(spec_suit_symbol(s)) == Some(s),
{
}

/// A card in a card list: an upper-case rank letter (A K Q J T), a digit
/// 2-9, or `x` for a low card.
pub open spec fn spec_is_card_char(c: char) -> bool {
    c == 'x' || ((('A' <= c && c <= 'Z') || ('0' <= c && c <= '9')) && spec_rank_from_char(c)
        is Some)
}

/// Whether `c` is a card in a card list: an upper-case rank letter, a digit
/// 2-9, or `x` for a low card.
pub fn is_card_char(c: char) -> (b: bool)
    ensures
        b == spec_is_card_char(c),
{
    c == 'x' || ((('A' <= c && c <= 'Z') || ('0' <= c && c <= '9')) && Rank::from_char(c).is_some())
}

/// Whether `c` is a card character (used for the word just read).
pub fn is_rank_char(c: char) -> (b: bool)
    ensures
        b == spec_is_card_char(c),
{
    is_card_char(c)
}

/// Position of the first non-whitespace character of `s` at or after `i`.
pub open spec fn first_non_ws(s: Seq<char>, i: int) -> Option<int>
    decreases s.len() - i,
{
    if i < 0 || i >= s.len() {
        None
    } else if !is_ws(s[i]) {
        Some(i)
    } else {
        first_non_ws(s, i + 1)
    }
}

/// `c` stands as a card of its own before the characters `next`: it is a
/// card character, and the next non-whitespace character, if any, is not a
/// letter that is no card (which would make `c` the start of a word such as
/// "Joker").
pub open spec fn spec_standalone(c: char, next: Seq<char>) -> bool {
    spec_is_card_char(c) && match first_non_ws(next, 0) {
        Some(p) => !(spec_is_alphabetic(next[p]) && !spec_is_card_char(next[p])),
        None => true,
    }
}

proof fn lemma_first_non_ws_shift(s: Seq<char>, start: int, j: int)
    requires
        0 <= start <= j <= s.len(),
        forall|m: int| start <= m < j ==> is_ws(#[trigger] s[m]),
    ensures
        first_non_ws(s.subrange(start, s.len() as int), 0) == (match first_non_ws(s, j) {
            Some(p) => Some(p - start),
            None => None,
        }),
    decreases j - start,
{
    let t = s.subrange(start, s.len() as int);
    lemma_first_non_ws_sub(s, start, 0, j);
}

proof fn lemma_first_non_ws_sub(s: Seq<char>, start: int, k: int, j: int)
    requires
        0 <= start <= j <= s.len(),
        0 <= k <= j - start,
        forall|m: int| start <= m < j ==> is_ws(#[trigger] s[m]),
    ensures
        first_non_ws(s.subrange(start, s.len() as int), k) == (match first_non_ws(s, j) {
            Some(p) => Some(p - start),
            None => None,
        }),
    decreases j - start - k, s.len() - j,
{
    let t = s.subrange(start, s.len() as int);
    if k < j - start {
        assert(t[k] == s[start + k]);
        assert(is_ws(s[start + k]));
        lemma_first_non_ws_sub(s, start, k + 1, j);
    } else {
        // k == j - start
        if j < s.len() {
            assert(t[k] == s[j]);
            if is_ws(s[j]) {
                assert forall|m: int| start <= m < j + 1 implies is_ws(#[trigger] s[m]) by {
                    if m < j {
                    }
                }
                lemma_first_non_ws_sub(s, start, k + 1, j + 1);
            }
        }
    }
}

/// `c` followed by `v[start..]` stands as a card of its own.
fn standalone_from(c: char, v: &[char], start: usize) -> (b: bool)
    requires
        start <= v@.len(),
    ensures
        b == spec_standalone(c, v@.subrange(start as int, v@.len() as int)),
{
    if !is_card_char(c) {
        return false;
    }
    let n = v.len();
    let mut j = start;
    while j < n && is_whitespace(v[j])
        invariant
            start <= j <= n,
            n == v@.len(),
            forall|m: int| start <= m < j ==> is_ws(#[trigger] v@[m]),
        decreases n - j,
    {
        j = j + 1;
    }
    proof {
        lemma_first_non_ws_shift(v@, start as int, j as int);
        if j < n {
            assert(first_non_ws(v@, j as int) == Some(j as int));
            assert(v@.subrange(start as int, n as int)[j - start] == v@[j as int]);
        } else {
            assert(first_non_ws(v@, j as int) is None);
        }
    }
    if j < n {
        let d = v[j];
        if is_alphabetic(d) && !is_card_char(d) {
            return false;
        }
    }
    true
}

/// Whether `c`, followed by `next_chars`, stands as a card of its own in a
/// card list: it is a card character and does not start a word such as "Joker".
pub fn is_rank_char_standalone(c: char, next_chars: &[char]) -> (b: bool)
    ensures
        b == spec_standalone(c, next_chars@),
{
    proof {
        assert(next_chars@.subrange(0, next_chars@.len() as int) =~= next_chars@);
    }
    standalone_from(c, next_chars, 0)
}

/// The style of a piece of text.
#[derive(Debug, Clone, Copy, PartialEq, Eq, Structural)]
pub enum TextStyle {
    Plain,
    Bold,
    Italic,
    BoldItalic,
    Underline,
}

/// An atomic piece of laid-out text.
#[derive(Debug, Clone, PartialEq, Eq)]
pub enum RenderFragment {
    Text { text: String, style: TextStyle },
    SuitSymbol(Suit),
    CardRef { suit: Suit, rank: Rank },
}

/// Fragments that are kept together on a line.
#[derive(Debug, Clone, PartialEq, Eq)]
pub struct WordGroup {
    pub fragments: Vec<RenderFragment>,
}

/// A word group, a space between groups, or a line break.
#[derive(Debug, Clone, PartialEq, Eq)]
pub enum RenderToken {
    WordGroup(WordGroup),
    Space,
    LineBreak,
}

pub enum FragView {
    Text(Seq<char>, TextStyle),
    Suit(Suit),
    Card(Suit, Rank),
}

pub enum TokenView {
    Group(Seq<FragView>),
    Space,
    LineBreak,
}

pub open spec fn frag_view(f: RenderFragment) -> FragView {
    match f {
        RenderFragment::Text { text, style } => FragView::Text(text@, style),
        RenderFragment::SuitSymbol(s) => FragView::Suit(s),
        RenderFragment::CardRef { suit, rank } => FragView::Card(suit, rank),
    }
}

pub open spec fn frags_view(fs: Seq<RenderFragment>) -> Seq<FragView> {
    fs.map_values(|f: RenderFragment| frag_view(f))
}

pub open spec fn token_view(t: RenderToken) -> TokenView {
    match t {
        RenderToken::WordGroup(g) => TokenView::Group(frags_view(g.fragments@)),
        RenderToken::Space => TokenView::Space,
        RenderToken::LineBreak => TokenView::LineBreak,
    }
}

pub open spec fn tokens_view(ts: Seq<RenderToken>) -> Seq<TokenView> {
    ts.map_values(|t: RenderToken| token_view(t))
}

/// Where tokenizing stands: the tokens so far, the group being built, and
/// whether a card list is open.
#[verifier::ext_equal]
pub struct TokState {
    pub tokens: Seq<TokenView>,
    pub group: Seq<FragView>,
    pub in_card_list: bool,
}

/// Ends the group being built (if it has fragments) and the card list.
pub open spec fn flush_group(st: TokState) -> TokState {
    TokState {
        tokens: if st.group.len() > 0 {
            st.tokens.push(TokenView::Group(st.group))
        } else {
            st.tokens
        },
        group: seq![],
        in_card_list: false,
    }
}

/// Adds the word read so far to the group. When `at_space`, the card list
/// goes on only if the word is a single card character.
pub open spec fn push_word(st: TokState, word: Seq<char>, style: TextStyle, at_space: bool) -> TokState {
    if word.len() == 0 {
        st
    } else {
        TokState {
            group: st.group.push(FragView::Text(word, style)),
            in_card_list: if at_space {
                st.in_card_list && word.len() == 1 && spec_is_card_char(word[0])
            } else {
                st.in_card_list
            },
            ..st
        }
    }
}

/// Whether a space at `i` in a card list keeps the list going: the next
/// non-whitespace character stands as a card.
pub open spec fn card_list_goes_on(s: Seq<char>, i: int) -> bool {
    match first_non_ws(s, i + 1) {
        Some(p) => spec_standalone(s[p], s.subrange(p + 1, s.len() as int)),
        None => false,
    }
}

/// The characters `s[i..]` of a text span of style `style`, read with the
/// word `word` pending. Whitespace ends a word; inside a card list whose
/// next card follows it is kept in the group, otherwise it ends the group
/// and gives a space. A suit symbol joins the group and opens a card list.
pub open spec fn text_from(s: Seq<char>, i: int, style: TextStyle, st: TokState, word: Seq<char>) -> TokState
    decreases s.len() - i,
{
    if i < 0 || i >= s.len() {
        push_word(st, word, style, true)
    } else if is_ws(s[i]) {
        let st1 = push_word(st, word, style, true);
        if st1.in_card_list && card_list_goes_on(s, i) {
            text_from(
                s,
                i + 1,
                style,
                TokState { group: st1.group.push(FragView::Text(seq![' '], style)), ..st1 },
                seq![],
            )
        } else {
            let f = flush_group(st1);
            text_from(s, i + 1, style, TokState { tokens: f.tokens.push(TokenView::Space), ..f }, seq![])
        }
    } else {
        match spec_suit_from_symbol(s[i]) {
            Some(suit) => {
                let st1 = push_word(st, word, style, false);
                text_from(
                    s,
                    i + 1,
                    style,
                    TokState { group: st1.group.push(FragView::Suit(suit)), in_card_list: true, ..st1 },
                    seq![],
                )
            },
            None => text_from(s, i + 1, style, st, word.push(s[i])),
        }
    }
}

/// One span read at state `st`.
pub open spec fn span_step(st: TokState, sp: SpanView) -> TokState {
    match sp {
        SpanView::Plain(s) => text_from(s, 0, TextStyle::Plain, st, seq![]),
        SpanView::Bold(s) => text_from(s, 0, TextStyle::Bold, st, seq![]),
        SpanView::Italic(s) => text_from(s, 0, TextStyle::Italic, st, seq![]),
        SpanView::BoldItalic(s) => text_from(s, 0, TextStyle::BoldItalic, st, seq![]),
        SpanView::SuitSymbol(suit) => TokState {
            group: st.group.push(FragView::Suit(suit)),
            in_card_list: true,
            ..st
        },
        SpanView::CardRef(suit, rank) => TokState {
            group: st.group.push(FragView::Card(suit, rank)),
            in_card_list: true,
            ..st
        },
        SpanView::LineBreak => {
            let f = flush_group(st);
            TokState { tokens: f.tokens.push(TokenView::LineBreak), ..f }
        },
    }
}

/// The state after the spans `spans[i..]`.
pub open spec fn spans_from(spans: Seq<SpanView>, i: int, st: TokState) -> TokState
    decreases spans.len() - i,
{
    if i < 0 || i >= spans.len() {
        st
    } else {
        spans_from(spans, i + 1, span_step(st, spans[i]))
    }
}

/// The tokens of a span list: the spans read in order, the last group closed.
pub open spec fn spec_tokenize(spans: Seq<SpanView>) -> Seq<TokenView> {
    flush_group(spans_from(spans, 0, TokState { tokens: seq![], group: seq![], in_card_list: false })).tokens
}

/// The builder of the token list.
struct Tokenizer {
    tokens: Vec<RenderToken>,
    group: Vec<RenderFragment>,
    in_card_list: bool,
}

impl Tokenizer {
    closed spec fn state(&self) -> TokState {
        TokState {
            tokens: tokens_view(self.tokens@),
            group: frags_view(self.group@),
            in_card_list: self.in_card_list,
        }
    }

    fn flush_group(&mut self)
        ensures
            final(self).state() == flush_group(old(self).state()),
    {
        if self.group.len() > 0 {
            let ghost before = self.tokens@;
            let ghost g = self.group@;
            let mut fragments: Vec<RenderFragment> = Vec::new();
            std::mem::swap(&mut fragments, &mut self.group);
            let t = RenderToken::WordGroup(WordGroup { fragments });
            self.tokens.push(t);
            proof {
                assert(tokens_view(self.tokens@) =~= tokens_view(before).push(
                    TokenView::Group(frags_view(g)),
                ));
                assert(frags_view(self.group@) =~= Seq::<FragView>::empty());
            }
        } else {
            proof {
                assert(frags_view(self.group@) =~= Seq::<FragView>::empty());
            }
        }
        self.in_card_list = false;
    }

    fn push_fragment(&mut self, f: RenderFragment)
        ensures
            final(self).tokens@ == old(self).tokens@,
            final(self).in_card_list == old(self).in_card_list,
            frags_view(final(self).group@) == frags_view(old(self).group@).push(frag_view(f)),
    {
        let ghost before = self.group@;
        self.group.push(f);
        proof {
            assert(frags_view(self.group@) =~= frags_view(before).push(frag_view(f)));
        }
    }

    fn push_token(&mut self, t: RenderToken)
        ensures
            tokens_view(final(self).tokens@) == tokens_view(old(self).tokens@).push(token_view(t)),
            final(self).group@ == old(self).group@,
            final(self).in_card_list == old(self).in_card_list,
    {
        let ghost before = self.tokens@;
        self.tokens.push(t);
        proof {
            assert(tokens_view(self.tokens@) =~= tokens_view(before).push(token_view(t)));
        }
    }

    fn push_word(&mut self, word: &mut Vec<char>, style: TextStyle, at_space: bool)
        ensures
            final(self).state() == push_word(old(self).state(), old(word)@, style, at_space),
            final(word)@.len() == 0,
    {
        if word.len() > 0 {
            let single = word.len() == 1 && is_rank_char(word[0]);
            let text = string_of(word.as_slice());
            self.push_fragment(RenderFragment::Text { text, style });
            if at_space && !(single && self.in_card_list) {
                self.in_card_list = false;
            }
            *word = Vec::new();
        }
    }

    fn text(&mut self, s: &String, style: TextStyle)
        ensures
            final(self).state() == text_from(s@, 0, style, old(self).state(), seq![]),
    {
        let chars = chars_of(s.as_str());
        let n = chars.len();
        let mut word: Vec<char> = Vec::new();
        let mut i: usize = 0;
        while i < n
            invariant
                0 <= i <= n,
                n == chars@.len(),
                chars@ == s@,
                text_from(s@, 0, style, old(self).state(), seq![]) == text_from(
                    s@,
                    i as int,
                    style,
                    self.state(),
                    word@,
                ),
            decreases n - i,
        {
            let c = chars[i];
            let ghost st0 = self.state();
            let ghost w0 = word@;
            proof {
                assert(chars@[i as int] == s@[i as int]);
            }
            if is_whitespace(c) {
                self.push_word(&mut word, style, true);
                proof {
                    assert(word@ =~= Seq::<char>::empty());
                }
                let ghost st1 = self.state();
                let mut stay = false;
                if self.in_card_list {
                    let mut p = i + 1;
                    while p < n && is_whitespace(chars[p])
                        invariant
                            i + 1 <= p <= n,
                            n == chars@.len(),
                            first_non_ws(chars@, i + 1) == first_non_ws(chars@, p as int),
                        decreases n - p,
                    {
                        p = p + 1;
                    }
                    if p < n {
                        stay = standalone_from(chars[p], chars.as_slice(), p + 1);
                    }
                    proof {
                        assert(card_list_goes_on(s@, i as int) == stay);
                    }
                }
                proof {
                    assert(stay == (st1.in_card_list && card_list_goes_on(s@, i as int)));
                }
                if stay {
                    let space = vec![' '];
                    let sp = string_of(space.as_slice());
                    proof {
                        assert(sp@ =~= seq![' ']);
                    }
                    self.push_fragment(RenderFragment::Text { text: sp, style });
                    proof {
                        assert(self.state() =~= TokState {
                            group: st1.group.push(FragView::Text(seq![' '], style)),
                            ..st1
                        });
                    }
                } else {
                    self.flush_group();
                    let ghost f = self.state();
                    self.push_token(RenderToken::Space);
                    proof {
                        assert(self.state() =~= TokState { tokens: f.tokens.push(TokenView::Space), ..f });
                    }
                }
                proof {
                    assert(text_from(s@, i as int, style, st0, w0) == text_from(
                        s@,
                        i + 1,
                        style,
                        self.state(),
                        word@,
                    ));
                }
            } else {
                match suit_from_symbol(c) {
                    Some(suit) => {
                        self.push_word(&mut word, style, false);
                        proof {
                            assert(word@ =~= Seq::<char>::empty());
                        }
                        let ghost st1 = self.state();
                        self.push_fragment(RenderFragment::SuitSymbol(suit));
                        self.in_card_list = true;
                        proof {
                            assert(self.state() =~= TokState {
                                group: st1.group.push(FragView::Suit(suit)),
                                in_card_list: true,
                                ..st1
                            });
                        }
                    },
                    None => {
                        word.push(c);
                    },
                }
            }
            i = i + 1;
        }
        self.push_word(&mut word, style, true);
    }

    fn span(&mut self, sp: &TextSpan)
        ensures
            final(self).state() == span_step(old(self).state(), sp@),
    {
        match sp {
            TextSpan::Plain(s) => self.text(s, TextStyle::Plain),
            TextSpan::Bold(s) => self.text(s, TextStyle::Bold),
            TextSpan::Italic(s) => self.text(s, TextStyle::Italic),
            TextSpan::BoldItalic(s) => self.text(s, TextStyle::BoldItalic),
            TextSpan::SuitSymbol(suit) => {
                self.push_fragment(RenderFragment::SuitSymbol(*suit));
                self.in_card_list = true;
            },
            TextSpan::CardRef { suit, rank } => {
                self.push_fragment(RenderFragment::CardRef { suit: *suit, rank: *rank });
                self.in_card_list = true;
            },
            TextSpan::LineBreak => {
                self.flush_group();
                self.push_token(RenderToken::LineBreak);
            },
        }
    }
}

/// Breaks commentary spans into word groups, spaces and line breaks. The
/// width of each group is the sum of the widths of its fragments.
pub fn tokenize_spans(spans: &[TextSpan]) -> (tokens: Vec<RenderToken>)
    ensures
        tokens_view(tokens@) == spec_tokenize(spans_view(spans@)),
{
    let mut tk = Tokenizer { tokens: Vec::new(), group: Vec::new(), in_card_list: false };
    proof {
        assert(tk.state().tokens =~= Seq::<TokenView>::empty());
        assert(tk.state().group =~= Seq::<FragView>::empty());
    }
    let ghost sv = spans_view(spans@);
    let ghost init = tk.state();
    proof {
        assert(init =~= TokState { tokens: seq![], group: seq![], in_card_list: false });
    }
    let mut i: usize = 0;
    while i < spans.len()
        invariant
            0 <= i <= spans@.len(),
            sv == spans_view(spans@),
            spans_from(sv, 0, init) == spans_from(sv, i as int, tk.state()),
        decreases spans@.len() - i,
    {
        proof {
            assert(sv[i as int] == spans@[i as int]@);
        }
        tk.span(&spans[i]);
        i = i + 1;
    }
    tk.flush_group();
    tk.tokens
}

} // verus!
