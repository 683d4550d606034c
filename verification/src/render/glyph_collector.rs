//! The characters each font of a document needs, so that only those glyphs
//! are embedded.

use crate::model::board::Board;
use crate::model::card::{spec_rank_char, AnnotatedCall};
use crate::model::commentary::{CommentaryBlock, FormattedText, TextSpan};
use crate::parser::commentary::{spans_view, SpanView};
use crate::text::{chars_of, decimal, push_decimal, string_of};
use vstd::prelude::*;

verus! {

/// Compass letters (sans-serif bold).
pub const COMPASS: &'static str = "NESW";

/// Ranks and the void mark of hand diagrams.
pub const HAND_RANKS: &'static str = "AKQJT98765432-";

/// Digits of point counts.
pub const HCP_DIGITS: &'static str = "0123456789";

/// The four suit symbols (sans-serif regular).
pub const SUIT_SYMBOLS: &'static str = "\u{2660}\u{2665}\u{2666}\u{2663}";

/// Bidding table headings and calls.
pub const BIDDING: &'static str = "WNESPassDblRdblAll ";

/// Contracts.
pub const CONTRACT: &'static str = "1234567NTXby ";

/// Vulnerability.
pub const VULNERABILITY: &'static str = "NoneNS-onlyEW-onlyBoth";

/// Deal and dealer labels.
pub const LABELS: &'static str = "Deal Deals";

/// The opening lead.
pub const LEAD: &'static str = "Lead: ";

/// The label of a deal number (serif bold-italic).
pub const DEAL_LABEL: &'static str = "Deal ";

/// The six fonts of a document.
#[derive(Debug, Clone, Copy, PartialEq, Eq, Structural)]
pub enum GlyphFont {
    SansRegular,
    SansBold,
    SerifRegular,
    SerifBold,
    SerifItalic,
    SerifBoldItalic,
}

/// The characters used with each font; none is listed twice.
#[derive(Debug, Clone, Default)]
pub struct GlyphSets {
    /// Suit symbols.
    pub sans_regular: Vec<char>,
    /// Compass.
    pub sans_bold: Vec<char>,
    /// Commentary, labels.
    pub serif_regular: Vec<char>,
    /// Bold commentary, point counts.
    pub serif_bold: Vec<char>,
    /// Italic commentary.
    pub serif_italic: Vec<char>,
    /// Deal numbers, bold-italic commentary.
    pub serif_bold_italic: Vec<char>,
}

/// The glyph sets as strings.
#[derive(Debug)]
pub struct GlyphStrings {
    pub sans_regular: String,
    pub sans_bold: String,
    pub serif_regular: String,
    pub serif_bold: String,
    pub serif_italic: String,
    pub serif_bold_italic: String,
}

impl GlyphSets {
    /// The characters used with font `k`.
    pub open spec fn font_set(&self, k: GlyphFont) -> Set<char> {
        match k {
            GlyphFont::SansRegular => self.sans_regular@.to_set(),
            GlyphFont::SansBold => self.sans_bold@.to_set(),
            GlyphFont::SerifRegular => self.serif_regular@.to_set(),
            GlyphFont::SerifBold => self.serif_bold@.to_set(),
            GlyphFont::SerifItalic => self.serif_italic@.to_set(),
            GlyphFont::SerifBoldItalic => self.serif_bold_italic@.to_set(),
        }
    }

    /// No character is listed twice for a font.
    pub open spec fn wf(&self) -> bool {
        &&& self.sans_regular@.no_duplicates()
        &&& self.sans_bold@.no_duplicates()
        &&& self.serif_regular@.no_duplicates()
        &&& self.serif_bold@.no_duplicates()
        &&& self.serif_italic@.no_duplicates()
        &&& self.serif_bold_italic@.no_duplicates()
    }
}

/// The characters that every document uses with font `k`.
pub open spec fn fixed_glyphs(k: GlyphFont) -> Set<char> {
    match k {
        GlyphFont::SansRegular => SUIT_SYMBOLS@.to_set(),
        GlyphFont::SansBold => COMPASS@.to_set(),
        GlyphFont::SerifRegular => HAND_RANKS@.to_set() + BIDDING@.to_set() + CONTRACT@.to_set()
            + VULNERABILITY@.to_set() + LABELS@.to_set() + LEAD@.to_set(),
        GlyphFont::SerifBold => HCP_DIGITS@.to_set(),
        GlyphFont::SerifItalic => Set::empty(),
        GlyphFont::SerifBoldItalic => HCP_DIGITS@.to_set() + DEAL_LABEL@.to_set(),
    }
}

/// The characters a commentary span needs with font `k`: plain text and the
/// ranks of card references in serif regular, bold, italic and bold-italic
/// text in their fonts (suit symbols are always there).
pub open spec fn span_glyphs(sp: SpanView, k: GlyphFont) -> Set<char> {
    match sp {
        SpanView::Plain(s) => if k == GlyphFont::SerifRegular {
            s.to_set()
        } else {
            Set::empty()
        },
        SpanView::Bold(s) => if k == GlyphFont::SerifBold {
            s.to_set()
        } else {
            Set::empty()
        },
        SpanView::Italic(s) => if k == GlyphFont::SerifItalic {
            s.to_set()
        } else {
            Set::empty()
        },
        SpanView::BoldItalic(s) => if k == GlyphFont::SerifBoldItalic {
            s.to_set()
        } else {
            Set::empty()
        },
        SpanView::CardRef(_, rank) => if k == GlyphFont::SerifRegular {
            set![spec_rank_char(rank)]
        } else {
            Set::empty()
        },
        _ => Set::empty(),
    }
}

/// The characters the first `n` spans need with font `k`.
pub open spec fn spans_glyphs(spans: Seq<SpanView>, n: int, k: GlyphFont) -> Set<char>
    decreases n,
{
    if n <= 0 {
        Set::empty()
    } else {
        spans_glyphs(spans, n - 1, k) + span_glyphs(spans[n - 1], k)
    }
}

/// The characters of the first `n` commentary blocks with font `k`.
pub open spec fn blocks_glyphs(blocks: Seq<CommentaryBlock>, n: int, k: GlyphFont) -> Set<char>
    decreases n,
{
    if n <= 0 {
        Set::empty()
    } else {
        let sv = spans_view(blocks[n - 1].content.spans@);
        blocks_glyphs(blocks, n - 1, k) + spans_glyphs(sv, sv.len() as int, k)
    }
}

/// The characters of the annotations of the first `n` calls.
pub open spec fn annotation_glyphs(calls: Seq<AnnotatedCall>, n: int) -> Set<char>
    decreases n,
{
    if n <= 0 {
        Set::empty()
    } else {
        annotation_glyphs(calls, n - 1) + match calls[n - 1].annotation {
            Some(a) => a@.to_set(),
            None => Set::empty(),
        }
    }
}

/// The characters a board needs with font `k`: its number in serif
/// bold-italic, its commentary, and the annotations of its auction in serif
/// regular.
pub open spec fn board_glyphs(b: Board, k: GlyphFont) -> Set<char> {
    (match b.number {
        Some(n) => if k == GlyphFont::SerifBoldItalic {
            decimal(n as nat).to_set()
        } else {
            Set::empty()
        },
        None => Set::empty(),
    }) + blocks_glyphs(b.commentary@, b.commentary@.len() as int, k) + (match b.auction {
        Some(a) => if k == GlyphFont::SerifRegular {
            annotation_glyphs(a.calls@, a.calls@.len() as int)
        } else {
            Set::empty()
        },
        None => Set::empty(),
    })
}

/// The characters the first `n` boards need with font `k`.
pub open spec fn boards_glyphs(boards: Seq<Board>, n: int, k: GlyphFont) -> Set<char>
    decreases n,
{
    if n <= 0 {
        Set::empty()
    } else {
        boards_glyphs(boards, n - 1, k) + board_glyphs(boards[n - 1], k)
    }
}

/// Adds `c` to `v` unless it is there.
fn insert_char(v: &mut Vec<char>, c: char)
    requires
        old(v)@.no_duplicates(),
    ensures
        final(v)@.no_duplicates(),
        final(v)@.to_set() == old(v)@.to_set().insert(c),
{
    let mut i: usize = 0;
    while i < v.len()
        invariant
            0 <= i <= v@.len(),
            v@.no_duplicates(),
            forall|j: int| 0 <= j < i ==> v@[j] != c,
        decreases v@.len() - i,
    {
        if v[i] == c {
            proof {
                assert(v@.to_set().contains(c));
                assert(v@.to_set().insert(c) =~= v@.to_set());
            }
            return;
        }
        i = i + 1;
    }
    let ghost before = v@;
    v.push(c);
    proof {
        before.lemma_push_to_set_commute(c);
        assert forall|a: int, b: int| 0 <= a < v@.len() && 0 <= b < v@.len() && a != b implies v@[a]
            != v@[b] by {
            if a < before.len() && b < before.len() {
                assert(before[a] != before[b]);
            }
        }
    }
}

/// Adds the characters of `s` to `v`, each once.
fn insert_all(v: &mut Vec<char>, s: &Vec<char>)
    requires
        old(v)@.no_duplicates(),
    ensures
        final(v)@.no_duplicates(),
        final(v)@.to_set() == old(v)@.to_set() + s@.to_set(),
{
    let ghost start = v@.to_set();
    let mut i: usize = 0;
    while i < s.len()
        invariant
            0 <= i <= s@.len(),
            v@.no_duplicates(),
            v@.to_set() == start + s@.take(i as int).to_set(),
        decreases s@.len() - i,
    {
        insert_char(v, s[i]);
        proof {
            assert(s@.take(i + 1) =~= s@.take(i as int).push(s@[i as int]));
            s@.take(i as int).lemma_push_to_set_commute(s@[i as int]);
            assert(v@.to_set() =~= start + s@.take(i + 1).to_set());
        }
        i = i + 1;
    }
    proof {
        assert(s@.take(s@.len() as int) =~= s@);
    }
}

/// Adds the characters of the text `t` to `v`, each once.
fn insert_str(v: &mut Vec<char>, t: &str)
    requires
        old(v)@.no_duplicates(),
    ensures
        final(v)@.no_duplicates(),
        final(v)@.to_set() == old(v)@.to_set() + t@.to_set(),
{
    let cs = chars_of(t);
    insert_all(v, &cs);
}

impl GlyphSets {
    /// The glyph sets with the characters that every document uses.
    pub fn with_fixed_glyphs() -> (sets: GlyphSets)
        ensures
            sets.wf(),
            forall|k: GlyphFont| #[trigger] sets.font_set(k) == fixed_glyphs(k),
    {
        let mut sets = GlyphSets {
            sans_regular: Vec::new(),
            sans_bold: Vec::new(),
            serif_regular: Vec::new(),
            serif_bold: Vec::new(),
            serif_italic: Vec::new(),
            serif_bold_italic: Vec::new(),
        };
        proof {
            assert(sets.sans_regular@.to_set() =~= Set::<char>::empty());
            assert(sets.sans_bold@.to_set() =~= Set::<char>::empty());
            assert(sets.serif_regular@.to_set() =~= Set::<char>::empty());
            assert(sets.serif_bold@.to_set() =~= Set::<char>::empty());
            assert(sets.serif_italic@.to_set() =~= Set::<char>::empty());
            assert(sets.serif_bold_italic@.to_set() =~= Set::<char>::empty());
        }
        insert_str(&mut sets.sans_regular, SUIT_SYMBOLS);
        insert_str(&mut sets.sans_bold, COMPASS);
        insert_str(&mut sets.serif_regular, HAND_RANKS);
        insert_str(&mut sets.serif_regular, BIDDING);
        insert_str(&mut sets.serif_regular, CONTRACT);
        insert_str(&mut sets.serif_regular, VULNERABILITY);
        insert_str(&mut sets.serif_regular, LABELS);
        insert_str(&mut sets.serif_regular, LEAD);
        insert_str(&mut sets.serif_bold, HCP_DIGITS);
        insert_str(&mut sets.serif_bold_italic, HCP_DIGITS);
        insert_str(&mut sets.serif_bold_italic, DEAL_LABEL);
        proof {
            assert(sets.sans_regular@.to_set() =~= fixed_glyphs(GlyphFont::SansRegular));
            assert(sets.sans_bold@.to_set() =~= fixed_glyphs(GlyphFont::SansBold));
            assert(sets.serif_regular@.to_set() =~= fixed_glyphs(GlyphFont::SerifRegular));
            assert(sets.serif_bold@.to_set() =~= fixed_glyphs(GlyphFont::SerifBold));
            assert(sets.serif_italic@.to_set() =~= fixed_glyphs(GlyphFont::SerifItalic));
            assert(sets.serif_bold_italic@.to_set() =~= fixed_glyphs(GlyphFont::SerifBoldItalic));
        }
        sets
    }

    /// The glyph sets as strings, each character once.
    pub fn to_strings(&self) -> (g: GlyphStrings)
        ensures
            g.sans_regular@ == self.sans_regular@,
            g.sans_bold@ == self.sans_bold@,
            g.serif_regular@ == self.serif_regular@,
            g.serif_bold@ == self.serif_bold@,
            g.serif_italic@ == self.serif_italic@,
            g.serif_bold_italic@ == self.serif_bold_italic@,
    {
        GlyphStrings {
            sans_regular: string_of(self.sans_regular.as_slice()),
            sans_bold: string_of(self.sans_bold.as_slice()),
            serif_regular: string_of(self.serif_regular.as_slice()),
            serif_bold: string_of(self.serif_bold.as_slice()),
            serif_italic: string_of(self.serif_italic.as_slice()),
            serif_bold_italic: string_of(self.serif_bold_italic.as_slice()),
        }
    }
}

/// Collects the characters used by a set of boards.
pub struct GlyphCollector {
    sets: GlyphSets,
}

impl GlyphCollector {
    /// The glyph sets collected so far.
    pub closed spec fn sets(&self) -> GlyphSets {
        self.sets
    }

    /// A collector holding the characters that every document uses.
    pub fn new() -> (c: GlyphCollector)
        ensures
            c.sets().wf(),
            forall|k: GlyphFont| #[trigger] c.sets().font_set(k) == fixed_glyphs(k),
    {
        GlyphCollector { sets: GlyphSets::with_fixed_glyphs() }
    }

    /// Adds the characters that the boards need.
    pub fn collect_from_boards(&mut self, boards: &[Board])
        requires
            old(self).sets().wf(),
        ensures
            final(self).sets().wf(),
            forall|k: GlyphFont|
                #[trigger] final(self).sets().font_set(k) == old(self).sets().font_set(k)
                    + boards_glyphs(boards@, boards@.len() as int, k),
    {
        let ghost start = self.sets;
        let mut i: usize = 0;
        while i < boards.len()
            invariant
                0 <= i <= boards@.len(),
                self.sets.wf(),
                forall|k: GlyphFont|
                    #[trigger] self.sets.font_set(k) == start.font_set(k) + boards_glyphs(
                        boards@,
                        i as int,
                        k,
                    ),
            decreases boards@.len() - i,
        {
            let ghost before = self.sets;
            self.collect_from_board(&boards[i]);
            proof {
                assert forall|k: GlyphFont| #[trigger] self.sets.font_set(k) == start.font_set(k)
                    + boards_glyphs(boards@, i + 1, k) by {
                    assert(self.sets.font_set(k) =~= start.font_set(k) + boards_glyphs(
                        boards@,
                        i + 1,
                        k,
                    ));
                }
            }
            i = i + 1;
        }
        proof {
            assert forall|k: GlyphFont| #[trigger] self.sets.font_set(k) == start.font_set(k)
                + boards_glyphs(boards@, boards@.len() as int, k) by {}
        }
    }

    /// Adds the characters that one board needs.
    fn collect_from_board(&mut self, board: &Board)
        requires
            old(self).sets.wf(),
        ensures
            final(self).sets.wf(),
            forall|k: GlyphFont|
                #[trigger] final(self).sets.font_set(k) == old(self).sets.font_set(k) + board_glyphs(
                    *board,
                    k,
                ),
    {
        let ghost start = self.sets;
        match board.number {
            Some(n) => {
                let mut digits: Vec<char> = Vec::new();
                push_decimal(&mut digits, n as u64);
                proof {
                    assert(digits@ =~= decimal(n as nat));
                }
                insert_all(&mut self.sets.serif_bold_italic, &digits);
            },
            None => {},
        }
        let ghost after_number = self.sets;
        proof {
            assert forall|k: GlyphFont| #[trigger] after_number.font_set(k) == start.font_set(k) + (
            match board.number {
                Some(n) => if k == GlyphFont::SerifBoldItalic {
                    decimal(n as nat).to_set()
                } else {
                    Set::empty()
                },
                None => Set::empty(),
            }) by {
                assert(after_number.font_set(k) =~= start.font_set(k) + (match board.number {
                    Some(n) => if k == GlyphFont::SerifBoldItalic {
                        decimal(n as nat).to_set()
                    } else {
                        Set::empty()
                    },
                    None => Set::empty(),
                }));
            }
        }
        let mut j: usize = 0;
        while j < board.commentary.len()
            invariant
                0 <= j <= board.commentary@.len(),
                self.sets.wf(),
                forall|k: GlyphFont|
                    #[trigger] self.sets.font_set(k) == after_number.font_set(k) + blocks_glyphs(
                        board.commentary@,
                        j as int,
                        k,
                    ),
            decreases board.commentary@.len() - j,
        {
            self.collect_from_commentary(&board.commentary[j]);
            proof {
                assert forall|k: GlyphFont| #[trigger] self.sets.font_set(k) == after_number.font_set(
                    k,
                ) + blocks_glyphs(board.commentary@, j + 1, k) by {
                    assert(self.sets.font_set(k) =~= after_number.font_set(k) + blocks_glyphs(
                        board.commentary@,
                        j + 1,
                        k,
                    ));
                }
            }
            j = j + 1;
        }
        let ghost after_blocks = self.sets;
        proof {
            assert(blocks_glyphs(board.commentary@, j as int, GlyphFont::SansRegular) == blocks_glyphs(
                board.commentary@,
                board.commentary@.len() as int,
                GlyphFont::SansRegular,
            ));
        }
        match &board.auction {
            Some(auction) => {
                let mut c: usize = 0;
                while c < auction.calls.len()
                    invariant
                        0 <= c <= auction.calls@.len(),
                        self.sets.wf(),
                        self.sets.sans_regular == after_blocks.sans_regular,
                        self.sets.sans_bold == after_blocks.sans_bold,
                        self.sets.serif_bold == after_blocks.serif_bold,
                        self.sets.serif_italic == after_blocks.serif_italic,
                        self.sets.serif_bold_italic == after_blocks.serif_bold_italic,
                        self.sets.serif_regular@.to_set() == after_blocks.serif_regular@.to_set()
                            + annotation_glyphs(auction.calls@, c as int),
                    decreases auction.calls@.len() - c,
                {
                    match &auction.calls[c].annotation {
                        Some(a) => {
                            insert_str(&mut self.sets.serif_regular, a.as_str());
                        },
                        None => {},
                    }
                    proof {
                        assert(self.sets.serif_regular@.to_set() =~= after_blocks.serif_regular@.to_set()
                            + annotation_glyphs(auction.calls@, c + 1));
                    }
                    c = c + 1;
                }
            },
            None => {},
        }
        proof {
            assert forall|k: GlyphFont| #[trigger] self.sets.font_set(k) == start.font_set(k)
                + board_glyphs(*board, k) by {
                let np = match board.number {
                    Some(n) => if k == GlyphFont::SerifBoldItalic {
                        decimal(n as nat).to_set()
                    } else {
                        Set::empty()
                    },
                    None => Set::empty(),
                };
                let bp = blocks_glyphs(board.commentary@, board.commentary@.len() as int, k);
                let ap = match board.auction {
                    Some(a) => if k == GlyphFont::SerifRegular {
                        annotation_glyphs(a.calls@, a.calls@.len() as int)
                    } else {
                        Set::empty()
                    },
                    None => Set::empty(),
                };
                assert(after_number.font_set(k) == start.font_set(k) + np);
                assert(after_blocks.font_set(k) == after_number.font_set(k) + bp);
                assert(self.sets.font_set(k) == after_blocks.font_set(k) + ap);
                assert(self.sets.font_set(k) =~= start.font_set(k) + board_glyphs(*board, k));
            }
        }
    }

    /// Adds the characters of a commentary block.
    fn collect_from_commentary(&mut self, block: &CommentaryBlock)
        requires
            old(self).sets.wf(),
        ensures
            final(self).sets.wf(),
            forall|k: GlyphFont|
                #[trigger] final(self).sets.font_set(k) == old(self).sets.font_set(k) + spans_glyphs(
                    spans_view(block.content.spans@),
                    block.content.spans@.len() as int,
                    k,
                ),
    {
        self.collect_from_formatted_text(&block.content);
    }

    /// Adds the characters of formatted text.
    fn collect_from_formatted_text(&mut self, text: &FormattedText)
        requires
            old(self).sets.wf(),
        ensures
            final(self).sets.wf(),
            forall|k: GlyphFont|
                #[trigger] final(self).sets.font_set(k) == old(self).sets.font_set(k) + spans_glyphs(
                    spans_view(text.spans@),
                    text.spans@.len() as int,
                    k,
                ),
    {
        let ghost start = self.sets;
        let ghost sv = spans_view(text.spans@);
        let mut i: usize = 0;
        while i < text.spans.len()
            invariant
                0 <= i <= text.spans@.len(),
                sv == spans_view(text.spans@),
                self.sets.wf(),
                forall|k: GlyphFont|
                    #[trigger] self.sets.font_set(k) == start.font_set(k) + spans_glyphs(
                        sv,
                        i as int,
                        k,
                    ),
            decreases text.spans@.len() - i,
        {
            let ghost before = self.sets;
            match &text.spans[i] {
                TextSpan::Plain(s) => insert_str(&mut self.sets.serif_regular, s.as_str()),
                TextSpan::Bold(s) => insert_str(&mut self.sets.serif_bold, s.as_str()),
                TextSpan::Italic(s) => insert_str(&mut self.sets.serif_italic, s.as_str()),
                TextSpan::BoldItalic(s) => insert_str(&mut self.sets.serif_bold_italic, s.as_str()),
                TextSpan::SuitSymbol(_) => {},
                TextSpan::CardRef { rank, .. } => {
                    insert_char(&mut self.sets.serif_regular, rank.to_char());
                },
                TextSpan::LineBreak => {},
            }
            proof {
                assert(sv[i as int] == text.spans@[i as int]@);
                assert forall|k: GlyphFont| #[trigger] self.sets.font_set(k) == start.font_set(k)
                    + spans_glyphs(sv, i + 1, k) by {
                    assert(self.sets.font_set(k) =~= before.font_set(k) + span_glyphs(sv[i as int], k));
                    assert(self.sets.font_set(k) =~= start.font_set(k) + spans_glyphs(sv, i + 1, k));
                }
            }
            i = i + 1;
        }
    }

    /// The glyph sets collected.
    pub fn into_sets(self) -> (s: GlyphSets)
        ensures
            s == self.sets(),
    {
        self.sets
    }

    /// The glyph sets collected, as strings.
    pub fn into_strings(self) -> (g: GlyphStrings)
        ensures
            g.sans_regular@ == self.sets().sans_regular@,
            g.sans_bold@ == self.sets().sans_bold@,
            g.serif_regular@ == self.sets().serif_regular@,
            g.serif_bold@ == self.sets().serif_bold@,
            g.serif_italic@ == self.sets().serif_italic@,
            g.serif_bold_italic@ == self.sets().serif_bold_italic@,
    {
        self.sets.to_strings()
    }
}

} // verus!
