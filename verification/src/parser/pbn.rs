//! Reading a whole PBN file: its boards, line by line and tag by tag.

use crate::error::PbnError;
use crate::model::auction::{Auction, Contract};
use crate::model::board::{spec_vulnerability_from_pbn, Board, Vulnerability};
use crate::model::card::{spec_advance, spec_direction_from_char, AnnotatedCall, Call, Card, Direction, Suit};
use crate::model::commentary::CommentaryBlock;
use crate::model::deal::{hand_of, Deal};
use crate::model::hand::{holding_of, Hand};
use crate::model::play::{PlaySequence, Trick};
use crate::parser::auction::{auction_of_chars, auction_parse, calls_of, passed_out};
use crate::parser::commentary::{
    extract_range, first_index, formatted_of_chars, spans_view, spec_extract, spec_formatted,
    FmtOutcome, SpanView,
};
use crate::parser::deal::{deal_has, deal_of_chars, deal_parse, hand_view, void_view, HandView};
use crate::parser::play::{play_of_chars, play_parse, trick_cards};
use crate::parser::tags::{tag_at, tag_at_exec, TagPair};
use crate::text::{
    chars_of, contains_char, i8_parse, join_chars, join_with, lines_of, parse_i8_range,
    parse_u32_range, split_lines, string_of, string_of_range, sub_chars, trim, trim_bounds,
    u32_parse, u8_parse, views,
};
use vstd::prelude::*;

verus! {

// ------------------------------------------------------------------ models

/// What an auction holds: the dealer, each call with its annotation,
/// whether it was passed out, and its notes by number.
#[verifier::ext_equal]
pub struct AuctionModel {
    pub dealer: Direction,
    pub calls: Seq<(Call, Option<Seq<char>>)>,
    pub passed_out: bool,
    pub notes: Map<u8, Seq<char>>,
}

/// What a play record holds: the opening leader and, for each trick, its
/// leader, its four cards and its winner.
#[verifier::ext_equal]
pub struct PlayModel {
    pub leader: Direction,
    pub tricks: Seq<(Direction, Seq<Option<Card>>, Option<Direction>)>,
}

/// What a board holds, each text as its characters and the deal as the
/// four hands North, East, South, West.
#[verifier::ext_equal]
pub struct BoardModel {
    pub number: Option<u32>,
    pub event: Option<Seq<char>>,
    pub site: Option<Seq<char>>,
    pub date: Option<Seq<char>>,
    pub dealer: Option<Direction>,
    pub vulnerable: Vulnerability,
    pub deal: Seq<HandView>,
    pub auction: Option<AuctionModel>,
    pub contract: Option<Contract>,
    pub declarer: Option<Direction>,
    pub play: Option<PlayModel>,
    pub result: Option<i8>,
    pub commentary: Seq<Seq<SpanView>>,
}

pub open spec fn text_of(o: Option<String>) -> Option<Seq<char>> {
    match o {
        Some(s) => Some(s@),
        None => None,
    }
}

pub open spec fn auction_model(a: Auction) -> AuctionModel {
    AuctionModel {
        dealer: a.dealer,
        calls: a.calls@.map_values(|c: AnnotatedCall| (c.call, text_of(c.annotation))),
        passed_out: a.is_passed_out,
        notes: a.notes@.map_values(|s: String| s@),
    }
}

pub open spec fn play_model(p: PlaySequence) -> PlayModel {
    PlayModel {
        leader: p.opening_leader,
        tricks: p.tricks@.map_values(|t: Trick| (t.leader, t.cards@, t.winner)),
    }
}

/// The hands of a deal: North, East, South, West.
pub open spec fn deal_model(d: Deal) -> Seq<HandView> {
    seq![hand_view(d.north), hand_view(d.east), hand_view(d.south), hand_view(d.west)]
}

pub open spec fn board_model(b: Board) -> BoardModel {
    BoardModel {
        number: b.number,
        event: text_of(b.event),
        site: text_of(b.site),
        date: text_of(b.date),
        dealer: b.dealer,
        vulnerable: b.vulnerable,
        deal: deal_model(b.deal),
        auction: match b.auction {
            Some(a) => Some(auction_model(a)),
            None => None,
        },
        contract: b.contract,
        declarer: b.declarer,
        play: match b.play {
            Some(p) => Some(play_model(p)),
            None => None,
        },
        result: b.result,
        commentary: b.commentary@.map_values(|c: CommentaryBlock| spans_view(c.content.spans@)),
    }
}

pub open spec fn boards_model(bs: Seq<Board>) -> Seq<BoardModel> {
    bs.map_values(|b: Board| board_model(b))
}

// ------------------------------------------------------------ what is read

pub open spec fn empty_hand() -> HandView {
    (void_view(), void_view(), void_view(), void_view())
}

/// A new board with the given event and nothing else.
pub open spec fn empty_board(event: Option<Seq<char>>) -> BoardModel {
    BoardModel {
        number: None,
        event,
        site: None,
        date: None,
        dealer: None,
        vulnerable: Vulnerability::Neither,
        deal: seq![empty_hand(), empty_hand(), empty_hand(), empty_hand()],
        auction: None,
        contract: None,
        declarer: None,
        play: None,
        result: None,
        commentary: seq![],
    }
}

/// The auction that the text `text` of an auction section records.
pub open spec fn auction_read(dealer: Direction, text: Seq<char>) -> AuctionModel {
    AuctionModel {
        dealer,
        calls: auction_parse(text).map_values(|c: Call| (c, None::<Seq<char>>)),
        passed_out: passed_out(auction_parse(text)),
        notes: Map::empty(),
    }
}

/// The play that the text `text` of a play section records.
pub open spec fn play_read(leader: Direction, text: Seq<char>) -> PlayModel {
    PlayModel {
        leader,
        tricks: play_parse(text).map_values(
            |cs: Seq<Option<Card>>| (leader, cs, None::<Direction>),
        ),
    }
}

/// Position of a seat in the order North, East, South, West.
pub open spec fn dir_index(d: Direction) -> int {
    match d {
        Direction::North => 0,
        Direction::East => 1,
        Direction::South => 2,
        Direction::West => 3,
    }
}

/// The hands `hs`, given clockwise from `first`, put in the order North,
/// East, South, West.
pub open spec fn seated(first: Direction, hs: Seq<HandView>) -> Seq<HandView> {
    Seq::new(4, |i: int| hs[(i - dir_index(first) + 4) % 4])
}

/// The seat given by the first character of a tag value.
pub open spec fn first_direction(value: Seq<char>) -> Option<Direction> {
    if value.len() > 0 {
        spec_direction_from_char(value[0])
    } else {
        None
    }
}

/// A note value `N:text`: the note number before the first colon and the
/// text after it.
pub open spec fn note_parse(value: Seq<char>) -> Option<(u8, Seq<char>)> {
    match first_index(value, ':') {
        None => None,
        Some(k) => match u8_parse(value.take(k)) {
            Some(n) => Some((n, value.skip(k + 1))),
            None => None,
        },
    }
}

/// A tag that sets something on the current board.
pub open spec fn board_tag(b: BoardModel, name: Seq<char>, value: Seq<char>) -> BoardModel {
    if name == "Site"@ {
        if value.len() > 0 {
            BoardModel { site: Some(value), ..b }
        } else {
            b
        }
    } else if name == "Date"@ {
        if value.len() > 0 {
            BoardModel { date: Some(value), ..b }
        } else {
            b
        }
    } else if name == "Board"@ {
        match u32_parse(value) {
            Some(n) => BoardModel { number: Some(n), ..b },
            None => b,
        }
    } else if name == "Dealer"@ {
        match first_direction(value) {
            Some(d) => BoardModel { dealer: Some(d), ..b },
            None => b,
        }
    } else if name == "Vulnerable"@ {
        match spec_vulnerability_from_pbn(value) {
            Some(v) => BoardModel { vulnerable: v, ..b },
            None => b,
        }
    } else if name == "Deal"@ {
        match deal_parse(value) {
            Ok((first, hs)) => BoardModel { deal: seated(first, hs), ..b },
            Err(_) => b,
        }
    } else if name == "Declarer"@ {
        match first_direction(value) {
            Some(d) => BoardModel { declarer: Some(d), ..b },
            None => b,
        }
    } else if name == "Result"@ {
        match i8_parse(value) {
            Some(r) => BoardModel { result: Some(r), ..b },
            None => b,
        }
    } else if name == "Note"@ {
        match (note_parse(value), b.auction) {
            (Some((n, t)), Some(a)) => BoardModel {
                auction: Some(AuctionModel { notes: a.notes.insert(n, t), ..a }),
                ..b
            },
            _ => b,
        }
    } else {
        b
    }
}

/// Where the reading of a file stands after some lines.
#[verifier::ext_equal]
pub struct ScanState {
    /// The boards completed so far.
    pub boards: Seq<BoardModel>,
    /// The board being read.
    pub current: Option<BoardModel>,
    pub in_auction: bool,
    pub auction_dealer: Option<Direction>,
    pub auction_lines: Seq<Seq<char>>,
    pub in_play: bool,
    pub play_leader: Option<Direction>,
    pub play_lines: Seq<Seq<char>>,
    pub in_commentary: bool,
    pub commentary_lines: Seq<Seq<char>>,
}

pub open spec fn initial_scan() -> ScanState {
    ScanState {
        boards: seq![],
        current: None,
        in_auction: false,
        auction_dealer: None,
        auction_lines: seq![],
        in_play: false,
        play_leader: None,
        play_lines: seq![],
        in_commentary: false,
        commentary_lines: seq![],
    }
}

/// A tag pair `[name "value"]` read at state `st`: `Event` starts a new
/// board, `Auction` and `Play` open their sections, the others set a field
/// of the current board.
pub open spec fn tag_step(st: ScanState, name: Seq<char>, value: Seq<char>) -> ScanState {
    if name == "Event"@ {
        ScanState {
            boards: match st.current {
                Some(b) => st.boards.push(b),
                None => st.boards,
            },
            current: Some(
                empty_board(
                    if value.len() > 0 {
                        Some(value)
                    } else {
                        None
                    },
                ),
            ),
            ..st
        }
    } else if name == "Auction"@ {
        ScanState {
            in_auction: true,
            in_play: false,
            auction_dealer: match first_direction(value) {
                Some(d) => Some(d),
                None => st.auction_dealer,
            },
            ..st
        }
    } else if name == "Play"@ {
        ScanState {
            in_play: true,
            in_auction: false,
            play_leader: match first_direction(value) {
                Some(d) => Some(d),
                None => st.play_leader,
            },
            ..st
        }
    } else {
        match st.current {
            Some(b) => ScanState { current: Some(board_tag(b, name, value)), ..st },
            None => st,
        }
    }
}

/// Closes an auction section that has lines: its lines joined with spaces
/// give the auction of the current board, when there is a board and a dealer.
pub open spec fn finish_auction(st: ScanState) -> ScanState {
    if st.in_auction && st.auction_lines.len() > 0 {
        ScanState {
            current: match (st.current, st.auction_dealer) {
                (Some(b), Some(d)) => Some(
                    BoardModel {
                        auction: Some(auction_read(d, join_with(st.auction_lines, seq![' ']))),
                        ..b
                    },
                ),
                _ => st.current,
            },
            auction_lines: seq![],
            in_auction: false,
            ..st
        }
    } else {
        st
    }
}

/// Closes a play section that has lines, as [`finish_auction`] does.
pub open spec fn finish_play(st: ScanState) -> ScanState {
    if st.in_play && st.play_lines.len() > 0 {
        ScanState {
            current: match (st.current, st.play_leader) {
                (Some(b), Some(d)) => Some(
                    BoardModel { play: Some(play_read(d, join_with(st.play_lines, seq![' ']))), ..b },
                ),
                _ => st.current,
            },
            play_lines: seq![],
            in_play: false,
            ..st
        }
    } else {
        st
    }
}

/// Adds to the current board the commentary between the braces of `text`.
pub open spec fn add_commentary(st: ScanState, text: Seq<char>) -> ScanState {
    match st.current {
        None => st,
        Some(b) => match spec_extract(text) {
            None => st,
            Some((inner, _)) => match spec_formatted(inner) {
                FmtOutcome::Done(spans) => ScanState {
                    current: Some(BoardModel { commentary: b.commentary.push(spans), ..b }),
                    ..st
                },
                FmtOutcome::Unclosed(_) => st,
            },
        },
    }
}

/// A line read inside a commentary: it is kept, and when it holds the
/// closing brace the kept lines, joined with line ends, give the commentary.
pub open spec fn commentary_line(st: ScanState, line: Seq<char>) -> ScanState {
    let ls = st.commentary_lines.push(line);
    if line.contains('}') {
        let s2 = add_commentary(
            ScanState { in_commentary: false, commentary_lines: ls, ..st },
            join_with(ls, seq!['\n']),
        );
        ScanState { commentary_lines: seq![], ..s2 }
    } else {
        ScanState { commentary_lines: ls, ..st }
    }
}

/// A line starting with `[` (once trimmed to `t`): the open sections are
/// closed and the tag pair, if `t` starts with one, is read.
pub open spec fn tag_line(st: ScanState, t: Seq<char>) -> ScanState {
    let s2 = finish_play(finish_auction(st));
    match tag_at(t, 0) {
        Some((_, name, value)) => tag_step(s2, name, value),
        None => s2,
    }
}

/// A line starting with `{`: a commentary on one line, or the first line of
/// a longer one.
pub open spec fn brace_line(st: ScanState, line: Seq<char>) -> ScanState {
    if line.contains('}') {
        ScanState { commentary_lines: seq![], ..add_commentary(st, line) }
    } else {
        ScanState { commentary_lines: st.commentary_lines.push(line), in_commentary: true, ..st }
    }
}

/// One line read at state `st`. Outside commentary, blank lines and lines
/// starting with `%` or `;` are skipped; a line starting with `[` closes the
/// open sections and reads a tag pair; `{` starts commentary, which runs to
/// the line holding `}`; other lines belong to an open auction or play section.
pub open spec fn line_step(st: ScanState, line: Seq<char>) -> ScanState {
    let t = trim(line);
    if !st.in_commentary && (t.len() == 0 || t[0] == '%' || t[0] == ';') {
        st
    } else if st.in_commentary {
        commentary_line(st, line)
    } else if t[0] == '[' {
        tag_line(st, t)
    } else if t[0] == '{' {
        brace_line(st, line)
    } else if st.in_auction {
        ScanState { auction_lines: st.auction_lines.push(t), ..st }
    } else if st.in_play {
        ScanState { play_lines: st.play_lines.push(t), ..st }
    } else {
        st
    }
}

/// The state after reading `ls[i..]` from state `st`.
pub open spec fn scan_from(ls: Seq<Seq<char>>, i: int, st: ScanState) -> ScanState
    decreases ls.len() - i,
{
    if i < 0 || i >= ls.len() {
        st
    } else {
        scan_from(ls, i + 1, line_step(st, ls[i]))
    }
}

/// The boards at the end of the file: open sections are closed and the board
/// being read is added.
pub open spec fn scan_close(st: ScanState) -> Seq<BoardModel> {
    let s = finish_play(finish_auction(st));
    match s.current {
        Some(b) => s.boards.push(b),
        None => s.boards,
    }
}

/// The boards of the file whose lines are `ls`.
pub open spec fn pbn_boards(ls: Seq<Seq<char>>) -> Seq<BoardModel> {
    scan_close(scan_from(ls, 0, initial_scan()))
}

/// The header lines of a file: those that start with `%` once trimmed.
pub open spec fn header_lines_upto(ls: Seq<Seq<char>>, n: int) -> Seq<Seq<char>>
    decreases n,
{
    if n <= 0 {
        seq![]
    } else {
        let t = trim(ls[n - 1]);
        if t.len() > 0 && t[0] == '%' {
            header_lines_upto(ls, n - 1).push(ls[n - 1])
        } else {
            header_lines_upto(ls, n - 1)
        }
    }
}

/// The auction and the play section are not both open.
pub open spec fn sections_exclusive(st: ScanState) -> bool {
    !(st.in_auction && st.in_play)
}

/// A tag pair never leaves the auction and the play section open together:
/// `Auction` opens the one and closes the other, `Play` the reverse, and
/// other tags touch neither.
pub proof fn law_tag_step_sections(st: ScanState, name: Seq<char>, value: Seq<char>)
    requires
        sections_exclusive(st),
    ensures
        sections_exclusive(tag_step(st, name, value)),
{
}

proof fn lemma_line_step_sections(st: ScanState, line: Seq<char>)
    requires
        sections_exclusive(st),
    ensures
        sections_exclusive(line_step(st, line)),
{
    let t = trim(line);
    if !st.in_commentary && !(t.len() == 0 || t[0] == '%' || t[0] == ';') && t[0]
        == '[' {
        let s2 = finish_play(finish_auction(st));
        assert(sections_exclusive(s2));
        match tag_at(t, 0) {
            Some((_, name, value)) => law_tag_step_sections(s2, name, value),
            None => {},
        }
    }
}

proof fn lemma_scan_sections(ls: Seq<Seq<char>>, i: int, st: ScanState)
    requires
        sections_exclusive(st),
    ensures
        sections_exclusive(scan_from(ls, i, st)),
    decreases ls.len() - i,
{
    if 0 <= i < ls.len() {
        lemma_line_step_sections(st, ls[i]);
        lemma_scan_sections(ls, i + 1, line_step(st, ls[i]));
    }
}

/// However the lines of a file run, reading them never leaves the auction
/// and the play section open together.
pub proof fn law_sections_never_both_open(ls: Seq<Seq<char>>)
    ensures
        sections_exclusive(scan_from(ls, 0, initial_scan())),
{
    lemma_scan_sections(ls, 0, initial_scan());
}

// ------------------------------------------------------------------- lemmas

proof fn lemma_seated(deal: Deal, first: Direction, hs: Seq<HandView>)
    requires
        hs.len() == 4,
        deal_has(deal, first, hs),
    ensures
        deal_model(deal) == seated(first, hs),
{
    assert(spec_advance(first, 0) == first);
    assert(spec_advance(first, 1) == crate::model::card::spec_next(first));
    assert(spec_advance(first, 2) == crate::model::card::spec_next(spec_advance(first, 1)));
    assert(spec_advance(first, 3) == crate::model::card::spec_next(spec_advance(first, 2)));
    assert(hand_view(hand_of(deal, spec_advance(first, 0))) == hs[0]);
    assert(hand_view(hand_of(deal, spec_advance(first, 1))) == hs[1]);
    assert(hand_view(hand_of(deal, spec_advance(first, 2))) == hs[2]);
    assert(hand_view(hand_of(deal, spec_advance(first, 3))) == hs[3]);
    assert(deal_model(deal) =~= seated(first, hs));
}

proof fn lemma_empty_hand(h: Hand)
    requires
        forall|s: Suit, i: int| 0 <= i < 13 ==> !#[trigger] holding_of(h, s)@[i],
    ensures
        hand_view(h) == empty_hand(),
{
    assert(holding_of(h, Suit::Spades) == h.spades);
    assert(holding_of(h, Suit::Hearts) == h.hearts);
    assert(holding_of(h, Suit::Diamonds) == h.diamonds);
    assert(holding_of(h, Suit::Clubs) == h.clubs);
    assert(h.spades@ =~= void_view()) by {
        assert forall|i: int| 0 <= i < 13 implies h.spades@[i] == void_view()[i] by {
            assert(!holding_of(h, Suit::Spades)@[i]);
        }
    }
    assert(h.hearts@ =~= void_view()) by {
        assert forall|i: int| 0 <= i < 13 implies h.hearts@[i] == void_view()[i] by {
            assert(!holding_of(h, Suit::Hearts)@[i]);
        }
    }
    assert(h.diamonds@ =~= void_view()) by {
        assert forall|i: int| 0 <= i < 13 implies h.diamonds@[i] == void_view()[i] by {
            assert(!holding_of(h, Suit::Diamonds)@[i]);
        }
    }
    assert(h.clubs@ =~= void_view()) by {
        assert forall|i: int| 0 <= i < 13 implies h.clubs@[i] == void_view()[i] by {
            assert(!holding_of(h, Suit::Clubs)@[i]);
        }
    }
}

proof fn lemma_new_board(b: Board, event: Option<Seq<char>>)
    requires
        b.number is None,
        text_of(b.event) == event,
        b.site is None,
        b.date is None,
        b.dealer is None,
        b.vulnerable == Vulnerability::Neither,
        forall|e: Direction, s: Suit, i: int|
            0 <= i < 13 ==> !#[trigger] holding_of(hand_of(b.deal, e), s)@[i],
        b.auction is None,
        b.contract is None,
        b.declarer is None,
        b.play is None,
        b.result is None,
        b.commentary@.len() == 0,
    ensures
        board_model(b) == empty_board(event),
{
    assert forall|s: Suit, i: int| 0 <= i < 13 implies !#[trigger] holding_of(b.deal.north, s)@[i] by {
        assert(hand_of(b.deal, Direction::North) == b.deal.north);
        assert(!holding_of(hand_of(b.deal, Direction::North), s)@[i]);
    }
    assert forall|s: Suit, i: int| 0 <= i < 13 implies !#[trigger] holding_of(b.deal.east, s)@[i] by {
        assert(hand_of(b.deal, Direction::East) == b.deal.east);
        assert(!holding_of(hand_of(b.deal, Direction::East), s)@[i]);
    }
    assert forall|s: Suit, i: int| 0 <= i < 13 implies !#[trigger] holding_of(b.deal.south, s)@[i] by {
        assert(hand_of(b.deal, Direction::South) == b.deal.south);
        assert(!holding_of(hand_of(b.deal, Direction::South), s)@[i]);
    }
    assert forall|s: Suit, i: int| 0 <= i < 13 implies !#[trigger] holding_of(b.deal.west, s)@[i] by {
        assert(hand_of(b.deal, Direction::West) == b.deal.west);
        assert(!holding_of(hand_of(b.deal, Direction::West), s)@[i]);
    }
    lemma_empty_hand(b.deal.north);
    lemma_empty_hand(b.deal.east);
    lemma_empty_hand(b.deal.south);
    lemma_empty_hand(b.deal.west);
    assert(deal_model(b.deal) =~= seq![empty_hand(), empty_hand(), empty_hand(), empty_hand()]);
    assert(board_model(b).commentary =~= Seq::<Seq<SpanView>>::empty());
    assert(board_model(b) =~= empty_board(event));
}

// ------------------------------------------------------------------- notes

fn note_of_chars(v: &Vec<char>) -> (r: Option<(u8, String)>)
    ensures
        match note_parse(v@) {
            Some((n, t)) => r matches Some((m, s)) && m == n && s@ == t,
            None => r is None,
        },
{
    let n = v.len();
    let mut k: usize = 0;
    while k < n && v[k] != ':'
        invariant
            0 <= k <= n,
            n == v@.len(),
            forall|j: int| 0 <= j < k ==> v@[j] != ':',
        decreases n - k,
    {
        k = k + 1;
    }
    if k == n {
        proof {
            assert(!exists|i: int| 0 <= i < v@.len() && v@[i] == ':');
        }
        return None;
    }
    proof {
        let s = v@;
        assert(s[k as int] == ':');
        let a = first_index(s, ':').unwrap();
        assert(a == k) by {
            if a < k {
                assert(s[a] != ':');
            }
            if a > k {
                assert(s[k as int] != ':');
            }
        }
        assert(s.subrange(0, k as int) =~= s.take(k as int));
        assert(s.subrange(k + 1, n as int) =~= s.skip(k + 1));
    }
    match parse_u32_range(v, 0, k) {
        Some(num) => {
            if num <= 255 {
                let text = string_of_range(v, k + 1, n);
                Some((num as u8, text))
            } else {
                None
            }
        },
        None => None,
    }
}

/// Reads a note value `N:text`: the note number and the text after the colon.
pub fn parse_note_value(value: &str) -> (r: Option<(u8, String)>)
    ensures
        match note_parse(value@) {
            Some((n, t)) => r matches Some((m, s)) && m == n && s@ == t,
            None => r is None,
        },
{
    let v = chars_of(value);
    note_of_chars(&v)
}

// ---------------------------------------------------------------- scanning

/// Whether `v` spells `lit`.
fn is_name(v: &Vec<char>, lit: &str) -> (b: bool)
    ensures
        b == (v@ == lit@),
{
    let w = chars_of(lit);
    if v.len() != w.len() {
        return false;
    }
    let mut i: usize = 0;
    while i < v.len()
        invariant
            v@.len() == w@.len(),
            w@ == lit@,
            0 <= i <= v@.len(),
            forall|j: int| 0 <= j < i ==> v@[j] == w@[j],
        decreases v@.len() - i,
    {
        if v[i] != w[i] {
            return false;
        }
        i = i + 1;
    }
    proof {
        assert(v@ =~= w@);
    }
    true
}

/// Sets a field of board `b` from the tag `[name "value"]`.
fn board_tag_exec(b: &mut Board, name: &Vec<char>, value: String)
    ensures
        board_model(*final(b)) == board_tag(board_model(*old(b)), name@, value@),
{
    let vv = chars_of(value.as_str());
    proof {
        assert(vv@.subrange(0, vv@.len() as int) =~= vv@);
    }
    if is_name(name, "Site") {
        if vv.len() > 0 {
            b.site = Some(value);
        }
    } else if is_name(name, "Date") {
        if vv.len() > 0 {
            b.date = Some(value);
        }
    } else if is_name(name, "Board") {
        match parse_u32_range(&vv, 0, vv.len()) {
            Some(n) => b.number = Some(n),
            None => {},
        }
    } else if is_name(name, "Dealer") {
        if vv.len() > 0 {
            match Direction::from_char(vv[0]) {
                Some(d) => b.dealer = Some(d),
                None => {},
            }
        }
    } else if is_name(name, "Vulnerable") {
        match Vulnerability::from_pbn(value.as_str()) {
            Some(v) => b.vulnerable = v,
            None => {},
        }
    } else if is_name(name, "Deal") {
        match deal_of_chars(&vv) {
            Ok(deal) => {
                proof {
                    let (first, hs) = deal_parse(vv@)->Ok_0;
                    lemma_seated(deal, first, hs);
                }
                b.deal = deal;
            },
            Err(_) => {},
        }
    } else if is_name(name, "Declarer") {
        if vv.len() > 0 {
            match Direction::from_char(vv[0]) {
                Some(d) => b.declarer = Some(d),
                None => {},
            }
        }
    } else if is_name(name, "Result") {
        match parse_i8_range(&vv, 0, vv.len()) {
            Some(r) => b.result = Some(r),
            None => {},
        }
    } else if is_name(name, "Note") {
        match note_of_chars(&vv) {
            Some((num, text)) => {
                if b.auction.is_some() {
                    let mut a = b.auction.take().unwrap();
                    let ghost old_a = a;
                    a.add_note(num, text);
                    proof {
                        assert(auction_model(a).notes =~= auction_model(old_a).notes.insert(num, text@));
                        assert(auction_model(a) =~= AuctionModel {
                            notes: auction_model(old_a).notes.insert(num, text@),
                            ..auction_model(old_a)
                        });
                    }
                    b.auction = Some(a);
                }
            },
            None => {},
        }
    }
}

/// The reading of a file in progress.
struct Scanner {
    boards: Vec<Board>,
    current: Option<Board>,
    in_auction: bool,
    auction_dealer: Option<Direction>,
    auction_lines: Vec<Vec<char>>,
    in_play: bool,
    play_leader: Option<Direction>,
    play_lines: Vec<Vec<char>>,
    in_commentary: bool,
    commentary_lines: Vec<Vec<char>>,
}

impl View for Scanner {
    type V = ScanState;

    closed spec fn view(&self) -> ScanState {
        ScanState {
            boards: boards_model(self.boards@),
            current: match self.current {
                Some(b) => Some(board_model(b)),
                None => None,
            },
            in_auction: self.in_auction,
            auction_dealer: self.auction_dealer,
            auction_lines: views(self.auction_lines@),
            in_play: self.in_play,
            play_leader: self.play_leader,
            play_lines: views(self.play_lines@),
            in_commentary: self.in_commentary,
            commentary_lines: views(self.commentary_lines@),
        }
    }
}

proof fn lemma_boards_push(bs: Seq<Board>, b: Board)
    ensures
        boards_model(bs.push(b)) == boards_model(bs).push(board_model(b)),
{
    assert(boards_model(bs.push(b)) =~= boards_model(bs).push(board_model(b)));
}

proof fn lemma_views_push(w: Seq<Vec<char>>, x: Vec<char>)
    ensures
        views(w.push(x)) == views(w).push(x@),
{
    assert(views(w.push(x)) =~= views(w).push(x@));
}

impl Scanner {
    fn new() -> (s: Scanner)
        ensures
            s@ == initial_scan(),
    {
        let s = Scanner {
            boards: Vec::new(),
            current: None,
            in_auction: false,
            auction_dealer: None,
            auction_lines: Vec::new(),
            in_play: false,
            play_leader: None,
            play_lines: Vec::new(),
            in_commentary: false,
            commentary_lines: Vec::new(),
        };
        proof {
            assert(s@ =~= initial_scan());
        }
        s
    }

    fn finish_auction(&mut self)
        ensures
            final(self)@ == finish_auction(old(self)@),
    {
        if self.in_auction && self.auction_lines.len() > 0 {
            match self.auction_dealer {
                Some(d) => {
                    if self.current.is_some() {
                        let text = join_chars(&self.auction_lines, ' ');
                        match auction_of_chars(d, &text) {
                            Ok(a) => {
                                proof {
                                    let m = auction_model(a);
                                    let r = auction_read(d, text@);
                                    assert(m.calls =~= r.calls) by {
                                        assert forall|k: int| 0 <= k < m.calls.len() implies m.calls[k]
                                            == r.calls[k] by {
                                            assert(calls_of(a.calls@)[k] == a.calls@[k].call);
                                        }
                                    }
                                    assert(m.notes =~= r.notes);
                                    assert(m =~= r);
                                }
                                let mut b = self.current.take().unwrap();
                                b.auction = Some(a);
                                self.current = Some(b);
                            },
                            Err(_) => {},
                        }
                    }
                },
                None => {},
            }
            self.auction_lines = Vec::new();
            self.in_auction = false;
            proof {
                assert(views(self.auction_lines@) =~= Seq::<Seq<char>>::empty());
            }
        }
    }

    fn finish_play(&mut self)
        ensures
            final(self)@ == finish_play(old(self)@),
    {
        if self.in_play && self.play_lines.len() > 0 {
            match self.play_leader {
                Some(d) => {
                    if self.current.is_some() {
                        let text = join_chars(&self.play_lines, ' ');
                        match play_of_chars(d, &text) {
                            Ok(p) => {
                                proof {
                                    let m = play_model(p);
                                    let r = play_read(d, text@);
                                    assert(m.tricks =~= r.tricks) by {
                                        assert forall|k: int| 0 <= k < m.tricks.len() implies m.tricks[k]
                                            == r.tricks[k] by {
                                            assert(trick_cards(p.tricks@)[k] == p.tricks@[k].cards@);
                                        }
                                    }
                                    assert(m =~= r);
                                }
                                let mut b = self.current.take().unwrap();
                                b.play = Some(p);
                                self.current = Some(b);
                            },
                            Err(_) => {},
                        }
                    }
                },
                None => {},
            }
            self.play_lines = Vec::new();
            self.in_play = false;
            proof {
                assert(views(self.play_lines@) =~= Seq::<Seq<char>>::empty());
            }
        }
    }

    fn add_commentary(&mut self, text: &Vec<char>)
        ensures
            final(self)@ == add_commentary(old(self)@, text@),
    {
        if self.current.is_some() {
            match extract_range(text) {
                Some((a, e)) => {
                    let inner = sub_chars(text, a + 1, e);
                    match formatted_of_chars(&inner) {
                        Ok(content) => {
                            let mut b = self.current.take().unwrap();
                            let ghost old_b = b;
                            let block = CommentaryBlock::new(content);
                            b.commentary.push(block);
                            proof {
                                assert(board_model(b).commentary =~= board_model(old_b).commentary.push(
                                    spans_view(content.spans@),
                                ));
                                assert(board_model(b) =~= BoardModel {
                                    commentary: board_model(old_b).commentary.push(
                                        spans_view(content.spans@),
                                    ),
                                    ..board_model(old_b)
                                });
                            }
                            self.current = Some(b);
                        },
                        Err(_) => {},
                    }
                },
                None => {},
            }
        }
    }

    fn process_tag(&mut self, tag: TagPair)
        ensures
            final(self)@ == tag_step(old(self)@, tag.name@, tag.value@),
            sections_exclusive(old(self)@) ==> sections_exclusive(final(self)@),
    {
        proof {
            if sections_exclusive(self@) {
                law_tag_step_sections(self@, tag.name@, tag.value@);
            }
        }
        let name = chars_of(tag.name.as_str());
        let vv = chars_of(tag.value.as_str());
        if is_name(&name, "Event") {
            match self.current.take() {
                Some(b) => {
                    let ghost before = self.boards@;
                    self.boards.push(b);
                    proof {
                        lemma_boards_push(before, b);
                    }
                },
                None => {},
            }
            let mut board = Board::new();
            if vv.len() > 0 {
                board.event = Some(tag.value);
            }
            proof {
                lemma_new_board(
                    board,
                    if vv@.len() > 0 {
                        Some(vv@)
                    } else {
                        None
                    },
                );
            }
            self.current = Some(board);
        } else if is_name(&name, "Auction") {
            self.in_auction = true;
            self.in_play = false;
            if vv.len() > 0 {
                match Direction::from_char(vv[0]) {
                    Some(d) => self.auction_dealer = Some(d),
                    None => {},
                }
            }
        } else if is_name(&name, "Play") {
            self.in_play = true;
            self.in_auction = false;
            if vv.len() > 0 {
                match Direction::from_char(vv[0]) {
                    Some(d) => self.play_leader = Some(d),
                    None => {},
                }
            }
        } else if self.current.is_some() {
            let mut b = self.current.take().unwrap();
            board_tag_exec(&mut b, &name, tag.value);
            self.current = Some(b);
        }
    }

    fn commentary_line(&mut self, line: &Vec<char>)
        ensures
            final(self)@ == commentary_line(old(self)@, line@),
    {
        let copy = sub_chars(line, 0, line.len());
        proof {
            assert(copy@ =~= line@);
        }
        let ghost before = self.commentary_lines@;
        self.commentary_lines.push(copy);
        proof {
            lemma_views_push(before, copy);
        }
        if contains_char(line, '}') {
            self.in_commentary = false;
            let full = join_chars(&self.commentary_lines, '\n');
            self.add_commentary(&full);
            self.commentary_lines = Vec::new();
            proof {
                assert(views(self.commentary_lines@) =~= Seq::<Seq<char>>::empty());
            }
        }
    }

    fn tag_line(&mut self, t: &Vec<char>)
        ensures
            final(self)@ == tag_line(old(self)@, t@),
    {
        self.finish_auction();
        self.finish_play();
        match tag_at_exec(t, 0) {
            Some((_, tag)) => self.process_tag(tag),
            None => {},
        }
    }

    fn brace_line(&mut self, line: &Vec<char>)
        ensures
            final(self)@ == brace_line(old(self)@, line@),
    {
        if contains_char(line, '}') {
            self.add_commentary(line);
            self.commentary_lines = Vec::new();
            proof {
                assert(views(self.commentary_lines@) =~= Seq::<Seq<char>>::empty());
            }
        } else {
            let copy = sub_chars(line, 0, line.len());
            proof {
                assert(copy@ =~= line@);
            }
            let ghost before = self.commentary_lines@;
            self.commentary_lines.push(copy);
            proof {
                lemma_views_push(before, copy);
            }
            self.in_commentary = true;
        }
    }

    /// Reads one line.
    fn step(&mut self, line: &Vec<char>)
        ensures
            final(self)@ == line_step(old(self)@, line@),
    {
        let (a, b) = trim_bounds(line, 0, line.len());
        proof {
            assert(line@.subrange(0, line@.len() as int) =~= line@);
        }
        let t = sub_chars(line, a, b);
        let first = if a < b {
            line[a]
        } else {
            ' '
        };
        proof {
            if a < b {
                assert(t@[0] == first);
            }
        }
        if !self.in_commentary && (a == b || first == '%' || first == ';') {
            return;
        }
        if self.in_commentary {
            self.commentary_line(line);
        } else if first == '[' {
            self.tag_line(&t);
        } else if first == '{' {
            self.brace_line(line);
        } else if self.in_auction {
            let ghost before = self.auction_lines@;
            self.auction_lines.push(t);
            proof {
                lemma_views_push(before, t);
            }
        } else if self.in_play {
            let ghost before = self.play_lines@;
            self.play_lines.push(t);
            proof {
                lemma_views_push(before, t);
            }
        }
    }

    /// Closes the open sections and gives the boards read.
    fn close(self) -> (bs: Vec<Board>)
        ensures
            boards_model(bs@) == scan_close(self@),
    {
        let mut s = self;
        s.finish_auction();
        s.finish_play();
        let mut boards = s.boards;
        match s.current {
            Some(b) => {
                let ghost before = boards@;
                boards.push(b);
                proof {
                    lemma_boards_push(before, b);
                }
            },
            None => {},
        }
        boards
    }
}

/// Reads the boards of a file given by its lines.
fn scan_lines(lines: &Vec<Vec<char>>) -> (r: Vec<Board>)
    ensures
        boards_model(r@) == pbn_boards(views(lines@)),
{
    let ghost ls = views(lines@);
    let mut sc = Scanner::new();
    let mut i: usize = 0;
    while i < lines.len()
        invariant
            0 <= i <= lines@.len(),
            ls == views(lines@),
            scan_from(ls, 0, initial_scan()) == scan_from(ls, i as int, sc@),
        decreases lines@.len() - i,
    {
        proof {
            assert(ls[i as int] == lines@[i as int]@);
        }
        sc.step(&lines[i]);
        i = i + 1;
    }
    sc.close()
}

/// Reads the boards of a file given by its lines.
fn parse_boards(lines: &Vec<Vec<char>>) -> (r: Result<Vec<Board>, PbnError>)
    ensures
        r matches Ok(bs) && boards_model(bs@) == pbn_boards(views(lines@)),
{
    Ok(scan_lines(lines))
}

/// The result of reading a PBN file: its header lines (those starting with
/// `%`, which carry document settings) and its boards.
#[derive(Debug)]
pub struct PbnFile {
    pub header_lines: Vec<String>,
    pub boards: Vec<Board>,
}

/// Reads a complete PBN file.
pub fn parse_pbn(content: &str) -> (r: Result<PbnFile, PbnError>)
    ensures
        r matches Ok(f) && boards_model(f.boards@) == pbn_boards(lines_of(content@)) && f.header_lines@.map_values(
            |s: String| s@,
        ) == header_lines_upto(lines_of(content@), lines_of(content@).len() as int),
{
    let v = chars_of(content);
    let lines = split_lines(&v);
    let ghost ls = views(lines@);
    let mut header_lines: Vec<String> = Vec::new();
    let mut i: usize = 0;
    while i < lines.len()
        invariant
            0 <= i <= lines@.len(),
            ls == views(lines@),
            header_lines@.map_values(|s: String| s@) == header_lines_upto(ls, i as int),
        decreases lines@.len() - i,
    {
        let line = &lines[i];
        proof {
            assert(ls[i as int] == line@);
            assert(line@.subrange(0, line@.len() as int) =~= line@);
        }
        let (a, b) = trim_bounds(line, 0, line.len());
        if a < b && line[a] == '%' {
            let ghost before = header_lines@;
            let s = string_of_range(line, 0, line.len());
            header_lines.push(s);
            proof {
                assert(header_lines@.map_values(|s: String| s@) =~= before.map_values(
                    |s: String| s@,
                ).push(ls[i as int]));
            }
        }
        i = i + 1;
    }
    match parse_boards(&lines) {
        Ok(boards) => Ok(PbnFile { header_lines, boards }),
        Err(e) => Err(e),
    }
}

} // verus!
