//! What the page layouts decide before anything is drawn: which parts of a
//! board are shown, the hands of a declarer's plan, and the instructions of
//! bidding practice sheets.

use crate::model::auction::{no_bid_upto, Auction};
use crate::model::board::Board;
use crate::model::card::{
    spec_advance, spec_direction_name, spec_next, spec_partner, spec_strain_symbol, AnnotatedCall,
    Call, Card, Direction, Strain, Suit,
};
use crate::model::deal::{spec_suits_present, Deal};
use crate::model::hand::Hand;
use crate::text::{chars_of, decimal, push_decimal, string_of};
use vstd::prelude::*;

verus! {

// ------------------------------------------------------------ visibility

/// Which parts of a board are shown.
#[derive(Debug, Clone, Copy, PartialEq, Eq, Structural)]
pub struct BoardVisibility {
    pub show_board: bool,
    pub show_dealer: bool,
    pub show_vulnerable: bool,
    pub show_diagram: bool,
    pub show_auction: bool,
    pub show_commentary: bool,
}

impl BoardVisibility {
    /// What to show of `board`: the board's title parts and diagram when it
    /// has cards, the auction when bidding is shown, the commentary when
    /// commentary is shown and there is some.
    pub fn from_board(board: &Board, show_bidding: bool, show_commentary: bool) -> (v: BoardVisibility)
        ensures
            v.show_board == (spec_suits_present(board.deal).len() > 0),
            v.show_dealer == (spec_suits_present(board.deal).len() > 0),
            v.show_vulnerable == (spec_suits_present(board.deal).len() > 0),
            v.show_diagram == (spec_suits_present(board.deal).len() > 0),
            v.show_auction == show_bidding,
            v.show_commentary == (show_commentary && board.commentary@.len() > 0),
    {
        let has_cards = !board.deal.is_empty();
        BoardVisibility {
            show_board: has_cards,
            show_dealer: has_cards,
            show_vulnerable: has_cards,
            show_diagram: has_cards,
            show_auction: show_bidding,
            show_commentary: show_commentary && board.commentary.len() > 0,
        }
    }

    /// Whether anything of the board is shown (the auction alone does not count).
    pub fn has_content(&self) -> (b: bool)
        ensures
            b == (self.show_board || self.show_dealer || self.show_vulnerable || self.show_diagram
                || self.show_commentary),
    {
        self.show_board || self.show_dealer || self.show_vulnerable || self.show_diagram
            || self.show_commentary
    }
}

// ------------------------------------------------------- declarer's plan

/// The hand facing `d`.
pub open spec fn facing(deal: Deal, d: Direction) -> Hand {
    match d {
        Direction::South => deal.north,
        Direction::North => deal.south,
        Direction::East => deal.west,
        Direction::West => deal.east,
    }
}

/// The hand of `d`.
pub open spec fn own(deal: Deal, d: Direction) -> Hand {
    match d {
        Direction::South => deal.south,
        Direction::North => deal.north,
        Direction::East => deal.east,
        Direction::West => deal.west,
    }
}

/// Dummy is declarer's partner: the hand facing declarer is the partner's hand.
pub proof fn law_dummy_is_partner(deal: Deal, declarer: Direction)
    ensures
        facing(deal, declarer) == crate::model::deal::hand_of(deal, spec_partner(declarer)),
        own(deal, declarer) == crate::model::deal::hand_of(deal, declarer),
{
}

/// The deal seen with declarer at the bottom: dummy's hand and declarer's.
pub fn rotate_deal_for_declarer(deal: &Deal, declarer: Direction) -> (r: (Hand, Hand))
    ensures
        r.0 == facing(*deal, declarer),
        r.1 == own(*deal, declarer),
{
    match declarer {
        Direction::South => (deal.north, deal.south),
        Direction::North => (deal.south, deal.north),
        Direction::East => (deal.west, deal.east),
        Direction::West => (deal.east, deal.west),
    }
}

/// What the declarer's plan shows of a board.
#[derive(Debug, Clone)]
pub struct PreparedBoard {
    pub dummy_hand: Hand,
    pub declarer_hand: Hand,
    /// The contract is in notrump.
    pub is_nt: bool,
    /// The first card of the play.
    pub opening_lead: Option<Card>,
    pub deal_number: Option<u32>,
    /// The level and strain of the contract, e.g. `3NT` or `4♠`.
    pub contract_str: Option<String>,
    pub trump: Option<Strain>,
}

/// The seat of declarer for the plan: the contract's declarer, South when
/// there is no contract.
pub open spec fn plan_declarer(board: Board) -> Direction {
    match board.contract {
        Some(c) => c.declarer,
        None => Direction::South,
    }
}

/// The first card of the play, if any.
pub open spec fn spec_opening_lead(board: Board) -> Option<Card> {
    match board.play {
        Some(p) => if p.tricks@.len() > 0 {
            p.tricks@[0].cards@[0]
        } else {
            None
        },
        None => None,
    }
}

/// Gathers what the declarer's plan of `board` shows: the hands seen from
/// declarer (South when there is no contract), the contract, and the lead.
pub fn prepare_board(board: &Board) -> (p: PreparedBoard)
    ensures
        p.dummy_hand == facing(board.deal, plan_declarer(*board)),
        p.declarer_hand == own(board.deal, plan_declarer(*board)),
        p.is_nt == (match board.contract {
            Some(c) => c.suit == Strain::NoTrump,
            None => false,
        }),
        p.opening_lead == spec_opening_lead(*board),
        p.deal_number == board.number,
        p.trump == (match board.contract {
            Some(c) => Some(c.suit),
            None => None,
        }),
        match board.contract {
            Some(c) => p.contract_str matches Some(s) && s@ == decimal(c.level as nat)
                + spec_strain_symbol(c.suit),
            None => p.contract_str is None,
        },
{
    let is_nt = match &board.contract {
        Some(c) => match c.suit {
            Strain::NoTrump => true,
            _ => false,
        },
        None => false,
    };
    let opening_lead = match &board.play {
        Some(play) => if play.tricks.len() > 0 {
            play.tricks[0].cards[0]
        } else {
            None
        },
        None => None,
    };
    let contract_str = match &board.contract {
        Some(c) => {
            let mut v: Vec<char> = Vec::new();
            push_decimal(&mut v, c.level as u64);
            c.suit.push_symbol(&mut v);
            Some(string_of(v.as_slice()))
        },
        None => None,
    };
    let declarer = match &board.contract {
        Some(c) => c.declarer,
        None => Direction::South,
    };
    let (dummy_hand, declarer_hand) = rotate_deal_for_declarer(&board.deal, declarer);
    let trump = match &board.contract {
        Some(c) => Some(c.suit),
        None => None,
    };
    PreparedBoard {
        dummy_hand,
        declarer_hand,
        is_nt,
        opening_lead,
        deal_number: board.number,
        contract_str,
        trump,
    }
}

/// The suits of a dummy from `first`: in the order spades, hearts,
/// diamonds, clubs, or, with alternating colours, spades, hearts, clubs,
/// diamonds, turned to start at `first`.
pub open spec fn spec_suit_order(first: Suit, alternate: bool) -> Seq<Suit> {
    let base = if alternate {
        seq![Suit::Spades, Suit::Hearts, Suit::Clubs, Suit::Diamonds]
    } else {
        seq![Suit::Spades, Suit::Hearts, Suit::Diamonds, Suit::Clubs]
    };
    let k = if base[0] == first {
        0int
    } else if base[1] == first {
        1int
    } else if base[2] == first {
        2int
    } else {
        3int
    };
    Seq::new(4, |i: int| base[(k + i) % 4])
}

/// The order in which a dummy shows its suits, starting with `first_suit`.
pub fn dummy_suit_order(first_suit: Suit, alternate_colors: bool) -> (o: [Suit; 4])
    ensures
        o@ == spec_suit_order(first_suit, alternate_colors),
{
    let base = if alternate_colors {
        [Suit::Spades, Suit::Hearts, Suit::Clubs, Suit::Diamonds]
    } else {
        [Suit::Spades, Suit::Hearts, Suit::Diamonds, Suit::Clubs]
    };
    let mut k: usize = 0;
    while k < 3 && base[k] != first_suit
        invariant
            0 <= k <= 3,
            forall|j: int| 0 <= j < k ==> base@[j] != first_suit,
        decreases 3 - k,
    {
        k = k + 1;
    }
    let o = [base[k], base[(k + 1) % 4], base[(k + 2) % 4], base[(k + 3) % 4]];
    proof {
        let sb = if alternate_colors {
            seq![Suit::Spades, Suit::Hearts, Suit::Clubs, Suit::Diamonds]
        } else {
            seq![Suit::Spades, Suit::Hearts, Suit::Diamonds, Suit::Clubs]
        };
        assert(base@ =~= sb);
        assert(o@ =~= spec_suit_order(first_suit, alternate_colors));
    }
    o
}

// ------------------------------------------------------ bidding practice

/// The seat before `d` in the bidding: its right-hand opponent.
pub open spec fn rho(d: Direction) -> Direction {
    match d {
        Direction::North => Direction::West,
        Direction::East => Direction::North,
        Direction::South => Direction::East,
        Direction::West => Direction::South,
    }
}

/// Who of `player` and partner calls first: `player` when the dealer is
/// `player` or the opponent on the right, partner otherwise; nothing is said
/// when the dealer is not known.
pub open spec fn spec_who_bids_first(dealer: Option<Direction>, player: Direction) -> Seq<char> {
    match dealer {
        None => seq![],
        Some(d) => if d == player || d == rho(player) {
            "You bid first."@
        } else {
            "Partner bids first."@
        },
    }
}

/// Whether `player` calls before partner when `dealer` deals.
pub open spec fn bids_first(dealer: Direction, player: Direction) -> bool {
    dealer == player || dealer == rho(player)
}

/// Of two partners exactly one calls before the other: the practice sheet of
/// one says "You bid first." and the other's says "Partner bids first.".
pub proof fn law_one_partner_bids_first(dealer: Direction, player: Direction)
    ensures
        bids_first(dealer, player) != bids_first(dealer, spec_partner(player)),
        spec_who_bids_first(Some(dealer), player) == (if bids_first(dealer, player) {
            "You bid first."@
        } else {
            "Partner bids first."@
        }),
{
}

/// Tells `player` of a practice sheet whether they or their partner bids first.
pub fn who_bids_first(board: &Board, player: Direction) -> (s: String)
    ensures
        s@ == spec_who_bids_first(board.dealer, player),
{
    match board.dealer {
        None => String::new(),
        Some(dealer) => {
            let partner = player.partner();
            let rho = match player {
                Direction::North => Direction::West,
                Direction::East => Direction::North,
                Direction::South => Direction::East,
                Direction::West => Direction::South,
            };
            if dealer == player || dealer == rho {
                String::from_str("You bid first.")
            } else if dealer == partner {
                String::from_str("Partner bids first.")
            } else {
                String::from_str("Partner bids first.")
            }
        },
    }
}

/// A piece of a line of instructions: text, or the symbol of a strain.
#[derive(Debug, Clone, PartialEq, Eq)]
pub enum TextSegment {
    Plain(String),
    Suit(Strain),
}

/// A line of text with strain symbols in it.
#[derive(Debug, Clone, PartialEq, Eq)]
pub struct MixedText {
    pub segments: Vec<TextSegment>,
}

pub enum SegView {
    Plain(Seq<char>),
    Suit(Strain),
}

pub open spec fn seg_view(s: TextSegment) -> SegView {
    match s {
        TextSegment::Plain(t) => SegView::Plain(t@),
        TextSegment::Suit(x) => SegView::Suit(x),
    }
}

pub open spec fn mixed_view(m: MixedText) -> Seq<SegView> {
    m.segments@.map_values(|s: TextSegment| seg_view(s))
}

pub open spec fn mixed_views(ms: Seq<MixedText>) -> Seq<Seq<SegView>> {
    ms.map_values(|m: MixedText| mixed_view(m))
}

/// `<Seat> <action> <level>`, the strain symbol, and a full stop.
pub open spec fn bid_line(seat: Direction, action: Seq<char>, level: u8, strain: Strain) -> Seq<SegView> {
    seq![
        SegView::Plain(spec_direction_name(seat) + seq![' '] + action + seq![' '] + decimal(level as nat)),
        SegView::Suit(strain),
        SegView::Plain("."@),
    ]
}

/// `<Seat> Doubles <level>`, the strain symbol, and ` if possible.`.
pub open spec fn double_line(seat: Direction, level: u8, strain: Strain) -> Seq<SegView> {
    seq![
        SegView::Plain(spec_direction_name(seat) + " Doubles "@ + decimal(level as nat)),
        SegView::Suit(strain),
        SegView::Plain(" if possible."@),
    ]
}

/// `<Seat> Redoubles if possible.`
pub open spec fn redouble_line(seat: Direction) -> Seq<SegView> {
    seq![SegView::Plain(spec_direction_name(seat) + " Redoubles if possible."@)]
}

pub open spec fn silent_line() -> Seq<SegView> {
    seq![SegView::Plain("The opponents are silent."@)]
}

/// Where the reading of an auction for a practice sheet stands.
pub struct OppState {
    /// The lines so far.
    pub lines: Seq<Seq<SegView>>,
    /// No bid has been made yet.
    pub opening: bool,
    /// The last bid, for what a double doubles.
    pub prev: Option<(u8, Strain)>,
    /// East or West has called something other than a pass.
    pub found: bool,
}

/// One call by `seat`. The opponents (East and West) are reported: a bid as
/// `Opens` or `Bids`, a double of the last bid, a redouble; a bid by North
/// or South is only remembered.
pub open spec fn opp_step(st: OppState, seat: Direction, call: Call) -> OppState {
    if seat == Direction::East || seat == Direction::West {
        match call {
            Call::Bid { level, strain } => OppState {
                lines: st.lines.push(
                    bid_line(
                        seat,
                        if st.opening {
                            "Opens"@
                        } else {
                            "Bids"@
                        },
                        level,
                        strain,
                    ),
                ),
                opening: false,
                prev: Some((level, strain)),
                found: true,
            },
            Call::Double => OppState {
                lines: match st.prev {
                    Some((l, s)) => st.lines.push(double_line(seat, l, s)),
                    None => st.lines,
                },
                found: true,
                ..st
            },
            Call::Redouble => OppState {
                lines: st.lines.push(redouble_line(seat)),
                found: true,
                ..st
            },
            _ => st,
        }
    } else {
        match call {
            Call::Bid { level, strain } => OppState {
                prev: Some((level, strain)),
                opening: false,
                ..st
            },
            _ => st,
        }
    }
}

/// The state after the first `n` calls of an auction dealt by `dealer`.
pub open spec fn opp_upto(calls: Seq<AnnotatedCall>, dealer: Direction, n: int) -> OppState
    decreases n,
{
    if n <= 0 {
        OppState { lines: seq![], opening: true, prev: None, found: false }
    } else {
        opp_step(opp_upto(calls, dealer, n - 1), spec_advance(dealer, (n - 1) as nat), calls[n - 1].call)
    }
}

/// The lines telling a North-South pair what the opponents bid; "The
/// opponents are silent." when they made no call other than passes.
pub open spec fn spec_opposition(auction: Option<Auction>) -> Seq<Seq<SegView>> {
    match auction {
        None => seq![silent_line()],
        Some(a) => {
            let st = opp_upto(a.calls@, a.dealer, a.calls@.len() as int);
            if st.found {
                st.lines
            } else {
                st.lines.push(silent_line())
            }
        },
    }
}

/// Whether the call at position `k` is an opponent's call that the sheet reports.
pub open spec fn reported(calls: Seq<AnnotatedCall>, dealer: Direction, k: int) -> bool {
    let seat = spec_advance(dealer, k as nat);
    (seat == Direction::East || seat == Direction::West) && match calls[k].call {
        Call::Bid { .. } | Call::Double | Call::Redouble => true,
        _ => false,
    }
}

proof fn lemma_quiet_upto(calls: Seq<AnnotatedCall>, dealer: Direction, n: int)
    requires
        0 <= n <= calls.len(),
        forall|k: int| 0 <= k < n ==> !#[trigger] reported(calls, dealer, k),
    ensures
        opp_upto(calls, dealer, n).lines.len() == 0,
        !opp_upto(calls, dealer, n).found,
    decreases n,
{
    if n > 0 {
        lemma_quiet_upto(calls, dealer, n - 1);
        assert(!reported(calls, dealer, n - 1));
    }
}

/// When East and West make no call but passes (and unknown or continuing
/// calls), the sheet says only that the opponents are silent.
pub proof fn law_silent_opponents(auction: Auction)
    requires
        forall|k: int| 0 <= k < auction.calls@.len() ==> !#[trigger] reported(auction.calls@, auction.dealer, k),
    ensures
        spec_opposition(Some(auction)) == seq![silent_line()],
{
    lemma_quiet_upto(auction.calls@, auction.dealer, auction.calls@.len() as int);
    let st = opp_upto(auction.calls@, auction.dealer, auction.calls@.len() as int);
    assert(st.lines.push(silent_line()) =~= seq![silent_line()]);
}

proof fn lemma_opening_flag(calls: Seq<AnnotatedCall>, dealer: Direction, n: int)
    requires
        0 <= n <= calls.len(),
    ensures
        opp_upto(calls, dealer, n).opening == no_bid_upto(calls, n),
    decreases n,
{
    if n > 0 {
        lemma_opening_flag(calls, dealer, n - 1);
        if calls[n - 1].call is Bid {
            assert(!no_bid_upto(calls, n));
        } else {
            assert(no_bid_upto(calls, n) == no_bid_upto(calls, n - 1)) by {
                if no_bid_upto(calls, n - 1) {
                    assert forall|k: int| 0 <= k < n implies !(#[trigger] calls[k].call is Bid) by {
                        if k < n - 1 {
                            assert(!(calls[k].call is Bid));
                        }
                    }
                }
            }
        }
    }
}

/// Lines once written stay: the lines after `m` calls begin the lines after `n`.
proof fn lemma_lines_prefix(calls: Seq<AnnotatedCall>, dealer: Direction, m: int, n: int)
    requires
        0 <= m <= n,
    ensures
        opp_upto(calls, dealer, m).lines.len() <= opp_upto(calls, dealer, n).lines.len(),
        forall|i: int|
            0 <= i < opp_upto(calls, dealer, m).lines.len() ==> #[trigger] opp_upto(calls, dealer, n).lines[i]
                == opp_upto(calls, dealer, m).lines[i],
    decreases n - m,
{
    if m < n {
        lemma_lines_prefix(calls, dealer, m, n - 1);
    }
}

/// A bid by East or West is reported in its own line, `Opens` when no call
/// before it was a bid and `Bids` otherwise: `1H Pass 2H` dealt by East gives
/// `East Opens 1H.` and then `West Bids 2H.`.
pub proof fn law_opponent_bid_line(auction: Auction, k: int, level: u8, strain: Strain)
    requires
        0 <= k < auction.calls@.len(),
        spec_advance(auction.dealer, k as nat) == Direction::East || spec_advance(auction.dealer, k as nat)
            == Direction::West,
        auction.calls@[k].call == (Call::Bid { level, strain }),
    ensures
        ({
            let calls = auction.calls@;
            let i = opp_upto(calls, auction.dealer, k).lines.len() as int;
            let line = bid_line(
                spec_advance(auction.dealer, k as nat),
                if no_bid_upto(calls, k) {
                    "Opens"@
                } else {
                    "Bids"@
                },
                level,
                strain,
            );
            &&& i < spec_opposition(Some(auction)).len()
            &&& spec_opposition(Some(auction))[i] == line
            &&& spec_opposition(Some(auction)).contains(line)
        }),
{
    let calls = auction.calls@;
    let dealer = auction.dealer;
    let n = calls.len() as int;
    lemma_opening_flag(calls, dealer, k);
    let i = opp_upto(calls, dealer, k).lines.len() as int;
    assert(opp_upto(calls, dealer, k + 1).lines.len() == i + 1);
    lemma_lines_prefix(calls, dealer, k + 1, n);
    let st = opp_upto(calls, dealer, n);
    assert(st.lines[i] == opp_upto(calls, dealer, k + 1).lines[i]);
    let out = spec_opposition(Some(auction));
    if !st.found {
        assert(out[i] == st.lines[i]);
    }
    assert(out[i] == opp_upto(calls, dealer, k + 1).lines[i]);
}

proof fn lemma_prev_bid(calls: Seq<AnnotatedCall>, dealer: Direction, j: int, n: int, level: u8, strain: Strain)
    requires
        0 <= j < n <= calls.len(),
        calls[j].call == (Call::Bid { level, strain }),
        forall|m: int| j < m < n ==> !(#[trigger] calls[m].call is Bid),
    ensures
        opp_upto(calls, dealer, n).prev == Some((level, strain)),
    decreases n,
{
    if n > j + 1 {
        lemma_prev_bid(calls, dealer, j, n - 1, level, strain);
        assert(!(calls[n - 1].call is Bid));
    }
}

/// A double by East or West is reported as doubling the last bid made before
/// it, by whichever seat: `<Seat> Doubles <level><strain> if possible.`.
pub proof fn law_opponent_double_line(auction: Auction, j: int, k: int, level: u8, strain: Strain)
    requires
        0 <= j < k < auction.calls@.len(),
        spec_advance(auction.dealer, k as nat) == Direction::East || spec_advance(auction.dealer, k as nat)
            == Direction::West,
        auction.calls@[k].call == Call::Double,
        auction.calls@[j].call == (Call::Bid { level, strain }),
        forall|m: int| j < m < k ==> !(#[trigger] auction.calls@[m].call is Bid),
    ensures
        spec_opposition(Some(auction)).contains(
            double_line(spec_advance(auction.dealer, k as nat), level, strain),
        ),
{
    let calls = auction.calls@;
    let dealer = auction.dealer;
    let n = calls.len() as int;
    lemma_prev_bid(calls, dealer, j, k, level, strain);
    let i = opp_upto(calls, dealer, k).lines.len() as int;
    assert(opp_upto(calls, dealer, k + 1).lines.len() == i + 1);
    lemma_lines_prefix(calls, dealer, k + 1, n);
    let st = opp_upto(calls, dealer, n);
    assert(st.lines[i] == opp_upto(calls, dealer, k + 1).lines[i]);
    let out = spec_opposition(Some(auction));
    if !st.found {
        assert(out[i] == st.lines[i]);
    }
    assert(out[i] == double_line(spec_advance(dealer, k as nat), level, strain));
}

fn plain_segment(s: &str) -> (t: TextSegment)
    ensures
        seg_view(t) == SegView::Plain(s@),
{
    TextSegment::Plain(String::from_str(s))
}

impl MixedText {
    /// A line of plain text.
    pub fn plain(s: &str) -> (m: MixedText)
        ensures
            mixed_view(m) == seq![SegView::Plain(s@)],
    {
        let m = MixedText { segments: vec![plain_segment(s)] };
        proof {
            assert(mixed_view(m) =~= seq![SegView::Plain(s@)]);
        }
        m
    }

    /// `<Seat> <action> <level>` with the strain symbol.
    pub fn bid_action(seat: Direction, action: &str, level: u8, suit: Strain) -> (m: MixedText)
        ensures
            mixed_view(m) == bid_line(seat, action@, level, suit),
    {
        let mut v: Vec<char> = Vec::new();
        seat.push_name(&mut v);
        v.push(' ');
        let a = chars_of(action);
        let mut i: usize = 0;
        let ghost v0 = v@;
        while i < a.len()
            invariant
                0 <= i <= a@.len(),
                v@ == v0 + a@.take(i as int),
            decreases a@.len() - i,
        {
            v.push(a[i]);
            proof {
                assert(a@.take(i + 1) =~= a@.take(i as int).push(a@[i as int]));
            }
            i = i + 1;
        }
        v.push(' ');
        push_decimal(&mut v, level as u64);
        proof {
            assert(a@.take(a@.len() as int) =~= a@);
            assert(v@ =~= spec_direction_name(seat) + seq![' '] + action@ + seq![' '] + decimal(
                level as nat,
            ));
        }
        let m = MixedText {
            segments: vec![
                TextSegment::Plain(string_of(v.as_slice())),
                TextSegment::Suit(suit),
                plain_segment("."),
            ],
        };
        proof {
            assert(mixed_view(m) =~= bid_line(seat, action@, level, suit));
        }
        m
    }

    /// `<Seat> Doubles <level>` with the strain symbol and ` if possible.`.
    pub fn double_action(seat: Direction, level: u8, suit: Strain) -> (m: MixedText)
        ensures
            mixed_view(m) == double_line(seat, level, suit),
    {
        let mut v: Vec<char> = Vec::new();
        seat.push_name(&mut v);
        let d = chars_of(" Doubles ");
        let mut i: usize = 0;
        let ghost v0 = v@;
        while i < d.len()
            invariant
                0 <= i <= d@.len(),
                v@ == v0 + d@.take(i as int),
            decreases d@.len() - i,
        {
            v.push(d[i]);
            proof {
                assert(d@.take(i + 1) =~= d@.take(i as int).push(d@[i as int]));
            }
            i = i + 1;
        }
        push_decimal(&mut v, level as u64);
        proof {
            assert(d@.take(d@.len() as int) =~= d@);
            assert(v@ =~= spec_direction_name(seat) + " Doubles "@ + decimal(level as nat));
        }
        let m = MixedText {
            segments: vec![
                TextSegment::Plain(string_of(v.as_slice())),
                TextSegment::Suit(suit),
                plain_segment(" if possible."),
            ],
        };
        proof {
            assert(mixed_view(m) =~= double_line(seat, level, suit));
        }
        m
    }
}

fn redouble_text(seat: Direction) -> (m: MixedText)
    ensures
        mixed_view(m) == redouble_line(seat),
{
    let mut v: Vec<char> = Vec::new();
    seat.push_name(&mut v);
    let d = chars_of(" Redoubles if possible.");
    let mut i: usize = 0;
    let ghost v0 = v@;
    while i < d.len()
        invariant
            0 <= i <= d@.len(),
            v@ == v0 + d@.take(i as int),
        decreases d@.len() - i,
    {
        v.push(d[i]);
        proof {
            assert(d@.take(i + 1) =~= d@.take(i as int).push(d@[i as int]));
        }
        i = i + 1;
    }
    proof {
        assert(d@.take(d@.len() as int) =~= d@);
    }
    let m = MixedText { segments: vec![TextSegment::Plain(string_of(v.as_slice()))] };
    proof {
        assert(mixed_view(m) =~= redouble_line(seat));
    }
    m
}

proof fn lemma_mixed_views_push(ms: Seq<MixedText>, m: MixedText)
    ensures
        mixed_views(ms.push(m)) == mixed_views(ms).push(mixed_view(m)),
{
    assert(mixed_views(ms.push(m)) =~= mixed_views(ms).push(mixed_view(m)));
}

/// The lines that tell a North-South pair of a practice sheet what the
/// opponents bid, in the order of the auction.
pub fn format_opposition_bidding(board: &Board) -> (lines: Vec<MixedText>)
    ensures
        mixed_views(lines@) == spec_opposition(board.auction),
{
    let mut lines: Vec<MixedText> = Vec::new();
    match &board.auction {
        None => {
            lines.push(MixedText::plain("The opponents are silent."));
            proof {
                assert(mixed_views(lines@) =~= seq![silent_line()]);
            }
            lines
        },
        Some(auction) => {
            let mut seat = auction.dealer;
            let mut opening = true;
            let mut prev: Option<(u8, Strain)> = None;
            let mut found = false;
            let mut i: usize = 0;
            proof {
                assert(mixed_views(lines@) =~= Seq::<Seq<SegView>>::empty());
            }
            while i < auction.calls.len()
                invariant
                    0 <= i <= auction.calls@.len(),
                    seat == spec_advance(auction.dealer, i as nat),
                    opp_upto(auction.calls@, auction.dealer, i as int) == (OppState {
                        lines: mixed_views(lines@),
                        opening,
                        prev,
                        found,
                    }),
                decreases auction.calls@.len() - i,
            {
                let is_opponent = match seat {
                    Direction::East | Direction::West => true,
                    _ => false,
                };
                let ghost before = lines@;
                if is_opponent {
                    match auction.calls[i].call {
                        Call::Bid { level, strain } => {
                            let m = if opening {
                                MixedText::bid_action(seat, "Opens", level, strain)
                            } else {
                                MixedText::bid_action(seat, "Bids", level, strain)
                            };
                            lines.push(m);
                            proof {
                                lemma_mixed_views_push(before, m);
                            }
                            opening = false;
                            prev = Some((level, strain));
                            found = true;
                        },
                        Call::Double => {
                            match prev {
                                Some((level, strain)) => {
                                    let m = MixedText::double_action(seat, level, strain);
                                    lines.push(m);
                                    proof {
                                        lemma_mixed_views_push(before, m);
                                    }
                                },
                                None => {},
                            }
                            found = true;
                        },
                        Call::Redouble => {
                            let m = redouble_text(seat);
                            lines.push(m);
                            proof {
                                lemma_mixed_views_push(before, m);
                            }
                            found = true;
                        },
                        _ => {},
                    }
                } else {
                    match auction.calls[i].call {
                        Call::Bid { level, strain } => {
                            prev = Some((level, strain));
                            opening = false;
                        },
                        _ => {},
                    }
                }
                seat = seat.next();
                i = i + 1;
            }
            if !found {
                let ghost before = lines@;
                let m = MixedText::plain("The opponents are silent.");
                lines.push(m);
                proof {
                    lemma_mixed_views_push(before, m);
                }
            }
            lines
        },
    }
}

} // verus!
