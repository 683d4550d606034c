//! Suits, ranks, cards, seats, strains and calls.

use crate::text::{ascii_ci, char_ci, chars_of, range_ci, seq_ci, string_of};
use vstd::prelude::*;

verus! {

/// A card suit.
#[derive(Debug, Clone, Copy, PartialEq, Eq, Structural, Hash, PartialOrd, Ord)]
pub enum Suit {
    Spades,
    Hearts,
    Diamonds,
    Clubs,
}

/// A card rank, from the Ace down to the Two.
#[derive(Debug, Clone, Copy, PartialEq, Eq, Structural, Hash, PartialOrd, Ord)]
pub enum Rank {
    Ace,
    King,
    Queen,
    Jack,
    Ten,
    Nine,
    Eight,
    Seven,
    Six,
    Five,
    Four,
    Three,
    Two,
}

/// A single playing card.
#[derive(Debug, Clone, Copy, PartialEq, Eq, Structural, Hash)]
pub struct Card {
    pub suit: Suit,
    pub rank: Rank,
}

/// A seat at the table.
#[derive(Debug, Clone, Copy, PartialEq, Eq, Structural, Hash)]
pub enum Direction {
    North,
    East,
    South,
    West,
}

/// The denomination of a bid.
#[derive(Debug, Clone, Copy, PartialEq, Eq, Structural, Hash)]
pub enum Strain {
    Clubs,
    Diamonds,
    Hearts,
    Spades,
    NoTrump,
}

/// The denomination of a bid, under the name the renderers use.
pub type BidSuit = Strain;

/// A call in an auction.
#[derive(Debug, Clone, Copy, PartialEq, Eq, Structural)]
pub enum Call {
    Pass,
    Bid { level: u8, strain: Strain },
    Double,
    Redouble,
    /// `+`: the auction continues beyond what is recorded.
    Continue,
    /// `-`: an unknown call.
    Blank,
}

/// Suits in display order (Spades first, as shown in bridge diagrams).
pub const SUITS_DISPLAY_ORDER: [Suit; 4] = [Suit::Spades, Suit::Hearts, Suit::Diamonds, Suit::Clubs];

/// Ranks in display order (Ace first, high to low).
pub const RANKS_DISPLAY_ORDER: [Rank; 13] = [
    Rank::Ace,
    Rank::King,
    Rank::Queen,
    Rank::Jack,
    Rank::Ten,
    Rank::Nine,
    Rank::Eight,
    Rank::Seven,
    Rank::Six,
    Rank::Five,
    Rank::Four,
    Rank::Three,
    Rank::Two,
];

// ---------------------------------------------------------------- Rank

/// Position of a rank in the order Ace (0) .. Two (12).
pub open spec fn rank_idx(r: Rank) -> int {
    match r {
        Rank::Ace => 0,
        Rank::King => 1,
        Rank::Queen => 2,
        Rank::Jack => 3,
        Rank::Ten => 4,
        Rank::Nine => 5,
        Rank::Eight => 6,
        Rank::Seven => 7,
        Rank::Six => 8,
        Rank::Five => 9,
        Rank::Four => 10,
        Rank::Three => 11,
        Rank::Two => 12,
    }
}

/// The rank at position `i` of the order Ace .. Two.
pub open spec fn rank_at(i: int) -> Rank {
    if i <= 0 {
        Rank::Ace
    } else if i == 1 {
        Rank::King
    } else if i == 2 {
        Rank::Queen
    } else if i == 3 {
        Rank::Jack
    } else if i == 4 {
        Rank::Ten
    } else if i == 5 {
        Rank::Nine
    } else if i == 6 {
        Rank::Eight
    } else if i == 7 {
        Rank::Seven
    } else if i == 8 {
        Rank::Six
    } else if i == 9 {
        Rank::Five
    } else if i == 10 {
        Rank::Four
    } else if i == 11 {
        Rank::Three
    } else {
        Rank::Two
    }
}

pub proof fn lemma_rank_idx(r: Rank)
    ensures
        0 <= rank_idx(r) < 13,
        rank_at(rank_idx(r)) == r,
{
}

pub proof fn lemma_rank_at(i: int)
    requires
        0 <= i < 13,
    ensures
        rank_idx(rank_at(i)) == i,
{
}

/// The rank that a PBN character names: `AKQJT` in either case, or a digit 2-9.
pub open spec fn spec_rank_from_char(c: char) -> Option<Rank> {
    if ascii_ci(c, 'A') {
        Some(Rank::Ace)
    } else if ascii_ci(c, 'K') {
        Some(Rank::King)
    } else if ascii_ci(c, 'Q') {
        Some(Rank::Queen)
    } else if ascii_ci(c, 'J') {
        Some(Rank::Jack)
    } else if ascii_ci(c, 'T') {
        Some(Rank::Ten)
    } else if c == '9' {
        Some(Rank::Nine)
    } else if c == '8' {
        Some(Rank::Eight)
    } else if c == '7' {
        Some(Rank::Seven)
    } else if c == '6' {
        Some(Rank::Six)
    } else if c == '5' {
        Some(Rank::Five)
    } else if c == '4' {
        Some(Rank::Four)
    } else if c == '3' {
        Some(Rank::Three)
    } else if c == '2' {
        Some(Rank::Two)
    } else {
        None
    }
}

/// The PBN character of a rank.
pub open spec fn spec_rank_char(r: Rank) -> char {
    match r {
        Rank::Ace => 'A',
        Rank::King => 'K',
        Rank::Queen => 'Q',
        Rank::Jack => 'J',
        Rank::Ten => 'T',
        Rank::Nine => '9',
        Rank::Eight => '8',
        Rank::Seven => '7',
        Rank::Six => '6',
        Rank::Five => '5',
        Rank::Four => '4',
        Rank::Three => '3',
        Rank::Two => '2',
    }
}

/// High-card points: Ace 4, King 3, Queen 2, Jack 1, others 0.
pub open spec fn spec_hcp(r: Rank) -> nat {
    match r {
        Rank::Ace => 4,
        Rank::King => 3,
        Rank::Queen => 2,
        Rank::Jack => 1,
        _ => 0,
    }
}

impl Rank {
    /// Position in the order Ace (0) .. Two (12).
    pub fn index(&self) -> (i: usize)
        ensures
            i == rank_idx(*self),
    {
        match self {
            Rank::Ace => 0,
            Rank::King => 1,
            Rank::Queen => 2,
            Rank::Jack => 3,
            Rank::Ten => 4,
            Rank::Nine => 5,
            Rank::Eight => 6,
            Rank::Seven => 7,
            Rank::Six => 8,
            Rank::Five => 9,
            Rank::Four => 10,
            Rank::Three => 11,
            Rank::Two => 12,
        }
    }

    /// The rank at position `i` of the order Ace .. Two.
    pub fn from_index(i: usize) -> (r: Rank)
        requires
            i < 13,
        ensures
            r == rank_at(i as int),
            rank_idx(r) == i,
    {
        match i {
            0 => Rank::Ace,
            1 => Rank::King,
            2 => Rank::Queen,
            3 => Rank::Jack,
            4 => Rank::Ten,
            5 => Rank::Nine,
            6 => Rank::Eight,
            7 => Rank::Seven,
            8 => Rank::Six,
            9 => Rank::Five,
            10 => Rank::Four,
            11 => Rank::Three,
            _ => Rank::Two,
        }
    }

    /// All ranks from the Ace down.
    pub fn all() -> (a: [Rank; 13])
        ensures
            forall|i: int| 0 <= i < 13 ==> #[trigger] a@[i] == rank_at(i),
    {
        RANKS_DISPLAY_ORDER
    }

    /// All ranks in display order (Ace first).
    pub fn all_display() -> (a: [Rank; 13])
        ensures
            forall|i: int| 0 <= i < 13 ==> #[trigger] a@[i] == rank_at(i),
    {
        RANKS_DISPLAY_ORDER
    }

    /// Parses a rank from its PBN character.
    pub fn from_char(c: char) -> (r: Option<Rank>)
        ensures
            r == spec_rank_from_char(c),
    {
        if char_ci(c, 'A') {
            Some(Rank::Ace)
        } else if char_ci(c, 'K') {
            Some(Rank::King)
        } else if char_ci(c, 'Q') {
            Some(Rank::Queen)
        } else if char_ci(c, 'J') {
            Some(Rank::Jack)
        } else if char_ci(c, 'T') {
            Some(Rank::Ten)
        } else if c == '9' {
            Some(Rank::Nine)
        } else if c == '8' {
            Some(Rank::Eight)
        } else if c == '7' {
            Some(Rank::Seven)
        } else if c == '6' {
            Some(Rank::Six)
        } else if c == '5' {
            Some(Rank::Five)
        } else if c == '4' {
            Some(Rank::Four)
        } else if c == '3' {
            Some(Rank::Three)
        } else if c == '2' {
            Some(Rank::Two)
        } else {
            None
        }
    }

    /// Parses a rank from a PBN character (the same as [`Rank::from_char`]).
    pub fn from_pbn_char(c: char) -> (r: Option<Rank>)
        ensures
            r == spec_rank_from_char(c),
    {
        Rank::from_char(c)
    }

    /// The PBN character of this rank.
    pub fn to_char(&self) -> (c: char)
        ensures
            c == spec_rank_char(*self),
    {
        match self {
            Rank::Ace => 'A',
            Rank::King => 'K',
            Rank::Queen => 'Q',
            Rank::Jack => 'J',
            Rank::Ten => 'T',
            Rank::Nine => '9',
            Rank::Eight => '8',
            Rank::Seven => '7',
            Rank::Six => '6',
            Rank::Five => '5',
            Rank::Four => '4',
            Rank::Three => '3',
            Rank::Two => '2',
        }
    }

    /// High-card points of this rank.
    pub fn hcp(&self) -> (p: u8)
        ensures
            p == spec_hcp(*self),
    {
        match self {
            Rank::Ace => 4,
            Rank::King => 3,
            Rank::Queen => 2,
            Rank::Jack => 1,
            _ => 0,
        }
    }

    /// High-card points of this rank (the same as [`Rank::hcp`]).
    pub fn hcp_value(&self) -> (p: u8)
        ensures
            p == spec_hcp(*self),
    {
        self.hcp()
    }
}

/// Reading the character that a rank is written with gives back the rank.
pub proof fn law_rank_char_roundtrip(r: Rank)
    ensures
        spec_rank_from_char(spec_rank_char(r)) == Some(r),
{
}

// ---------------------------------------------------------------- Suit

/// Position of a suit in display order: Spades 0, Hearts 1, Diamonds 2, Clubs 3.
pub open spec fn suit_idx(s: Suit) -> int {
    match s {
        Suit::Spades => 0,
        Suit::Hearts => 1,
        Suit::Diamonds => 2,
        Suit::Clubs => 3,
    }
}

pub open spec fn suit_at(i: int) -> Suit {
    if i <= 0 {
        Suit::Spades
    } else if i == 1 {
        Suit::Hearts
    } else if i == 2 {
        Suit::Diamonds
    } else {
        Suit::Clubs
    }
}

/// The Unicode symbol of a suit.
pub open spec fn spec_suit_symbol(s: Suit) -> char {
    match s {
        Suit::Spades => '\u{2660}',
        Suit::Hearts => '\u{2665}',
        Suit::Diamonds => '\u{2666}',
        Suit::Clubs => '\u{2663}',
    }
}

/// The suit a PBN letter names: `S`, `H`, `D`, `C` in either case.
pub open spec fn spec_suit_from_char(c: char) -> Option<Suit> {
    if ascii_ci(c, 'S') {
        Some(Suit::Spades)
    } else if ascii_ci(c, 'H') {
        Some(Suit::Hearts)
    } else if ascii_ci(c, 'D') {
        Some(Suit::Diamonds)
    } else if ascii_ci(c, 'C') {
        Some(Suit::Clubs)
    } else {
        None
    }
}

pub open spec fn spec_suit_letter(s: Suit) -> char {
    match s {
        Suit::Spades => 'S',
        Suit::Hearts => 'H',
        Suit::Diamonds => 'D',
        Suit::Clubs => 'C',
    }
}

impl Suit {
    /// Position in display order.
    pub fn index(&self) -> (i: usize)
        ensures
            i == suit_idx(*self),
    {
        match self {
            Suit::Spades => 0,
            Suit::Hearts => 1,
            Suit::Diamonds => 2,
            Suit::Clubs => 3,
        }
    }

    /// All suits, Spades first.
    pub fn all() -> (a: [Suit; 4])
        ensures
            forall|i: int| 0 <= i < 4 ==> #[trigger] a@[i] == suit_at(i),
    {
        SUITS_DISPLAY_ORDER
    }

    /// All suits in display order (Spades first).
    pub fn all_display() -> (a: [Suit; 4])
        ensures
            forall|i: int| 0 <= i < 4 ==> #[trigger] a@[i] == suit_at(i),
    {
        SUITS_DISPLAY_ORDER
    }

    /// The Unicode symbol of this suit (♠ ♥ ♦ ♣).
    pub fn symbol(&self) -> (c: char)
        ensures
            c == spec_suit_symbol(*self),
    {
        match self {
            Suit::Spades => '\u{2660}',
            Suit::Hearts => '\u{2665}',
            Suit::Diamonds => '\u{2666}',
            Suit::Clubs => '\u{2663}',
        }
    }

    /// Whether the suit is printed in red (Hearts and Diamonds).
    pub fn is_red(&self) -> (b: bool)
        ensures
            b == (*self == Suit::Hearts || *self == Suit::Diamonds),
    {
        match self {
            Suit::Hearts | Suit::Diamonds => true,
            _ => false,
        }
    }

    /// Parses a suit from its PBN letter.
    pub fn from_char(c: char) -> (s: Option<Suit>)
        ensures
            s == spec_suit_from_char(c),
    {
        if char_ci(c, 'S') {
            Some(Suit::Spades)
        } else if char_ci(c, 'H') {
            Some(Suit::Hearts)
        } else if char_ci(c, 'D') {
            Some(Suit::Diamonds)
        } else if char_ci(c, 'C') {
            Some(Suit::Clubs)
        } else {
            None
        }
    }

    /// The PBN letter of this suit.
    pub fn to_char(&self) -> (c: char)
        ensures
            c == spec_suit_letter(*self),
    {
        match self {
            Suit::Spades => 'S',
            Suit::Hearts => 'H',
            Suit::Diamonds => 'D',
            Suit::Clubs => 'C',
        }
    }
}

// ---------------------------------------------------------------- Card

impl Card {
    pub fn new(suit: Suit, rank: Rank) -> (c: Card)
        ensures
            c.suit == suit,
            c.rank == rank,
    {
        Card { suit, rank }
    }
}

// ---------------------------------------------------------------- Direction

/// The seat that a PBN letter names: `N`, `E`, `S`, `W` in either case.
pub open spec fn spec_direction_from_char(c: char) -> Option<Direction> {
    if ascii_ci(c, 'N') {
        Some(Direction::North)
    } else if ascii_ci(c, 'E') {
        Some(Direction::East)
    } else if ascii_ci(c, 'S') {
        Some(Direction::South)
    } else if ascii_ci(c, 'W') {
        Some(Direction::West)
    } else {
        None
    }
}

/// The next seat clockwise.
pub open spec fn spec_next(d: Direction) -> Direction {
    match d {
        Direction::North => Direction::East,
        Direction::East => Direction::South,
        Direction::South => Direction::West,
        Direction::West => Direction::North,
    }
}

pub open spec fn spec_partner(d: Direction) -> Direction {
    spec_next(spec_next(d))
}

/// The seat `k` places clockwise from `d`.
pub open spec fn spec_advance(d: Direction, k: nat) -> Direction
    decreases k,
{
    if k == 0 {
        d
    } else {
        spec_next(spec_advance(d, (k - 1) as nat))
    }
}

/// The full name of a seat.
pub open spec fn spec_direction_name(d: Direction) -> Seq<char> {
    match d {
        Direction::North => seq!['N', 'o', 'r', 't', 'h'],
        Direction::East => seq!['E', 'a', 's', 't'],
        Direction::South => seq!['S', 'o', 'u', 't', 'h'],
        Direction::West => seq!['W', 'e', 's', 't'],
    }
}

/// Whether the seat sits North-South.
pub open spec fn is_ns(d: Direction) -> bool {
    d == Direction::North || d == Direction::South
}

impl Direction {
    /// All seats clockwise from North.
    pub fn all() -> (a: [Direction; 4])
        ensures
            a@[0] == Direction::North,
            a@[1] == Direction::East,
            a@[2] == Direction::South,
            a@[3] == Direction::West,
    {
        [Direction::North, Direction::East, Direction::South, Direction::West]
    }

    pub fn from_char(c: char) -> (d: Option<Direction>)
        ensures
            d == spec_direction_from_char(c),
    {
        if char_ci(c, 'N') {
            Some(Direction::North)
        } else if char_ci(c, 'E') {
            Some(Direction::East)
        } else if char_ci(c, 'S') {
            Some(Direction::South)
        } else if char_ci(c, 'W') {
            Some(Direction::West)
        } else {
            None
        }
    }

    pub fn next(&self) -> (d: Direction)
        ensures
            d == spec_next(*self),
    {
        match self {
            Direction::North => Direction::East,
            Direction::East => Direction::South,
            Direction::South => Direction::West,
            Direction::West => Direction::North,
        }
    }

    pub fn partner(&self) -> (d: Direction)
        ensures
            d == spec_partner(*self),
    {
        self.next().next()
    }

    /// Column of the seat in a bidding table: West 0, North 1, East 2, South 3.
    pub fn table_position(&self) -> (p: usize)
        ensures
            p == (match *self {
                Direction::West => 0usize,
                Direction::North => 1usize,
                Direction::East => 2usize,
                Direction::South => 3usize,
            }),
    {
        match self {
            Direction::West => 0,
            Direction::North => 1,
            Direction::East => 2,
            Direction::South => 3,
        }
    }

    /// The PBN letter of the seat.
    pub fn to_char(&self) -> (c: char)
        ensures
            c == (match *self {
                Direction::North => 'N',
                Direction::East => 'E',
                Direction::South => 'S',
                Direction::West => 'W',
            }),
    {
        match self {
            Direction::North => 'N',
            Direction::East => 'E',
            Direction::South => 'S',
            Direction::West => 'W',
        }
    }

    /// Appends the full name of the seat to `out`.
    pub fn push_name(&self, out: &mut Vec<char>)
        ensures
            final(out)@ == old(out)@ + spec_direction_name(*self),
    {
        let ghost start = out@;
        match self {
            Direction::North => {
                out.push('N');
                out.push('o');
                out.push('r');
                out.push('t');
                out.push('h');
            },
            Direction::East => {
                out.push('E');
                out.push('a');
                out.push('s');
                out.push('t');
            },
            Direction::South => {
                out.push('S');
                out.push('o');
                out.push('u');
                out.push('t');
                out.push('h');
            },
            Direction::West => {
                out.push('W');
                out.push('e');
                out.push('s');
                out.push('t');
            },
        }
        proof {
            assert(out@ =~= start + spec_direction_name(*self));
        }
    }

    /// The full name of the seat ("North", "East", "South", "West").
    pub fn to_string(&self) -> (s: String)
        ensures
            s@ == spec_direction_name(*self),
    {
        let mut v: Vec<char> = Vec::new();
        self.push_name(&mut v);
        proof {
            assert(v@ =~= spec_direction_name(*self));
        }
        string_of(&v)
    }
}

/// Seats go round the table: a seat's partner's partner is the seat itself,
/// no seat is its own partner, and four steps clockwise come back to the seat.
pub proof fn law_partner_and_rotation(d: Direction)
    ensures
        spec_partner(spec_partner(d)) == d,
        spec_partner(d) != d,
        spec_advance(d, 4) == d,
{
    reveal_with_fuel(spec_advance, 5);
}

// ---------------------------------------------------------------- Strain

/// The symbol of a strain: a suit symbol, or `NT`.
pub open spec fn spec_strain_symbol(s: Strain) -> Seq<char> {
    match s {
        Strain::Clubs => seq!['\u{2663}'],
        Strain::Diamonds => seq!['\u{2666}'],
        Strain::Hearts => seq!['\u{2665}'],
        Strain::Spades => seq!['\u{2660}'],
        Strain::NoTrump => seq!['N', 'T'],
    }
}

/// The strain that a PBN denomination names: `C`, `D`, `H`, `S`, `N` or `NT`,
/// in either case.
pub open spec fn spec_strain_from(s: Seq<char>) -> Option<Strain> {
    if seq_ci(s, seq!['C']) {
        Some(Strain::Clubs)
    } else if seq_ci(s, seq!['D']) {
        Some(Strain::Diamonds)
    } else if seq_ci(s, seq!['H']) {
        Some(Strain::Hearts)
    } else if seq_ci(s, seq!['S']) {
        Some(Strain::Spades)
    } else if seq_ci(s, seq!['N']) || seq_ci(s, seq!['N', 'T']) {
        Some(Strain::NoTrump)
    } else {
        None
    }
}

impl Strain {
    /// Parses a strain from `s[lo..hi]`.
    pub fn from_range(s: &Vec<char>, lo: usize, hi: usize) -> (r: Option<Strain>)
        requires
            lo <= hi <= s.len(),
        ensures
            r == spec_strain_from(s@.subrange(lo as int, hi as int)),
    {
        let c = ['C'];
        let d = ['D'];
        let h = ['H'];
        let sp = ['S'];
        let n = ['N'];
        let nt = ['N', 'T'];
        proof {
            assert(c@ =~= seq!['C']);
            assert(d@ =~= seq!['D']);
            assert(h@ =~= seq!['H']);
            assert(sp@ =~= seq!['S']);
            assert(n@ =~= seq!['N']);
            assert(nt@ =~= seq!['N', 'T']);
        }
        if range_ci(s, lo, hi, &c) {
            Some(Strain::Clubs)
        } else if range_ci(s, lo, hi, &d) {
            Some(Strain::Diamonds)
        } else if range_ci(s, lo, hi, &h) {
            Some(Strain::Hearts)
        } else if range_ci(s, lo, hi, &sp) {
            Some(Strain::Spades)
        } else if range_ci(s, lo, hi, &n) || range_ci(s, lo, hi, &nt) {
            Some(Strain::NoTrump)
        } else {
            None
        }
    }

    /// Parses a strain from its PBN denomination.
    pub fn from_str(s: &str) -> (r: Option<Strain>)
        ensures
            r == spec_strain_from(s@),
    {
        let v = chars_of(s);
        proof {
            assert(v@.subrange(0, v@.len() as int) =~= v@);
        }
        Strain::from_range(&v, 0, v.len())
    }

    /// The symbol of this strain.
    pub fn symbol(&self) -> (s: &'static str)
        ensures
            s@ == spec_strain_symbol(*self),
    {
        match self {
            Strain::Clubs => {
                proof {
                    reveal_strlit("\u{2663}");
                }
                "\u{2663}"
            },
            Strain::Diamonds => {
                proof {
                    reveal_strlit("\u{2666}");
                }
                "\u{2666}"
            },
            Strain::Hearts => {
                proof {
                    reveal_strlit("\u{2665}");
                }
                "\u{2665}"
            },
            Strain::Spades => {
                proof {
                    reveal_strlit("\u{2660}");
                }
                "\u{2660}"
            },
            Strain::NoTrump => {
                proof {
                    reveal_strlit("NT");
                }
                "NT"
            },
        }
    }

    /// Appends the symbol of this strain to `out`.
    pub fn push_symbol(&self, out: &mut Vec<char>)
        ensures
            final(out)@ == old(out)@ + spec_strain_symbol(*self),
    {
        let ghost start = out@;
        match self {
            Strain::Clubs => out.push('\u{2663}'),
            Strain::Diamonds => out.push('\u{2666}'),
            Strain::Hearts => out.push('\u{2665}'),
            Strain::Spades => out.push('\u{2660}'),
            Strain::NoTrump => {
                out.push('N');
                out.push('T');
            },
        }
        proof {
            assert(out@ =~= start + spec_strain_symbol(*self));
        }
    }

    /// Whether the strain is a red suit.
    pub fn is_red(&self) -> (b: bool)
        ensures
            b == (*self == Strain::Hearts || *self == Strain::Diamonds),
    {
        match self {
            Strain::Hearts | Strain::Diamonds => true,
            _ => false,
        }
    }
}

// ---------------------------------------------------------------- Call

/// The call that a PBN token names: `Pass` or `P`, `X`, `XX`, `+`, `-`, or a
/// level 1-7 followed by a denomination (letters in either case).
pub open spec fn spec_call_from_pbn(s: Seq<char>) -> Option<Call> {
    if seq_ci(s, seq!['P', 'A', 'S', 'S']) || seq_ci(s, seq!['P']) {
        Some(Call::Pass)
    } else if seq_ci(s, seq!['X']) {
        Some(Call::Double)
    } else if seq_ci(s, seq!['X', 'X']) {
        Some(Call::Redouble)
    } else if s == seq!['+'] {
        Some(Call::Continue)
    } else if s == seq!['-'] {
        Some(Call::Blank)
    } else if s.len() >= 2 && '1' <= s[0] && s[0] <= '7' && spec_strain_from(s.drop_first())
        is Some {
        Some(
            Call::Bid {
                level: (s[0] as int - '0' as int) as u8,
                strain: spec_strain_from(s.drop_first()).unwrap(),
            },
        )
    } else {
        None
    }
}

/// How a call is written: `Pass`, `X`, `XX`, `+`, `-`, or level and strain symbol.
pub open spec fn spec_call_text(c: Call) -> Seq<char> {
    match c {
        Call::Pass => seq!['P', 'a', 's', 's'],
        Call::Double => seq!['X'],
        Call::Redouble => seq!['X', 'X'],
        Call::Continue => seq!['+'],
        Call::Blank => seq!['-'],
        Call::Bid { level, strain } => crate::text::decimal(level as nat) + spec_strain_symbol(
            strain,
        ),
    }
}

impl Call {
    /// Parses a call from `s[lo..hi]`.
    pub fn from_range(s: &Vec<char>, lo: usize, hi: usize) -> (r: Option<Call>)
        requires
            lo <= hi <= s.len(),
        ensures
            r == spec_call_from_pbn(s@.subrange(lo as int, hi as int)),
    {
        let ghost t = s@.subrange(lo as int, hi as int);
        let pass = ['P', 'A', 'S', 'S'];
        let p = ['P'];
        let x = ['X'];
        let xx = ['X', 'X'];
        let plus = ['+'];
        let minus = ['-'];
        proof {
            assert(pass@ =~= seq!['P', 'A', 'S', 'S']);
            assert(p@ =~= seq!['P']);
            assert(x@ =~= seq!['X']);
            assert(xx@ =~= seq!['X', 'X']);
            assert(plus@ =~= seq!['+']);
            assert(minus@ =~= seq!['-']);
        }
        if range_ci(s, lo, hi, &pass) || range_ci(s, lo, hi, &p) {
            return Some(Call::Pass);
        }
        if range_ci(s, lo, hi, &x) {
            return Some(Call::Double);
        }
        if range_ci(s, lo, hi, &xx) {
            return Some(Call::Redouble);
        }
        if crate::text::range_eq(s, lo, hi, &plus) {
            return Some(Call::Continue);
        }
        if crate::text::range_eq(s, lo, hi, &minus) {
            return Some(Call::Blank);
        }
        if hi - lo >= 2 && '1' <= s[lo] && s[lo] <= '7' {
            proof {
                assert(t[0] == s@[lo as int]);
                assert(t.drop_first() =~= s@.subrange(lo + 1, hi as int));
            }
            match Strain::from_range(s, lo + 1, hi) {
                Some(strain) => {
                    let level = (s[lo] as u32 - '0' as u32) as u8;
                    return Some(Call::Bid { level, strain });
                },
                None => {
                    return None;
                },
            }
        }
        proof {
            if t.len() >= 2 {
                assert(t[0] == s@[lo as int]);
            }
        }
        None
    }

    /// Parses a call from a PBN token.
    pub fn from_pbn(s: &str) -> (r: Option<Call>)
        ensures
            r == spec_call_from_pbn(s@),
    {
        let v = chars_of(s);
        proof {
            assert(v@.subrange(0, v@.len() as int) =~= v@);
        }
        Call::from_range(&v, 0, v.len())
    }

    /// Appends how this call is written to `out`.
    pub fn push_text(&self, out: &mut Vec<char>)
        ensures
            final(out)@ == old(out)@ + spec_call_text(*self),
    {
        let ghost start = out@;
        match self {
            Call::Pass => {
                out.push('P');
                out.push('a');
                out.push('s');
                out.push('s');
            },
            Call::Double => out.push('X'),
            Call::Redouble => {
                out.push('X');
                out.push('X');
            },
            Call::Continue => out.push('+'),
            Call::Blank => out.push('-'),
            Call::Bid { level, strain } => {
                crate::text::push_decimal(out, *level as u64);
                strain.push_symbol(out);
            },
        }
        proof {
            assert(out@ =~= start + spec_call_text(*self));
        }
    }

    /// How this call is written, e.g. `1NT`, `4♠`, `Pass`, `X`.
    pub fn to_string(&self) -> (s: String)
        ensures
            s@ == spec_call_text(*self),
    {
        let mut v: Vec<char> = Vec::new();
        self.push_text(&mut v);
        proof {
            assert(v@ =~= spec_call_text(*self));
        }
        string_of(&v)
    }

    /// Whether the call is a bid.
    pub fn is_bid(&self) -> (b: bool)
        ensures
            b == (*self is Bid),
    {
        match self {
            Call::Bid { .. } => true,
            _ => false,
        }
    }
}

/// The PBN-token parser with `AP` (all pass) singled out: `None` for `AP`
/// (either case, surrounding whitespace ignored), otherwise what
/// [`Call::from_pbn`] gives for the trimmed token.
pub open spec fn spec_call_from_pbn_ext(s: Seq<char>) -> Option<Call> {
    let t = crate::text::trim(s);
    if seq_ci(t, seq!['A', 'P']) {
        None
    } else {
        spec_call_from_pbn(t)
    }
}

/// Parses a call from PBN notation, treating `AP` (all pass) as no single call.
pub fn call_from_pbn_ext(s: &str) -> (r: Option<Call>)
    ensures
        r == spec_call_from_pbn_ext(s@),
{
    let v = chars_of(s);
    proof {
        assert(v@.subrange(0, v@.len() as int) =~= v@);
    }
    let (a, b) = crate::text::trim_bounds(&v, 0, v.len());
    let ap = ['A', 'P'];
    proof {
        assert(ap@ =~= seq!['A', 'P']);
    }
    if range_ci(&v, a, b, &ap) {
        return None;
    }
    Call::from_range(&v, a, b)
}

/// A call together with its annotation (the text after `!`, `$` and the like).
#[derive(Debug, Clone, PartialEq, Eq)]
pub struct AnnotatedCall {
    pub call: Call,
    pub annotation: Option<String>,
}

impl AnnotatedCall {
    pub fn new(call: Call) -> (a: AnnotatedCall)
        ensures
            a.call == call,
            a.annotation is None,
    {
        AnnotatedCall { call, annotation: None }
    }

    pub fn with_annotation(call: Call, annotation: String) -> (a: AnnotatedCall)
        ensures
            a.call == call,
            a.annotation == Some(annotation),
    {
        AnnotatedCall { call, annotation: Some(annotation) }
    }
}

} // verus!
