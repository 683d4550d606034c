//! Which picture shows which card, and what goes wrong loading them.

use crate::model::card::{spec_rank_char, Rank, Suit};
use crate::text::{chars_of, string_of};
use vstd::prelude::*;

verus! {

/// How a rank is named in a card picture's file name.
pub open spec fn rank_file_name(r: Rank) -> Seq<char> {
    match r {
        Rank::Ace => "ace"@,
        Rank::King => "king"@,
        Rank::Queen => "queen"@,
        Rank::Jack => "jack"@,
        Rank::Ten => "10"@,
        Rank::Nine => "9"@,
        Rank::Eight => "8"@,
        Rank::Seven => "7"@,
        Rank::Six => "6"@,
        Rank::Five => "5"@,
        Rank::Four => "4"@,
        Rank::Three => "3"@,
        Rank::Two => "2"@,
    }
}

/// The name of a suit, as in its `Debug` form.
pub open spec fn suit_name(s: Suit) -> Seq<char> {
    match s {
        Suit::Spades => "Spades"@,
        Suit::Hearts => "Hearts"@,
        Suit::Diamonds => "Diamonds"@,
        Suit::Clubs => "Clubs"@,
    }
}

/// How a suit is named in a card picture's file name.
pub open spec fn suit_file_name(s: Suit) -> Seq<char> {
    match s {
        Suit::Spades => "spades"@,
        Suit::Hearts => "hearts"@,
        Suit::Diamonds => "diamonds"@,
        Suit::Clubs => "clubs"@,
    }
}

/// The file of the picture of a card: `ace_of_spades.svg`, `10_of_hearts.svg`, ...
pub open spec fn spec_card_svg(suit: Suit, rank: Rank) -> Seq<char> {
    rank_file_name(rank) + "_of_"@ + suit_file_name(suit) + ".svg"@
}

fn rank_file(r: Rank) -> (s: &'static str)
    ensures
        s@ == rank_file_name(r),
{
    match r {
        Rank::Ace => "ace",
        Rank::King => "king",
        Rank::Queen => "queen",
        Rank::Jack => "jack",
        Rank::Ten => "10",
        Rank::Nine => "9",
        Rank::Eight => "8",
        Rank::Seven => "7",
        Rank::Six => "6",
        Rank::Five => "5",
        Rank::Four => "4",
        Rank::Three => "3",
        Rank::Two => "2",
    }
}

fn suit_file(s: Suit) -> (t: &'static str)
    ensures
        t@ == suit_file_name(s),
{
    match s {
        Suit::Spades => "spades",
        Suit::Hearts => "hearts",
        Suit::Diamonds => "diamonds",
        Suit::Clubs => "clubs",
    }
}

fn suit_debug(s: Suit) -> (t: &'static str)
    ensures
        t@ == suit_name(s),
{
    match s {
        Suit::Spades => "Spades",
        Suit::Hearts => "Hearts",
        Suit::Diamonds => "Diamonds",
        Suit::Clubs => "Clubs",
    }
}

/// Appends the characters of `t` to `out`.
fn push_str(out: &mut Vec<char>, t: &str)
    ensures
        final(out)@ == old(out)@ + t@,
{
    let cs = chars_of(t);
    let ghost start = out@;
    let mut i: usize = 0;
    while i < cs.len()
        invariant
            0 <= i <= cs@.len(),
            cs@ == t@,
            out@ == start + cs@.take(i as int),
        decreases cs@.len() - i,
    {
        out.push(cs[i]);
        proof {
            assert(cs@.take(i + 1) =~= cs@.take(i as int).push(cs@[i as int]));
        }
        i = i + 1;
    }
    proof {
        assert(cs@.take(cs@.len() as int) =~= cs@);
    }
}

/// The file holding the picture of the card of `suit` and `rank`.
pub fn get_card_svg(suit: Suit, rank: Rank) -> (s: String)
    ensures
        s@ == spec_card_svg(suit, rank),
{
    let mut v: Vec<char> = Vec::new();
    push_str(&mut v, rank_file(rank));
    push_str(&mut v, "_of_");
    push_str(&mut v, suit_file(suit));
    push_str(&mut v, ".svg");
    proof {
        assert(v@ =~= spec_card_svg(suit, rank));
    }
    string_of(v.as_slice())
}

/// Why the card pictures could not be loaded.
#[derive(Debug, Clone, PartialEq, Eq)]
pub enum CardLoadError {
    MissingCard { suit: Suit, rank: Rank },
    SvgParseError { suit: Suit, rank: Rank, message: String },
}

/// How a card loading error is reported.
pub open spec fn spec_card_error_text(e: CardLoadError) -> Seq<char> {
    match e {
        CardLoadError::MissingCard { suit, rank } => "Missing card SVG: "@ + seq![spec_rank_char(rank)]
            + " of "@ + suit_name(suit),
        CardLoadError::SvgParseError { suit, rank, message } => "Failed to parse SVG for "@ + seq![
            spec_rank_char(rank),
        ] + " of "@ + suit_name(suit) + ": "@ + message@,
    }
}

impl CardLoadError {
    /// The report of the error, e.g. `Missing card SVG: A of Spades`.
    pub fn message(&self) -> (s: String)
        ensures
            s@ == spec_card_error_text(*self),
    {
        let mut v: Vec<char> = Vec::new();
        match self {
            CardLoadError::MissingCard { suit, rank } => {
                push_str(&mut v, "Missing card SVG: ");
                v.push(rank.to_char());
                push_str(&mut v, " of ");
                push_str(&mut v, suit_debug(*suit));
            },
            CardLoadError::SvgParseError { suit, rank, message } => {
                push_str(&mut v, "Failed to parse SVG for ");
                v.push(rank.to_char());
                push_str(&mut v, " of ");
                push_str(&mut v, suit_debug(*suit));
                push_str(&mut v, ": ");
                push_str(&mut v, message.as_str());
            },
        }
        proof {
            assert(v@ =~= spec_card_error_text(*self));
        }
        string_of(v.as_slice())
    }
}

} // verus!
