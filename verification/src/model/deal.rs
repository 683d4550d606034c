//! The four hands of a deal.

use super::card::{suit_at, Direction, Suit, SUITS_DISPLAY_ORDER};
use super::hand::{holding_of, Hand};
use vstd::prelude::*;

verus! {

/// The four hands of a board.
#[derive(Debug, Clone, Copy, PartialEq, Eq)]
pub struct Deal {
    pub north: Hand,
    pub east: Hand,
    pub south: Hand,
    pub west: Hand,
}

/// The hand of seat `d`.
pub open spec fn hand_of(deal: Deal, d: Direction) -> Hand {
    match d {
        Direction::North => deal.north,
        Direction::East => deal.east,
        Direction::South => deal.south,
        Direction::West => deal.west,
    }
}

/// Whether some hand holds a card of `s`.
pub open spec fn suit_present(deal: Deal, s: Suit) -> bool {
    holding_of(deal.north, s).size() > 0 || holding_of(deal.east, s).size() > 0 || holding_of(
        deal.south,
        s,
    ).size() > 0 || holding_of(deal.west, s).size() > 0
}

/// The suits present among the first `n` of display order.
pub open spec fn suits_present_upto(deal: Deal, n: int) -> Seq<Suit>
    decreases n,
{
    if n <= 0 {
        seq![]
    } else if suit_present(deal, suit_at(n - 1)) {
        suits_present_upto(deal, n - 1).push(suit_at(n - 1))
    } else {
        suits_present_upto(deal, n - 1)
    }
}

/// The suits in which some hand holds a card, in display order.
pub open spec fn spec_suits_present(deal: Deal) -> Seq<Suit> {
    suits_present_upto(deal, 4)
}

/// At most the four suits are present, and a deal without cards, lacking
/// every suit, is a fragment too.
pub proof fn law_empty_deal_is_fragment(deal: Deal)
    ensures
        spec_suits_present(deal).len() == 0 ==> spec_suits_present(deal).len() < 4,
        spec_suits_present(deal).len() <= 4,
{
    lemma_suits_present_len(deal, 4);
}

proof fn lemma_suits_present_len(deal: Deal, n: int)
    requires
        0 <= n,
    ensures
        suits_present_upto(deal, n).len() <= n,
    decreases n,
{
    if n > 0 {
        lemma_suits_present_len(deal, n - 1);
    }
}

impl Deal {
    /// A deal with four empty hands.
    pub fn new() -> (d: Deal)
        ensures
            forall|s: Suit| !#[trigger] suit_present(d, s),
            forall|e: Direction, s: Suit, i: int|
                0 <= i < 13 ==> !#[trigger] holding_of(hand_of(d, e), s)@[i],
    {
        Deal { north: Hand::new(), east: Hand::new(), south: Hand::new(), west: Hand::new() }
    }

    /// The hand of `direction`.
    pub fn hand(&self, direction: Direction) -> (h: &Hand)
        ensures
            *h == hand_of(*self, direction),
    {
        match direction {
            Direction::North => &self.north,
            Direction::East => &self.east,
            Direction::South => &self.south,
            Direction::West => &self.west,
        }
    }

    /// Mutable access to the hand of `direction`.
    pub fn hand_mut(&mut self, direction: Direction) -> (h: &mut Hand)
        ensures
            *h == hand_of(*old(self), direction),
            hand_of(*final(self), direction) == *final(h),
            forall|e: Direction|
                e != direction ==> hand_of(*final(self), e) == hand_of(*old(self), e),
    {
        match direction {
            Direction::North => &mut self.north,
            Direction::East => &mut self.east,
            Direction::South => &mut self.south,
            Direction::West => &mut self.west,
        }
    }

    /// Replaces the hand of `direction`.
    pub fn set_hand(&mut self, direction: Direction, hand: Hand)
        ensures
            hand_of(*final(self), direction) == hand,
            forall|e: Direction|
                e != direction ==> hand_of(*final(self), e) == hand_of(*old(self), e),
    {
        match direction {
            Direction::North => self.north = hand,
            Direction::East => self.east = hand,
            Direction::South => self.south = hand,
            Direction::West => self.west = hand,
        }
    }

    /// The suits in which at least one hand holds a card, in display order.
    /// A deal that lacks some suit is a fragment.
    pub fn suits_present(&self) -> (v: Vec<Suit>)
        ensures
            v@ == spec_suits_present(*self),
    {
        let order = SUITS_DISPLAY_ORDER;
        let mut v: Vec<Suit> = Vec::new();
        let mut i: usize = 0;
        while i < 4
            invariant
                0 <= i <= 4,
                forall|k: int| 0 <= k < 4 ==> #[trigger] order@[k] == suit_at(k),
                v@ == suits_present_upto(*self, i as int),
            decreases 4 - i,
        {
            let suit = order[i];
            if !self.north.holding(suit).is_void() || !self.east.holding(suit).is_void()
                || !self.south.holding(suit).is_void() || !self.west.holding(suit).is_void() {
                v.push(suit);
            }
            i = i + 1;
        }
        v
    }

    /// Whether some suit has no card in any hand.
    pub fn is_fragment(&self) -> (b: bool)
        ensures
            b == (spec_suits_present(*self).len() < 4),
    {
        self.suits_present().len() < 4
    }

    /// Whether the deal has no card at all.
    pub fn is_empty(&self) -> (b: bool)
        ensures
            b == (spec_suits_present(*self).len() == 0),
    {
        self.suits_present().len() == 0
    }
}

} // verus!
