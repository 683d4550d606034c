//! Tricks and the play of a board.

use super::card::{Card, Direction};
use vstd::prelude::*;

verus! {

/// One trick: the cards in the order they were played.
#[derive(Debug, Clone, Copy, PartialEq, Eq)]
pub struct Trick {
    pub leader: Direction,
    pub cards: [Option<Card>; 4],
    pub winner: Option<Direction>,
}

/// Whether all four cards of the trick are known.
pub open spec fn trick_complete(t: Trick) -> bool {
    forall|i: int| 0 <= i < 4 ==> #[trigger] t.cards@[i] is Some
}

impl Trick {
    /// An empty trick led by `leader`.
    pub fn new(leader: Direction) -> (t: Trick)
        ensures
            t.leader == leader,
            t.winner is None,
            forall|i: int| 0 <= i < 4 ==> #[trigger] t.cards@[i] is None,
    {
        Trick { leader, cards: [None, None, None, None], winner: None }
    }

    /// Whether all four cards are known.
    pub fn is_complete(&self) -> (b: bool)
        ensures
            b == trick_complete(*self),
    {
        self.cards[0].is_some() && self.cards[1].is_some() && self.cards[2].is_some()
            && self.cards[3].is_some()
    }

    /// Records the card played in `position` (0-3); other positions are ignored.
    pub fn set_card(&mut self, position: usize, card: Card)
        ensures
            position < 4 ==> final(self).cards@ == old(self).cards@.update(
                position as int,
                Some(card),
            ),
            position >= 4 ==> final(self).cards@ == old(self).cards@,
            final(self).leader == old(self).leader,
            final(self).winner == old(self).winner,
    {
        if position < 4 {
            self.cards.set(position, Some(card));
        }
    }
}

/// The play of a board, trick by trick.
#[derive(Debug, Clone)]
pub struct PlaySequence {
    pub opening_leader: Direction,
    pub tricks: Vec<Trick>,
}

/// Number of complete tricks among the first `n`.
pub open spec fn complete_upto(tricks: Seq<Trick>, n: int) -> nat
    decreases n,
{
    if n <= 0 {
        0
    } else {
        complete_upto(tricks, n - 1) + (if trick_complete(tricks[n - 1]) {
            1nat
        } else {
            0nat
        })
    }
}

impl PlaySequence {
    pub fn new(opening_leader: Direction) -> (p: PlaySequence)
        ensures
            p.opening_leader == opening_leader,
            p.tricks@ == Seq::<Trick>::empty(),
    {
        PlaySequence { opening_leader, tricks: Vec::new() }
    }

    pub fn add_trick(&mut self, trick: Trick)
        ensures
            final(self).tricks@ == old(self).tricks@.push(trick),
            final(self).opening_leader == old(self).opening_leader,
    {
        self.tricks.push(trick);
    }

    /// Whether all thirteen tricks are complete.
    pub fn is_complete(&self) -> (b: bool)
        ensures
            b == (self.tricks@.len() == 13 && forall|i: int|
                0 <= i < 13 ==> trick_complete(#[trigger] self.tricks@[i])),
    {
        if self.tricks.len() != 13 {
            return false;
        }
        let mut i: usize = 0;
        while i < 13
            invariant
                self.tricks@.len() == 13,
                0 <= i <= 13,
                forall|j: int| 0 <= j < i ==> trick_complete(#[trigger] self.tricks@[j]),
            decreases 13 - i,
        {
            if !self.tricks[i].is_complete() {
                return false;
            }
            i = i + 1;
        }
        true
    }

    /// Number of complete tricks.
    pub fn tricks_played(&self) -> (n: usize)
        ensures
            n == complete_upto(self.tricks@, self.tricks@.len() as int),
    {
        let mut n: usize = 0;
        let mut i: usize = 0;
        while i < self.tricks.len()
            invariant
                0 <= i <= self.tricks@.len(),
                n == complete_upto(self.tricks@, i as int),
                n <= i,
            decreases self.tricks@.len() - i,
        {
            if self.tricks[i].is_complete() {
                n = n + 1;
            }
            i = i + 1;
        }
        n
    }
}

} // verus!
