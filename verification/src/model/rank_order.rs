//! The order in which ranks are shown: Ace first, Two last.

use super::card::{rank_idx, Rank};
use std::cmp::Ordering;
use vstd::prelude::*;

verus! {

/// Compares two ranks for display: a higher rank comes first, so the Ace
/// sorts before the King and the Two after the Three.
pub fn rank_display_cmp(a: &Rank, b: &Rank) -> (o: Ordering)
    ensures
        (o == Ordering::Less) == (rank_idx(*a) < rank_idx(*b)),
        (o == Ordering::Equal) == (rank_idx(*a) == rank_idx(*b)),
        (o == Ordering::Greater) == (rank_idx(*a) > rank_idx(*b)),
{
    let i = a.index();
    let j = b.index();
    if i < j {
        Ordering::Less
    } else if i == j {
        Ordering::Equal
    } else {
        Ordering::Greater
    }
}

} // verus!
