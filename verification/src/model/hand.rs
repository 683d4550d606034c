//! Holdings (the cards of one suit in one hand) and hands.

use super::card::{rank_at, rank_idx, spec_hcp, spec_rank_char, spec_suit_symbol, Rank, Suit};
use crate::text::string_of;
use vstd::prelude::*;

verus! {

/// Number of `true` entries of `p` among the first `n`.
pub open spec fn count_upto(p: Seq<bool>, n: int) -> nat
    decreases n,
{
    if n <= 0 {
        0
    } else {
        count_upto(p, n - 1) + (if p[n - 1] {
            1nat
        } else {
            0nat
        })
    }
}

/// Number of `true` entries of a presence table of the 13 ranks.
pub open spec fn count13(p: Seq<bool>) -> nat {
    count_upto(p, 13)
}

/// High-card points of the ranks present among the first `n`.
pub open spec fn hcp_upto(p: Seq<bool>, n: int) -> nat
    decreases n,
{
    if n <= 0 {
        0
    } else {
        hcp_upto(p, n - 1) + (if p[n - 1] {
            spec_hcp(rank_at(n - 1))
        } else {
            0nat
        })
    }
}

pub proof fn lemma_count_upto_bounds(p: Seq<bool>, n: int)
    requires
        0 <= n,
    ensures
        count_upto(p, n) <= n,
    decreases n,
{
    if n > 0 {
        lemma_count_upto_bounds(p, n - 1);
    }
}

pub proof fn lemma_count_upto_mono(p: Seq<bool>, m: int, n: int)
    requires
        0 <= m <= n,
    ensures
        count_upto(p, m) <= count_upto(p, n),
        count_upto(p, n) <= count_upto(p, m) + (n - m),
    decreases n - m,
{
    if m < n {
        lemma_count_upto_mono(p, m, n - 1);
    }
}

proof fn lemma_hcp_upto_bound_strong(p: Seq<bool>, n: int)
    requires
        0 <= n <= 13,
    ensures
        hcp_upto(p, n) <= (if n <= 0 { 0int } else if n == 1 { 4int } else if n == 2 { 7int } else if n == 3 { 9int } else { 10int }),
    decreases n,
{
    if n > 0 {
        lemma_hcp_upto_bound_strong(p, n - 1);
    }
}

/// The cards held in a single suit: a set of ranks.
#[derive(Debug, Clone, Copy, PartialEq, Eq)]
pub struct Holding {
    pub present: [bool; 13],
}

impl View for Holding {
    /// Entry `i` tells whether the rank at position `i` (Ace 0 .. Two 12) is held.
    type V = Seq<bool>;

    open spec fn view(&self) -> Seq<bool> {
        self.present@
    }
}

impl Holding {
    /// Whether the holding has the rank `r`.
    pub open spec fn has(&self, r: Rank) -> bool {
        self@[rank_idx(r)]
    }

    /// Number of cards held.
    pub open spec fn size(&self) -> nat {
        count13(self@)
    }

    /// The empty holding (a void).
    pub fn new() -> (h: Holding)
        ensures
            forall|i: int| 0 <= i < 13 ==> !#[trigger] h@[i],
            h.size() == 0,
    {
        let h = Holding { present: [false; 13] };
        proof {
            assert(h@.len() == 13);
            lemma_count_all_false(h@, 13);
        }
        h
    }

    /// The holding made of the given ranks (duplicates count once).
    pub fn from_ranks<const N: usize>(ranks: [Rank; N]) -> (h: Holding)
        ensures
            forall|i: int|
                0 <= i < 13 ==> (#[trigger] h@[i] <==> exists|j: int|
                    0 <= j < ranks@.len() && rank_idx(#[trigger] ranks@[j]) == i),
    {
        let mut h = Holding::new();
        let mut k: usize = 0;
        while k < ranks.len()
            invariant
                0 <= k <= ranks@.len(),
                h@.len() == 13,
                forall|i: int|
                    0 <= i < 13 ==> (#[trigger] h@[i] <==> exists|j: int|
                        0 <= j < k && rank_idx(#[trigger] ranks@[j]) == i),
            decreases ranks@.len() - k,
        {
            let r = ranks[k];
            h.add(r);
            proof {
                assert forall|i: int| 0 <= i < 13 implies (#[trigger] h@[i] <==> exists|j: int|
                    0 <= j < k + 1 && rank_idx(#[trigger] ranks@[j]) == i) by {
                    if h@[i] && i != rank_idx(r) {
                        let j = choose|j: int| 0 <= j < k && rank_idx(#[trigger] ranks@[j]) == i;
                        assert(0 <= j < k + 1);
                    }
                    if i == rank_idx(r) {
                        assert(ranks@[k as int] == r);
                    }
                }
            }
            k = k + 1;
        }
        h
    }

    /// Adds a rank to the holding.
    pub fn add(&mut self, rank: Rank)
        ensures
            final(self)@ == old(self)@.update(rank_idx(rank), true),
    {
        let i = rank.index();
        self.present[i] = true;
    }

    /// Whether the holding has `rank`.
    pub fn contains(&self, rank: Rank) -> (b: bool)
        ensures
            b == self.has(rank),
    {
        self.present[rank.index()]
    }

    /// Number of cards held.
    pub fn len(&self) -> (n: usize)
        ensures
            n == self.size(),
            n <= 13,
    {
        let mut n: usize = 0;
        let mut i: usize = 0;
        while i < 13
            invariant
                0 <= i <= 13,
                self@.len() == 13,
                n == count_upto(self@, i as int),
                n <= i,
            decreases 13 - i,
        {
            if self.present[i] {
                n = n + 1;
            }
            i = i + 1;
        }
        n
    }

    /// Whether no card is held.
    pub fn is_empty(&self) -> (b: bool)
        ensures
            b == (self.size() == 0),
    {
        self.len() == 0
    }

    /// Whether no card is held (a void).
    pub fn is_void(&self) -> (b: bool)
        ensures
            b == (self.size() == 0),
    {
        self.len() == 0
    }

    /// High-card points of the holding.
    pub fn hcp(&self) -> (p: u8)
        ensures
            p == hcp_upto(self@, 13),
            p <= 10,
    {
        let mut p: u8 = 0;
        let mut i: usize = 0;
        while i < 13
            invariant
                0 <= i <= 13,
                self@.len() == 13,
                p == hcp_upto(self@, i as int),
            decreases 13 - i,
        {
            proof {
                lemma_hcp_upto_bound_strong(self@, i as int);
            }
            if self.present[i] {
                let r = Rank::from_index(i);
                p = p + r.hcp();
            }
            i = i + 1;
        }
        proof {
            lemma_hcp_upto_bound_strong(self@, 13);
        }
        p
    }

    /// The ranks held, highest first.
    pub fn ranks(&self) -> (v: Vec<Rank>)
        ensures
            v@ == ranks_upto(self@, 13),
    {
        let mut v: Vec<Rank> = Vec::new();
        let mut i: usize = 0;
        while i < 13
            invariant
                0 <= i <= 13,
                self@.len() == 13,
                v@ == ranks_upto(self@, i as int),
            decreases 13 - i,
        {
            if self.present[i] {
                v.push(Rank::from_index(i));
            }
            i = i + 1;
        }
        v
    }

    /// The holding as text: the rank characters highest first, or `-` for a void.
    pub fn to_string(&self) -> (s: String)
        ensures
            s@ == holding_text(self@),
    {
        let mut v: Vec<char> = Vec::new();
        if self.is_empty() {
            v.push('-');
            proof {
                assert(v@ =~= seq!['-']);
            }
        } else {
            let mut i: usize = 0;
            while i < 13
                invariant
                    0 <= i <= 13,
                    self@.len() == 13,
                    v@ == rank_chars_upto(self@, i as int),
                decreases 13 - i,
            {
                if self.present[i] {
                    v.push(Rank::from_index(i).to_char());
                }
                i = i + 1;
            }
        }
        string_of(&v)
    }
}

/// The ranks present among the first `n` positions, highest first.
pub open spec fn ranks_upto(p: Seq<bool>, n: int) -> Seq<Rank>
    decreases n,
{
    if n <= 0 {
        seq![]
    } else if p[n - 1] {
        ranks_upto(p, n - 1).push(rank_at(n - 1))
    } else {
        ranks_upto(p, n - 1)
    }
}

/// The rank characters present among the first `n` positions, highest first.
pub open spec fn rank_chars_upto(p: Seq<bool>, n: int) -> Seq<char>
    decreases n,
{
    if n <= 0 {
        seq![]
    } else if p[n - 1] {
        rank_chars_upto(p, n - 1).push(spec_rank_char(rank_at(n - 1)))
    } else {
        rank_chars_upto(p, n - 1)
    }
}

/// How a holding is written: its rank characters, or `-` for a void.
pub open spec fn holding_text(p: Seq<bool>) -> Seq<char> {
    if count13(p) == 0 {
        seq!['-']
    } else {
        rank_chars_upto(p, 13)
    }
}

proof fn lemma_count_all_false(p: Seq<bool>, n: int)
    requires
        0 <= n <= p.len(),
        forall|i: int| 0 <= i < p.len() ==> !#[trigger] p[i],
    ensures
        count_upto(p, n) == 0,
    decreases n,
{
    if n > 0 {
        lemma_count_all_false(p, n - 1);
    }
}

/// A hand holds at most 13 cards of each suit, so at most 52 in all, and at
/// most 10 high-card points in each suit, so at most 40 in all.
pub proof fn law_hand_bounds(h: Hand)
    ensures
        h.spades.size() <= 13,
        h.hearts.size() <= 13,
        h.diamonds.size() <= 13,
        h.clubs.size() <= 13,
        hand_size(h) <= 52,
        hand_hcp(h) <= 40,
{
    lemma_count_upto_bounds(h.spades@, 13);
    lemma_count_upto_bounds(h.hearts@, 13);
    lemma_count_upto_bounds(h.diamonds@, 13);
    lemma_count_upto_bounds(h.clubs@, 13);
    lemma_hcp_upto_bound_strong(h.spades@, 13);
    lemma_hcp_upto_bound_strong(h.hearts@, 13);
    lemma_hcp_upto_bound_strong(h.diamonds@, 13);
    lemma_hcp_upto_bound_strong(h.clubs@, 13);
}

/// A player's hand: one holding per suit.
#[derive(Debug, Clone, Copy, PartialEq, Eq)]
pub struct Hand {
    pub spades: Holding,
    pub hearts: Holding,
    pub diamonds: Holding,
    pub clubs: Holding,
}

/// The holding of `h` in suit `s`.
pub open spec fn holding_of(h: Hand, s: Suit) -> Holding {
    match s {
        Suit::Spades => h.spades,
        Suit::Hearts => h.hearts,
        Suit::Diamonds => h.diamonds,
        Suit::Clubs => h.clubs,
    }
}

/// Number of cards in a hand.
pub open spec fn hand_size(h: Hand) -> nat {
    h.spades.size() + h.hearts.size() + h.diamonds.size() + h.clubs.size()
}

/// High-card points of a hand.
pub open spec fn hand_hcp(h: Hand) -> nat {
    hcp_upto(h.spades@, 13) + hcp_upto(h.hearts@, 13) + hcp_upto(h.diamonds@, 13) + hcp_upto(
        h.clubs@,
        13,
    )
}

/// How a hand is written: each suit symbol followed by its holding, separated by spaces.
pub open spec fn hand_text(h: Hand) -> Seq<char> {
    seq![spec_suit_symbol(Suit::Spades), ' '] + holding_text(h.spades@) + seq![
        ' ',
        spec_suit_symbol(Suit::Hearts),
        ' ',
    ] + holding_text(h.hearts@) + seq![' ', spec_suit_symbol(Suit::Diamonds), ' '] + holding_text(
        h.diamonds@,
    ) + seq![' ', spec_suit_symbol(Suit::Clubs), ' '] + holding_text(h.clubs@)
}

impl Hand {
    /// A hand with no cards.
    pub fn new() -> (h: Hand)
        ensures
            h.spades.size() == 0,
            h.hearts.size() == 0,
            h.diamonds.size() == 0,
            h.clubs.size() == 0,
            forall|s: Suit, i: int| 0 <= i < 13 ==> !#[trigger] holding_of(h, s)@[i],
    {
        Hand {
            spades: Holding::new(),
            hearts: Holding::new(),
            diamonds: Holding::new(),
            clubs: Holding::new(),
        }
    }

    pub fn from_holdings(spades: Holding, hearts: Holding, diamonds: Holding, clubs: Holding) -> (h:
        Hand)
        ensures
            h.spades == spades,
            h.hearts == hearts,
            h.diamonds == diamonds,
            h.clubs == clubs,
    {
        Hand { spades, hearts, diamonds, clubs }
    }

    /// The holding in `suit`.
    pub fn holding(&self, suit: Suit) -> (r: &Holding)
        ensures
            *r == holding_of(*self, suit),
    {
        match suit {
            Suit::Spades => &self.spades,
            Suit::Hearts => &self.hearts,
            Suit::Diamonds => &self.diamonds,
            Suit::Clubs => &self.clubs,
        }
    }

    /// Mutable access to the holding in `suit`.
    pub fn holding_mut(&mut self, suit: Suit) -> (r: &mut Holding)
        ensures
            *r == holding_of(*old(self), suit),
            holding_of(*final(self), suit) == *final(r),
            forall|t: Suit| t != suit ==> holding_of(*final(self), t) == holding_of(*old(self), t),
    {
        match suit {
            Suit::Spades => &mut self.spades,
            Suit::Hearts => &mut self.hearts,
            Suit::Diamonds => &mut self.diamonds,
            Suit::Clubs => &mut self.clubs,
        }
    }

    /// Replaces the holding in `suit`.
    pub fn set_holding(&mut self, suit: Suit, holding: Holding)
        ensures
            holding_of(*final(self), suit) == holding,
            forall|t: Suit| t != suit ==> holding_of(*final(self), t) == holding_of(*old(self), t),
    {
        match suit {
            Suit::Spades => self.spades = holding,
            Suit::Hearts => self.hearts = holding,
            Suit::Diamonds => self.diamonds = holding,
            Suit::Clubs => self.clubs = holding,
        }
    }

    /// Adds a card of `suit` and `rank` to the hand.
    pub fn holding_mut_add(&mut self, suit: Suit, rank: Rank)
        ensures
            holding_of(*final(self), suit)@ == holding_of(*old(self), suit)@.update(
                rank_idx(rank),
                true,
            ),
            forall|t: Suit| t != suit ==> holding_of(*final(self), t) == holding_of(*old(self), t),
    {
        match suit {
            Suit::Spades => self.spades.add(rank),
            Suit::Hearts => self.hearts.add(rank),
            Suit::Diamonds => self.diamonds.add(rank),
            Suit::Clubs => self.clubs.add(rank),
        }
    }

    /// High-card points of the whole hand.
    pub fn total_hcp(&self) -> (p: u8)
        ensures
            p == hand_hcp(*self),
            p <= 40,
    {
        self.spades.hcp() + self.hearts.hcp() + self.diamonds.hcp() + self.clubs.hcp()
    }

    /// Number of cards in each suit: spades, hearts, diamonds, clubs.
    pub fn shape(&self) -> (s: [u8; 4])
        ensures
            s@[0] == self.spades.size(),
            s@[1] == self.hearts.size(),
            s@[2] == self.diamonds.size(),
            s@[3] == self.clubs.size(),
    {
        [
            self.spades.len() as u8,
            self.hearts.len() as u8,
            self.diamonds.len() as u8,
            self.clubs.len() as u8,
        ]
    }

    /// Number of cards in the hand.
    pub fn card_count(&self) -> (n: usize)
        ensures
            n == hand_size(*self),
    {
        self.spades.len() + self.hearts.len() + self.diamonds.len() + self.clubs.len()
    }

    /// The hand as text, e.g. `♠ AKQ ♥ JT9 ♦ 876 ♣ 5432`.
    pub fn to_string(&self) -> (s: String)
        ensures
            s@ == hand_text(*self),
    {
        let mut v: Vec<char> = Vec::new();
        v.push(Suit::Spades.symbol());
        v.push(' ');
        push_holding_text(&mut v, &self.spades);
        v.push(' ');
        v.push(Suit::Hearts.symbol());
        v.push(' ');
        push_holding_text(&mut v, &self.hearts);
        v.push(' ');
        v.push(Suit::Diamonds.symbol());
        v.push(' ');
        push_holding_text(&mut v, &self.diamonds);
        v.push(' ');
        v.push(Suit::Clubs.symbol());
        v.push(' ');
        push_holding_text(&mut v, &self.clubs);
        proof {
            assert(v@ =~= hand_text(*self));
        }
        string_of(&v)
    }
}

/// Appends how `h` is written to `out`.
pub fn push_holding_text(out: &mut Vec<char>, h: &Holding)
    ensures
        final(out)@ == old(out)@ + holding_text(h@),
{
    let ghost start = out@;
    if h.is_empty() {
        out.push('-');
    } else {
        let mut i: usize = 0;
        while i < 13
            invariant
                0 <= i <= 13,
                h@.len() == 13,
                out@ == start + rank_chars_upto(h@, i as int),
            decreases 13 - i,
        {
            if h.present[i] {
                out.push(Rank::from_index(i).to_char());
                proof {
                    assert(out@ =~= start + rank_chars_upto(h@, i + 1));
                }
            }
            i = i + 1;
        }
    }
    proof {
        assert(out@ =~= start + holding_text(h@));
    }
}

} // verus!
