//! Card pattern analysis for declarer play in notrump: sure winners,
//! winners by promotion and winners by length.
//!
//! All three analyses look at one suit at a time and combine dummy's and
//! declarer's holdings. A holding is seen as its presence table: entry `i`
//! tells whether the rank at position `i` (Ace 0 .. Two 12) is held.

use super::card::{rank_at, rank_idx, suit_at, Card, Rank, Suit};
use super::hand::{count13, count_upto, holding_of, lemma_count_upto_bounds, lemma_count_upto_mono, Hand};
use vstd::prelude::*;

verus! {

// ================================================================ specification

pub open spec fn max_nat(a: nat, b: nat) -> nat {
    if a >= b {
        a
    } else {
        b
    }
}

pub open spec fn min_int(a: int, b: int) -> int {
    if a <= b {
        a
    } else {
        b
    }
}

/// Number of tricks a suit can provide at most: the length of the longer holding
/// (a card must be played from both hands on every trick).
pub open spec fn max_tricks(d: Seq<bool>, c: Seq<bool>) -> nat {
    max_nat(count13(d), count13(c))
}

/// Length of the unbroken run of combined ranks starting at position `i`.
///
/// The combined holding is the sorted list of both hands' ranks. The run takes
/// the ranks `i, i+1, ...` while they are present; a rank present in both hands
/// (only possible in an inconsistent deal) ends the run after itself, because
/// its second copy breaks the sequence.
pub open spec fn run_from(d: Seq<bool>, c: Seq<bool>, i: int) -> nat
    decreases 13 - i,
{
    if 0 <= i < 13 && (d[i] || c[i]) {
        if d[i] && c[i] {
            1
        } else {
            1 + run_from(d, c, i + 1)
        }
    } else {
        0
    }
}

/// Position of the highest rank held by either hand at or after `i`; 13 if none.
pub open spec fn first_from(d: Seq<bool>, c: Seq<bool>, i: int) -> int
    decreases 13 - i,
{
    if i < 0 || i >= 13 {
        13
    } else if d[i] || c[i] {
        i
    } else {
        first_from(d, c, i + 1)
    }
}

/// The cards of `suit` whose rank positions `i < n` have `p[i]`, highest first.
pub open spec fn cards_upto(suit: Suit, p: Seq<bool>, n: int) -> Seq<Card>
    decreases n,
{
    if n <= 0 {
        seq![]
    } else if p[n - 1] {
        cards_upto(suit, p, n - 1).push(Card { suit, rank: rank_at(n - 1) })
    } else {
        cards_upto(suit, p, n - 1)
    }
}

/// The cards of `suit` whose rank positions have `p[i]`, highest first.
pub open spec fn cards_of(suit: Suit, p: Seq<bool>) -> Seq<Card> {
    cards_upto(suit, p, 13)
}

/// A presence table of the 13 ranks.
pub open spec fn table(f: spec_fn(int) -> bool) -> Seq<bool> {
    Seq::new(13, f)
}

// ---------------------------------------------------------------- sure winners

/// Number of sure winners in one suit: the run of combined ranks from the Ace,
/// limited by the number of tricks the suit provides.
pub open spec fn sure_count(d: Seq<bool>, c: Seq<bool>) -> nat {
    min_int(run_from(d, c, 0) as int, max_tricks(d, c) as int) as nat
}

/// Sure winners of one suit: the top `sure_count` ranks (Ace, King, ...).
pub open spec fn sure_in_suit(d: Seq<bool>, c: Seq<bool>, suit: Suit) -> Seq<Card> {
    cards_of(suit, table(|i: int| i < sure_count(d, c)))
}

/// Sure winners of a hand pair, suit by suit (Spades, Hearts, Diamonds, Clubs).
pub open spec fn spec_sure_winners(dummy: Hand, declarer: Hand) -> Seq<Card> {
    sure_in_suit(dummy.spades@, declarer.spades@, Suit::Spades) + sure_in_suit(
        dummy.hearts@,
        declarer.hearts@,
        Suit::Hearts,
    ) + sure_in_suit(dummy.diamonds@, declarer.diamonds@, Suit::Diamonds) + sure_in_suit(
        dummy.clubs@,
        declarer.clubs@,
        Suit::Clubs,
    )
}

// ---------------------------------------------------------------- promotion

/// Position of the highest combined rank (the number of missing higher honours).
pub open spec fn top_pos(d: Seq<bool>, c: Seq<bool>) -> int {
    first_from(d, c, 0)
}

/// Length of the honour sequence that starts at the highest combined rank.
pub open spec fn promo_run(d: Seq<bool>, c: Seq<bool>) -> nat {
    run_from(d, c, top_pos(d, c))
}

/// Whether the suit offers winners by promotion: the highest combined rank is
/// below the Ace and the sequence from it is longer than the number of missing
/// higher honours.
pub open spec fn promotes(d: Seq<bool>, c: Seq<bool>) -> bool {
    0 < top_pos(d, c) < 13 && promo_run(d, c) > top_pos(d, c)
}

/// Whether position `i` lies in the honour sequence.
pub open spec fn in_seq(d: Seq<bool>, c: Seq<bool>, i: int) -> bool {
    top_pos(d, c) <= i < top_pos(d, c) + promo_run(d, c)
}

/// The holding of the strictly shorter hand; nothing when lengths are equal.
pub open spec fn shorter_has(d: Seq<bool>, c: Seq<bool>, i: int) -> bool {
    if count13(d) < count13(c) {
        d[i]
    } else if count13(c) < count13(d) {
        c[i]
    } else {
        false
    }
}

/// Sequence cards held by the shorter hand.
pub open spec fn seq_short(d: Seq<bool>, c: Seq<bool>) -> Seq<bool> {
    table(|i: int| in_seq(d, c, i) && shorter_has(d, c, i))
}

/// Sequence cards not held by the shorter hand.
pub open spec fn seq_other(d: Seq<bool>, c: Seq<bool>) -> Seq<bool> {
    table(|i: int| in_seq(d, c, i) && !shorter_has(d, c, i))
}

/// Cards spent to drive out the missing honours: as many as there are missing
/// honours, taken from the top of the sequence, the shorter hand's cards first.
pub open spec fn spent_table(d: Seq<bool>, c: Seq<bool>) -> Seq<bool> {
    let h = top_pos(d, c);
    let a = seq_short(d, c);
    let o = seq_other(d, c);
    table(
        |i: int|
            (a[i] && count_upto(a, i) < h) || (o[i] && count_upto(o, i) < h - count13(a)),
    )
}

/// Number of winners by promotion: the sequence length less the missing
/// honours, limited by the number of tricks the suit provides.
pub open spec fn promo_count(d: Seq<bool>, c: Seq<bool>) -> int {
    min_int(promo_run(d, c) - top_pos(d, c), max_tricks(d, c) as int)
}

/// Sequence cards left after spending.
pub open spec fn unspent_table(d: Seq<bool>, c: Seq<bool>) -> Seq<bool> {
    table(|i: int| in_seq(d, c, i) && !spent_table(d, c)[i])
}

/// Winners by promotion: the highest unspent sequence cards, `promo_count` of them.
pub open spec fn promo_win_table(d: Seq<bool>, c: Seq<bool>) -> Seq<bool> {
    let u = unspent_table(d, c);
    table(|i: int| u[i] && count_upto(u, i) < promo_count(d, c))
}

/// Spent cards of one suit, highest first.
pub open spec fn promo_spent_in_suit(d: Seq<bool>, c: Seq<bool>, suit: Suit) -> Seq<Card> {
    if promotes(d, c) {
        cards_of(suit, spent_table(d, c))
    } else {
        seq![]
    }
}

/// Winners by promotion of one suit, highest first.
pub open spec fn promo_winners_in_suit(d: Seq<bool>, c: Seq<bool>, suit: Suit) -> Seq<Card> {
    if promotes(d, c) {
        cards_of(suit, promo_win_table(d, c))
    } else {
        seq![]
    }
}

pub open spec fn spec_promo_spent(dummy: Hand, declarer: Hand) -> Seq<Card> {
    promo_spent_in_suit(dummy.spades@, declarer.spades@, Suit::Spades) + promo_spent_in_suit(
        dummy.hearts@,
        declarer.hearts@,
        Suit::Hearts,
    ) + promo_spent_in_suit(dummy.diamonds@, declarer.diamonds@, Suit::Diamonds)
        + promo_spent_in_suit(dummy.clubs@, declarer.clubs@, Suit::Clubs)
}

pub open spec fn spec_promo_winners(dummy: Hand, declarer: Hand) -> Seq<Card> {
    promo_winners_in_suit(dummy.spades@, declarer.spades@, Suit::Spades) + promo_winners_in_suit(
        dummy.hearts@,
        declarer.hearts@,
        Suit::Hearts,
    ) + promo_winners_in_suit(dummy.diamonds@, declarer.diamonds@, Suit::Diamonds)
        + promo_winners_in_suit(dummy.clubs@, declarer.clubs@, Suit::Clubs)
}

// ---------------------------------------------------------------- length

/// Number of cards of `suit` in `cards`.
pub open spec fn count_in_suit(cards: Seq<Card>, suit: Suit) -> nat
    decreases cards.len(),
{
    if cards.len() == 0 {
        0
    } else {
        count_in_suit(cards.drop_last(), suit) + (if cards.last().suit == suit {
            1nat
        } else {
            0nat
        })
    }
}

/// Whether the card of `suit` at rank position `i` is already used by the sure
/// winner or promotion analysis.
pub open spec fn accounted(
    sure: Seq<Card>,
    spent: Seq<Card>,
    pwin: Seq<Card>,
    suit: Suit,
    i: int,
) -> bool {
    let card = Card { suit, rank: rank_at(i) };
    sure.contains(card) || spent.contains(card) || pwin.contains(card)
}

/// Number of tricks that the sure winners and the promotion of `suit` use.
pub open spec fn accounted_tricks(
    sure: Seq<Card>,
    spent: Seq<Card>,
    pwin: Seq<Card>,
    suit: Suit,
) -> nat {
    count_in_suit(sure, suit) + count_in_suit(pwin, suit) + count_in_suit(spent, suit)
}

/// The first `k` entries present in `p` (highest ranks), the rest dropped.
pub open spec fn keep_top(p: Seq<bool>, k: int) -> Seq<bool> {
    table(|i: int| p[i] && count_upto(p, i) < k)
}

/// Defenders' cards in the suit when dummy and declarer hold `n` between them.
pub open spec fn defenders_longer(n: nat) -> int {
    (13 - n + 1) / 2
}

/// Number of winners by length: rounds beyond those needed to exhaust the
/// defenders, who are assumed to split their cards as evenly as possible.
pub open spec fn length_count(d: Seq<bool>, c: Seq<bool>) -> int {
    let m = max_tricks(d, c) as int;
    let x = defenders_longer(count13(d) + count13(c));
    if m > x {
        m - x
    } else {
        0
    }
}

/// Dummy's cards left for length play: not accounted for, and, when dummy is the
/// shorter hand, without its lowest cards played as companions.
pub open spec fn length_avail_dummy(
    d: Seq<bool>,
    c: Seq<bool>,
    sure: Seq<Card>,
    spent: Seq<Card>,
    pwin: Seq<Card>,
    suit: Suit,
) -> Seq<bool> {
    let dm = table(|i: int| d[i] && !accounted(sure, spent, pwin, suit, i));
    if count13(d) >= count13(c) {
        dm
    } else {
        keep_top(dm, count13(dm) - companions(d, c, sure, spent, pwin, suit))
    }
}

/// Declarer's cards left for length play, as for dummy.
pub open spec fn length_avail_declarer(
    d: Seq<bool>,
    c: Seq<bool>,
    sure: Seq<Card>,
    spent: Seq<Card>,
    pwin: Seq<Card>,
    suit: Suit,
) -> Seq<bool> {
    let cm = table(|i: int| c[i] && !accounted(sure, spent, pwin, suit, i));
    if count13(d) >= count13(c) {
        keep_top(cm, count13(cm) - companions(d, c, sure, spent, pwin, suit))
    } else {
        cm
    }
}

/// Cards of the shorter hand played beside the sure winners and promotions.
pub open spec fn companions(
    d: Seq<bool>,
    c: Seq<bool>,
    sure: Seq<Card>,
    spent: Seq<Card>,
    pwin: Seq<Card>,
    suit: Suit,
) -> int {
    let shorter = if count13(d) >= count13(c) {
        count13(c)
    } else {
        count13(d)
    };
    min_int(accounted_tricks(sure, spent, pwin, suit) as int, shorter as int)
}

/// Position of the highest entry present in `p`; 13 if none.
pub open spec fn best_pos(p: Seq<bool>) -> int {
    first_from(p, p, 0)
}

/// Whether dummy holds the length winners: it has more cards left, or as
/// many and the higher best card.
pub open spec fn dummy_wins_length(a: Seq<bool>, b: Seq<bool>) -> bool {
    count13(a) > count13(b) || (count13(a) == count13(b) && best_pos(a) < best_pos(b))
}

/// Whether the suit yields length play at all.
pub open spec fn has_length_play(
    d: Seq<bool>,
    c: Seq<bool>,
    sure: Seq<Card>,
    spent: Seq<Card>,
    pwin: Seq<Card>,
    suit: Suit,
) -> bool {
    count13(d) + count13(c) >= 7 && length_count(d, c) > 0 && (count13(
        length_avail_dummy(d, c, sure, spent, pwin, suit),
    ) > 0 || count13(length_avail_declarer(d, c, sure, spent, pwin, suit)) > 0)
}

/// The cards of `suit` in the hand that holds the length winners.
pub open spec fn length_hand(
    d: Seq<bool>,
    c: Seq<bool>,
    sure: Seq<Card>,
    spent: Seq<Card>,
    pwin: Seq<Card>,
    suit: Suit,
) -> Seq<bool> {
    let a = length_avail_dummy(d, c, sure, spent, pwin, suit);
    let b = length_avail_declarer(d, c, sure, spent, pwin, suit);
    if dummy_wins_length(a, b) {
        a
    } else {
        b
    }
}

/// The cards of `suit` in the other hand.
pub open spec fn length_other(
    d: Seq<bool>,
    c: Seq<bool>,
    sure: Seq<Card>,
    spent: Seq<Card>,
    pwin: Seq<Card>,
    suit: Suit,
) -> Seq<bool> {
    let a = length_avail_dummy(d, c, sure, spent, pwin, suit);
    let b = length_avail_declarer(d, c, sure, spent, pwin, suit);
    if dummy_wins_length(a, b) {
        b
    } else {
        a
    }
}

/// Length winners of one suit: the highest `length_count` cards of the hand
/// that holds them, highest first.
pub open spec fn length_winners_in_suit(
    d: Seq<bool>,
    c: Seq<bool>,
    sure: Seq<Card>,
    spent: Seq<Card>,
    pwin: Seq<Card>,
    suit: Suit,
) -> Seq<Card> {
    if has_length_play(d, c, sure, spent, pwin, suit) {
        cards_of(suit, keep_top(length_hand(d, c, sure, spent, pwin, suit), length_count(d, c)))
    } else {
        seq![]
    }
}

/// Ducks among the first `n` rank positions: the length hand's cards below the
/// winners and all of the other hand's cards, by rank, highest first.
pub open spec fn ducks_upto(w: Seq<bool>, o: Seq<bool>, k: int, suit: Suit, n: int) -> Seq<Card>
    decreases n,
{
    if n <= 0 {
        seq![]
    } else {
        let card = Card { suit, rank: rank_at(n - 1) };
        let a = if w[n - 1] && count_upto(w, n - 1) >= k {
            seq![card]
        } else {
            seq![]
        };
        let b = if o[n - 1] {
            seq![card]
        } else {
            seq![]
        };
        ducks_upto(w, o, k, suit, n - 1) + a + b
    }
}

/// Ducks of one suit.
pub open spec fn length_ducks_in_suit(
    d: Seq<bool>,
    c: Seq<bool>,
    sure: Seq<Card>,
    spent: Seq<Card>,
    pwin: Seq<Card>,
    suit: Suit,
) -> Seq<Card> {
    if has_length_play(d, c, sure, spent, pwin, suit) {
        ducks_upto(
            length_hand(d, c, sure, spent, pwin, suit),
            length_other(d, c, sure, spent, pwin, suit),
            length_count(d, c),
            suit,
            13,
        )
    } else {
        seq![]
    }
}

/// Whether no suit holds more than 13 cards between dummy and declarer.
pub open spec fn pair_consistent(dummy: Hand, declarer: Hand) -> bool {
    forall|s: Suit| #[trigger]
        count13(holding_of(dummy, s)@) + count13(holding_of(declarer, s)@) <= 13
}

/// Length winners over all suits, given the other analyses' results.
pub open spec fn length_winners_given(
    dummy: Hand,
    declarer: Hand,
    sure: Seq<Card>,
    spent: Seq<Card>,
    pwin: Seq<Card>,
) -> Seq<Card> {
    length_winners_in_suit(dummy.spades@, declarer.spades@, sure, spent, pwin, Suit::Spades)
        + length_winners_in_suit(dummy.hearts@, declarer.hearts@, sure, spent, pwin, Suit::Hearts)
        + length_winners_in_suit(
        dummy.diamonds@,
        declarer.diamonds@,
        sure,
        spent,
        pwin,
        Suit::Diamonds,
    ) + length_winners_in_suit(dummy.clubs@, declarer.clubs@, sure, spent, pwin, Suit::Clubs)
}

/// Ducks over all suits, given the other analyses' results.
pub open spec fn length_ducks_given(
    dummy: Hand,
    declarer: Hand,
    sure: Seq<Card>,
    spent: Seq<Card>,
    pwin: Seq<Card>,
) -> Seq<Card> {
    length_ducks_in_suit(dummy.spades@, declarer.spades@, sure, spent, pwin, Suit::Spades)
        + length_ducks_in_suit(dummy.hearts@, declarer.hearts@, sure, spent, pwin, Suit::Hearts)
        + length_ducks_in_suit(
        dummy.diamonds@,
        declarer.diamonds@,
        sure,
        spent,
        pwin,
        Suit::Diamonds,
    ) + length_ducks_in_suit(dummy.clubs@, declarer.clubs@, sure, spent, pwin, Suit::Clubs)
}

pub open spec fn spec_length_winners(dummy: Hand, declarer: Hand) -> Seq<Card> {
    length_winners_given(
        dummy,
        declarer,
        spec_sure_winners(dummy, declarer),
        spec_promo_spent(dummy, declarer),
        spec_promo_winners(dummy, declarer),
    )
}

/// Dummy and declarer hold no card in common.
pub open spec fn no_shared_card(dummy: Hand, declarer: Hand) -> bool {
    forall|s: Suit, i: int|
        0 <= i < 13 ==> !(#[trigger] holding_of(dummy, s)@[i] && holding_of(declarer, s)@[i])
}

/// A card is held by dummy or by declarer.
pub open spec fn held_by_pair(dummy: Hand, declarer: Hand, card: Card) -> bool {
    holding_of(dummy, card.suit)@[rank_idx(card.rank)] || holding_of(declarer, card.suit)@[rank_idx(
        card.rank,
    )]
}

/// A card that neither the sure winners nor the promotion (spent or won) use.
pub open spec fn unused_elsewhere(dummy: Hand, declarer: Hand, card: Card) -> bool {
    !spec_sure_winners(dummy, declarer).contains(card) && !spec_promo_spent(dummy, declarer).contains(
        card,
    ) && !spec_promo_winners(dummy, declarer).contains(card)
}

/// Length winners `winners` and ducks `ducks` play only cards that dummy or
/// declarer holds and that the other analyses do not use, and no card is both
/// a winner and a duck.
pub open spec fn length_result_sound(
    dummy: Hand,
    declarer: Hand,
    winners: Seq<Card>,
    ducks: Seq<Card>,
) -> bool {
    &&& forall|card: Card| #[trigger]
        winners.contains(card) ==> held_by_pair(dummy, declarer, card) && unused_elsewhere(
            dummy,
            declarer,
            card,
        )
    &&& forall|card: Card| #[trigger]
        ducks.contains(card) ==> held_by_pair(dummy, declarer, card) && unused_elsewhere(
            dummy,
            declarer,
            card,
        )
    &&& forall|card: Card| !(#[trigger] winners.contains(card) && ducks.contains(card))
}

pub open spec fn spec_length_ducks(dummy: Hand, declarer: Hand) -> Seq<Card> {
    length_ducks_given(
        dummy,
        declarer,
        spec_sure_winners(dummy, declarer),
        spec_promo_spent(dummy, declarer),
        spec_promo_winners(dummy, declarer),
    )
}


// ================================================================ results

/// Result of promotion analysis for a suit or hand.
#[derive(Debug, Clone, Default)]
pub struct PromotionResult {
    /// Cards that are spent (used to drive out higher honors).
    pub spent: Vec<Card>,
    /// Cards that become winners after promotion.
    pub winners: Vec<Card>,
}

impl PromotionResult {
    /// An empty promotion result.
    pub fn new() -> (r: PromotionResult)
        ensures
            r.spent@ == Seq::<Card>::empty(),
            r.winners@ == Seq::<Card>::empty(),
    {
        PromotionResult { spent: Vec::new(), winners: Vec::new() }
    }

    /// Appends another promotion result to this one.
    pub fn merge(&mut self, other: PromotionResult)
        ensures
            final(self).spent@ == old(self).spent@ + other.spent@,
            final(self).winners@ == old(self).winners@ + other.winners@,
    {
        extend_cards(&mut self.spent, other.spent);
        extend_cards(&mut self.winners, other.winners);
    }

    /// Whether any card is promoted to a winner.
    pub fn has_promotion(&self) -> (b: bool)
        ensures
            b == (self.winners@.len() > 0),
    {
        self.winners.len() > 0
    }

    /// Number of cards involved in promotion (spent and winners).
    pub fn total_cards(&self) -> (n: usize)
        requires
            self.spent@.len() + self.winners@.len() <= usize::MAX,
        ensures
            n == self.spent@.len() + self.winners@.len(),
    {
        self.spent.len() + self.winners.len()
    }
}

/// Result of length winner analysis for a suit or hand.
#[derive(Debug, Clone, Default)]
pub struct LengthResult {
    /// Cards used to duck (give up tricks to exhaust defenders).
    pub ducks: Vec<Card>,
    /// Cards that become winners through length.
    pub winners: Vec<Card>,
}

impl LengthResult {
    /// An empty length result.
    pub fn new() -> (r: LengthResult)
        ensures
            r.ducks@ == Seq::<Card>::empty(),
            r.winners@ == Seq::<Card>::empty(),
    {
        LengthResult { ducks: Vec::new(), winners: Vec::new() }
    }

    /// Appends another length result to this one.
    pub fn merge(&mut self, other: LengthResult)
        ensures
            final(self).ducks@ == old(self).ducks@ + other.ducks@,
            final(self).winners@ == old(self).winners@ + other.winners@,
    {
        extend_cards(&mut self.ducks, other.ducks);
        extend_cards(&mut self.winners, other.winners);
    }

    /// Whether any card wins by length.
    pub fn has_length_winners(&self) -> (b: bool)
        ensures
            b == (self.winners@.len() > 0),
    {
        self.winners.len() > 0
    }

    /// Number of cards involved (ducks and winners).
    pub fn total_cards(&self) -> (n: usize)
        requires
            self.ducks@.len() + self.winners@.len() <= usize::MAX,
        ensures
            n == self.ducks@.len() + self.winners@.len(),
    {
        self.ducks.len() + self.winners.len()
    }
}

// ================================================================ helpers

fn extend_cards(dst: &mut Vec<Card>, src: Vec<Card>)
    ensures
        final(dst)@ == old(dst)@ + src@,
{
    let ghost start = dst@;
    let mut i: usize = 0;
    while i < src.len()
        invariant
            0 <= i <= src@.len(),
            dst@ == start + src@.take(i as int),
        decreases src@.len() - i,
    {
        dst.push(src[i]);
        proof {
            assert(src@.take(i + 1) =~= src@.take(i as int).push(src@[i as int]));
        }
        i = i + 1;
    }
    proof {
        assert(src@.take(src@.len() as int) =~= src@);
    }
}

fn count_table(p: &[bool]) -> (n: usize)
    requires
        p@.len() == 13,
    ensures
        n == count13(p@),
        n <= 13,
{
    let mut n: usize = 0;
    let mut i: usize = 0;
    while i < 13
        invariant
            0 <= i <= 13,
            p@.len() == 13,
            n == count_upto(p@, i as int),
            n <= i,
        decreases 13 - i,
    {
        if p[i] {
            n = n + 1;
        }
        i = i + 1;
    }
    n
}

fn cards_from_table(suit: Suit, p: &[bool]) -> (v: Vec<Card>)
    requires
        p@.len() == 13,
    ensures
        v@ == cards_of(suit, p@),
{
    let mut v: Vec<Card> = Vec::new();
    let mut i: usize = 0;
    while i < 13
        invariant
            0 <= i <= 13,
            p@.len() == 13,
            v@ == cards_upto(suit, p@, i as int),
        decreases 13 - i,
    {
        if p[i] {
            v.push(Card::new(suit, Rank::from_index(i)));
        }
        i = i + 1;
    }
    v
}

/// Position of the first entry at or after `start` present in `d` or `c`.
fn first_present(d: &[bool], c: &[bool], start: usize) -> (r: usize)
    requires
        d@.len() == 13,
        c@.len() == 13,
        start <= 13,
    ensures
        r == first_from(d@, c@, start as int),
        start <= r <= 13,
{
    let mut i = start;
    while i < 13 && !d[i] && !c[i]
        invariant
            start <= i <= 13,
            d@.len() == 13,
            c@.len() == 13,
            first_from(d@, c@, start as int) == first_from(d@, c@, i as int),
        decreases 13 - i,
    {
        i = i + 1;
    }
    i
}

fn run_length(d: &[bool], c: &[bool], start: usize) -> (r: usize)
    requires
        d@.len() == 13,
        c@.len() == 13,
        start <= 13,
    ensures
        r == run_from(d@, c@, start as int),
        r <= 13 - start,
{
    let mut i = start;
    while i < 13 && (d[i] || c[i]) && !(d[i] && c[i])
        invariant
            start <= i <= 13,
            d@.len() == 13,
            c@.len() == 13,
            run_from(d@, c@, start as int) == (i - start) + run_from(d@, c@, i as int),
        decreases 13 - i,
    {
        i = i + 1;
    }
    if i < 13 && d[i] && c[i] {
        i + 1 - start
    } else {
        i - start
    }
}

fn keep_top_table(p: &[bool], k: usize) -> (v: Vec<bool>)
    requires
        p@.len() == 13,
    ensures
        v@ == keep_top(p@, k as int),
{
    let mut v: Vec<bool> = Vec::new();
    let mut n: usize = 0;
    let mut i: usize = 0;
    while i < 13
        invariant
            0 <= i <= 13,
            p@.len() == 13,
            n == count_upto(p@, i as int),
            n <= i,
            v@.len() == i,
            forall|j: int| 0 <= j < i ==> #[trigger] v@[j] == (p@[j] && count_upto(p@, j) < k),
        decreases 13 - i,
    {
        v.push(p[i] && n < k);
        if p[i] {
            n = n + 1;
        }
        i = i + 1;
    }
    proof {
        assert(v@ =~= keep_top(p@, k as int));
    }
    v
}

fn contains_card(cards: &[Card], card: Card) -> (b: bool)
    ensures
        b == cards@.contains(card),
{
    let mut j: usize = 0;
    while j < cards.len()
        invariant
            0 <= j <= cards@.len(),
            forall|k: int| 0 <= k < j ==> cards@[k] != card,
        decreases cards@.len() - j,
    {
        if cards[j] == card {
            return true;
        }
        j = j + 1;
    }
    false
}

fn count_cards_in_suit(cards: &[Card], suit: Suit) -> (n: usize)
    ensures
        n == count_in_suit(cards@, suit),
{
    let mut n: usize = 0;
    let mut j: usize = 0;
    while j < cards.len()
        invariant
            0 <= j <= cards@.len(),
            n == count_in_suit(cards@.take(j as int), suit),
            n <= j,
        decreases cards@.len() - j,
    {
        proof {
            assert(cards@.take(j + 1).drop_last() =~= cards@.take(j as int));
        }
        if cards[j].suit == suit {
            n = n + 1;
        }
        j = j + 1;
    }
    proof {
        assert(cards@.take(cards@.len() as int) =~= cards@);
    }
    n
}

// ================================================================ analyses

/// Find all sure winners in a notrump contract by combining dummy and declarer hands.
///
/// Sure winners are cards that win tricks without giving up the lead: the
/// unbroken sequence from the Ace across both hands, limited per suit by the
/// length of the longer holding, since a card is played from both hands on
/// every trick. With AKQ opposite JT9 only AKQ are sure winners.
pub fn find_sure_winners(dummy: &Hand, declarer: &Hand) -> (w: Vec<Card>)
    ensures
        w@ == spec_sure_winners(*dummy, *declarer),
{
    let mut w: Vec<Card> = Vec::new();
    extend_cards(&mut w, find_sure_winners_in_suit(dummy, declarer, Suit::Spades));
    extend_cards(&mut w, find_sure_winners_in_suit(dummy, declarer, Suit::Hearts));
    extend_cards(&mut w, find_sure_winners_in_suit(dummy, declarer, Suit::Diamonds));
    extend_cards(&mut w, find_sure_winners_in_suit(dummy, declarer, Suit::Clubs));
    proof {
        assert(w@ =~= spec_sure_winners(*dummy, *declarer));
    }
    w
}

/// Sure winners in a single suit.
fn find_sure_winners_in_suit(dummy: &Hand, declarer: &Hand, suit: Suit) -> (w: Vec<Card>)
    ensures
        w@ == sure_in_suit(holding_of(*dummy, suit)@, holding_of(*declarer, suit)@, suit),
{
    let dh = dummy.holding(suit);
    let ch = declarer.holding(suit);
    let d = &dh.present;
    let c = &ch.present;
    let dl = dh.len();
    let cl = ch.len();
    let max_tricks = if dl >= cl {
        dl
    } else {
        cl
    };
    let run = run_length(d, c, 0);
    let n = if run <= max_tricks {
        run
    } else {
        max_tricks
    };
    let mut p: Vec<bool> = Vec::new();
    let mut i: usize = 0;
    while i < 13
        invariant
            0 <= i <= 13,
            p@.len() == i,
            forall|j: int| 0 <= j < i ==> #[trigger] p@[j] == (j < n),
        decreases 13 - i,
    {
        p.push(i < n);
        i = i + 1;
    }
    proof {
        assert(p@ =~= table(|i: int| i < sure_count(d@, c@)));
    }
    cards_from_table(suit, p.as_slice())
}

/// Find all promotable winners in a notrump contract by combining dummy and declarer hands.
///
/// Promotable winners are cards of an honour sequence that win once the higher
/// honours have been driven out: KQJ spends the K and promotes QJ; QJT98
/// spends QJ and promotes T98; QJ alone promotes nothing. Suits holding the Ace
/// have none (their top cards are sure winners). Honours are spent from the
/// shorter hand first, to keep entries and avoid blocking the suit.
pub fn find_promotable_winners(dummy: &Hand, declarer: &Hand) -> (r: PromotionResult)
    ensures
        r.spent@ == spec_promo_spent(*dummy, *declarer),
        r.winners@ == spec_promo_winners(*dummy, *declarer),
{
    let mut r = PromotionResult::new();
    r.merge(find_promotable_winners_in_suit(dummy, declarer, Suit::Spades));
    r.merge(find_promotable_winners_in_suit(dummy, declarer, Suit::Hearts));
    r.merge(find_promotable_winners_in_suit(dummy, declarer, Suit::Diamonds));
    r.merge(find_promotable_winners_in_suit(dummy, declarer, Suit::Clubs));
    proof {
        assert(r.spent@ =~= spec_promo_spent(*dummy, *declarer));
        assert(r.winners@ =~= spec_promo_winners(*dummy, *declarer));
    }
    r
}

/// Promotable winners in a single suit.
fn find_promotable_winners_in_suit(dummy: &Hand, declarer: &Hand, suit: Suit) -> (r:
    PromotionResult)
    ensures
        r.spent@ == promo_spent_in_suit(
            holding_of(*dummy, suit)@,
            holding_of(*declarer, suit)@,
            suit,
        ),
        r.winners@ == promo_winners_in_suit(
            holding_of(*dummy, suit)@,
            holding_of(*declarer, suit)@,
            suit,
        ),
{
    let dh = dummy.holding(suit);
    let ch = declarer.holding(suit);
    let d = &dh.present;
    let c = &ch.present;
    let ghost ds = d@;
    let ghost cs = c@;
    let dl = dh.len();
    let cl = ch.len();
    let max_tricks = if dl >= cl {
        dl
    } else {
        cl
    };
    let h = first_present(d, c, 0);
    if h == 0 || h >= 13 {
        return PromotionResult::new();
    }
    let run = run_length(d, c, h);
    if run <= h {
        return PromotionResult::new();
    }
    let promotable = run - h;
    let num_winners = if promotable <= max_tricks {
        promotable
    } else {
        max_tricks
    };
    // sequence cards of the shorter hand, and the others
    let mut a: Vec<bool> = Vec::new();
    let mut o: Vec<bool> = Vec::new();
    let mut i: usize = 0;
    while i < 13
        invariant
            0 <= i <= 13,
            d@ == ds,
            c@ == cs,
            ds.len() == 13,
            cs.len() == 13,
            h == top_pos(ds, cs),
            run == promo_run(ds, cs),
            h + run <= 13,
            dl == count13(ds),
            cl == count13(cs),
            a@.len() == i,
            o@.len() == i,
            forall|j: int| 0 <= j < i ==> #[trigger] a@[j] == (in_seq(ds, cs, j) && shorter_has(ds, cs, j)),
            forall|j: int| 0 <= j < i ==> #[trigger] o@[j] == (in_seq(ds, cs, j) && !shorter_has(ds, cs, j)),
        decreases 13 - i,
    {
        let in_sequence = h <= i && i < h + run;
        let short = if dl < cl {
            d[i]
        } else if cl < dl {
            c[i]
        } else {
            false
        };
        a.push(in_sequence && short);
        o.push(in_sequence && !short);
        i = i + 1;
    }
    proof {
        assert(a@ =~= seq_short(ds, cs));
        assert(o@ =~= seq_other(ds, cs));
    }
    let na = count_table(a.as_slice());
    // spent cards
    let mut sp: Vec<bool> = Vec::new();
    let mut ca: usize = 0;
    let mut co: usize = 0;
    i = 0;
    while i < 13
        invariant
            0 <= i <= 13,
            a@ == seq_short(ds, cs),
            o@ == seq_other(ds, cs),
            a@.len() == 13,
            o@.len() == 13,
            h == top_pos(ds, cs),
            na == count13(a@),
            na <= 13,
            ca == count_upto(a@, i as int),
            co == count_upto(o@, i as int),
            ca <= i,
            co <= i,
            sp@.len() == i,
            forall|j: int| 0 <= j < i ==> #[trigger] sp@[j] == spent_table(ds, cs)[j],
        decreases 13 - i,
    {
        let s = (a[i] && ca < h) || (o[i] && co + na < h);
        sp.push(s);
        if a[i] {
            ca = ca + 1;
        }
        if o[i] {
            co = co + 1;
        }
        i = i + 1;
    }
    proof {
        assert(sp@ =~= spent_table(ds, cs));
    }
    // winners: highest unspent sequence cards
    let mut wn: Vec<bool> = Vec::new();
    let mut cu: usize = 0;
    i = 0;
    while i < 13
        invariant
            0 <= i <= 13,
            sp@ == spent_table(ds, cs),
            sp@.len() == 13,
            h == top_pos(ds, cs),
            run == promo_run(ds, cs),
            h + run <= 13,
            num_winners == promo_count(ds, cs),
            cu == count_upto(unspent_table(ds, cs), i as int),
            cu <= i,
            wn@.len() == i,
            forall|j: int| 0 <= j < i ==> #[trigger] wn@[j] == promo_win_table(ds, cs)[j],
        decreases 13 - i,
    {
        let unspent = h <= i && i < h + run && !sp[i];
        proof {
            assert(unspent == unspent_table(ds, cs)[i as int]);
        }
        wn.push(unspent && cu < num_winners);
        if unspent {
            cu = cu + 1;
        }
        i = i + 1;
    }
    proof {
        assert(wn@ =~= promo_win_table(ds, cs));
    }
    let spent = cards_from_table(suit, sp.as_slice());
    let winners = cards_from_table(suit, wn.as_slice());
    PromotionResult { spent, winners }
}

/// Find the potential length winners by combining dummy and declarer hands.
///
/// Length winners win once the defenders have run out of the suit, which needs
/// seven or more cards between the two hands; the defenders are assumed to
/// split as evenly as possible (6 out: 3-3, 5 out: 3-2, 4 out: 2-2). Ducks are
/// the low cards given up to exhaust them. Cards that are sure winners or
/// take part in a promotion are left out, and so are the shorter hand's lowest
/// cards played beside them.
pub fn find_length_winners(dummy: &Hand, declarer: &Hand) -> (r: LengthResult)
    requires
        pair_consistent(*dummy, *declarer),
    ensures
        r.winners@ == spec_length_winners(*dummy, *declarer),
        r.ducks@ == spec_length_ducks(*dummy, *declarer),
        no_shared_card(*dummy, *declarer) ==> length_result_sound(
            *dummy,
            *declarer,
            r.winners@,
            r.ducks@,
        ),
{
    let sure = find_sure_winners(dummy, declarer);
    let promotion = find_promotable_winners(dummy, declarer);
    let mut r = LengthResult::new();
    proof {
        assert(count13(holding_of(*dummy, Suit::Spades)@) + count13(
            holding_of(*declarer, Suit::Spades)@,
        ) <= 13);
        assert(count13(holding_of(*dummy, Suit::Hearts)@) + count13(
            holding_of(*declarer, Suit::Hearts)@,
        ) <= 13);
        assert(count13(holding_of(*dummy, Suit::Diamonds)@) + count13(
            holding_of(*declarer, Suit::Diamonds)@,
        ) <= 13);
        assert(count13(holding_of(*dummy, Suit::Clubs)@) + count13(
            holding_of(*declarer, Suit::Clubs)@,
        ) <= 13);
    }
    r.merge(find_length_winners_in_suit(dummy, declarer, Suit::Spades, &sure, &promotion));
    r.merge(find_length_winners_in_suit(dummy, declarer, Suit::Hearts, &sure, &promotion));
    r.merge(find_length_winners_in_suit(dummy, declarer, Suit::Diamonds, &sure, &promotion));
    r.merge(find_length_winners_in_suit(dummy, declarer, Suit::Clubs, &sure, &promotion));
    proof {
        assert(r.winners@ =~= spec_length_winners(*dummy, *declarer));
        assert(r.ducks@ =~= spec_length_ducks(*dummy, *declarer));
        if no_shared_card(*dummy, *declarer) {
            super::analysis_laws::law_length_play_sound(*dummy, *declarer);
        }
    }
    r
}

/// Length winners and ducks in a single suit.
fn find_length_winners_in_suit(
    dummy: &Hand,
    declarer: &Hand,
    suit: Suit,
    sure_winners: &Vec<Card>,
    promotion_result: &PromotionResult,
) -> (r: LengthResult)
    requires
        count13(holding_of(*dummy, suit)@) + count13(holding_of(*declarer, suit)@) <= 13,
    ensures
        r.winners@ == length_winners_in_suit(
            holding_of(*dummy, suit)@,
            holding_of(*declarer, suit)@,
            sure_winners@,
            promotion_result.spent@,
            promotion_result.winners@,
            suit,
        ),
        r.ducks@ == length_ducks_in_suit(
            holding_of(*dummy, suit)@,
            holding_of(*declarer, suit)@,
            sure_winners@,
            promotion_result.spent@,
            promotion_result.winners@,
            suit,
        ),
{
    let dh = dummy.holding(suit);
    let ch = declarer.holding(suit);
    let d = &dh.present;
    let c = &ch.present;
    let ghost ds = d@;
    let ghost cs = c@;
    let ghost sure = sure_winners@;
    let ghost spent = promotion_result.spent@;
    let ghost pwin = promotion_result.winners@;
    let dl = dh.len();
    let cl = ch.len();
    let combined = dl + cl;
    if combined < 7 {
        return LengthResult::new();
    }
    let defenders = 13 - combined;
    let longer = (defenders + 1) / 2;
    let max_tricks = if dl >= cl {
        dl
    } else {
        cl
    };
    let count = if max_tricks > longer {
        max_tricks - longer
    } else {
        0
    };
    if count == 0 {
        return LengthResult::new();
    }
    let n_sure = count_cards_in_suit(sure_winners.as_slice(), suit);
    let n_spent = count_cards_in_suit(promotion_result.spent.as_slice(), suit);
    let n_pwin = count_cards_in_suit(promotion_result.winners.as_slice(), suit);
    proof {
        // each count is at most the length of its list, which fits in memory
        lemma_count_in_suit_le(sure, suit);
        lemma_count_in_suit_le(spent, suit);
        lemma_count_in_suit_le(pwin, suit);
    }
    let shorter = if dl >= cl {
        cl
    } else {
        dl
    };
    // companions: min(accounted tricks, shorter length), computed without overflow
    let companion_count = if n_sure >= shorter || n_pwin >= shorter || n_spent >= shorter || n_sure
        + n_pwin + n_spent >= shorter {
        shorter
    } else {
        n_sure + n_pwin + n_spent
    };
    // cards not yet accounted for
    let mut dm: Vec<bool> = Vec::new();
    let mut cm: Vec<bool> = Vec::new();
    let mut i: usize = 0;
    while i < 13
        invariant
            0 <= i <= 13,
            d@ == ds,
            c@ == cs,
            ds.len() == 13,
            cs.len() == 13,
            sure_winners@ == sure,
            promotion_result.spent@ == spent,
            promotion_result.winners@ == pwin,
            dm@.len() == i,
            cm@.len() == i,
            forall|j: int| 0 <= j < i ==> #[trigger] dm@[j] == (ds[j] && !accounted(sure, spent, pwin, suit, j)),
            forall|j: int| 0 <= j < i ==> #[trigger] cm@[j] == (cs[j] && !accounted(sure, spent, pwin, suit, j)),
        decreases 13 - i,
    {
        let card = Card::new(suit, Rank::from_index(i));
        let acc = contains_card(sure_winners.as_slice(), card) || contains_card(
            promotion_result.spent.as_slice(),
            card,
        ) || contains_card(promotion_result.winners.as_slice(), card);
        dm.push(d[i] && !acc);
        cm.push(c[i] && !acc);
        i = i + 1;
    }
    let ghost dmt = table(|i: int| ds[i] && !accounted(sure, spent, pwin, suit, i));
    let ghost cmt = table(|i: int| cs[i] && !accounted(sure, spent, pwin, suit, i));
    proof {
        assert(dm@ =~= dmt);
        assert(cm@ =~= cmt);
        assert(companion_count == companions(ds, cs, sure, spent, pwin, suit));
    }
    let (a, b) = if dl >= cl {
        let ncm = count_table(cm.as_slice());
        let keep = if ncm >= companion_count {
            ncm - companion_count
        } else {
            0
        };
        let b = keep_top_table(cm.as_slice(), keep);
        proof {
            assert(b@ =~= keep_top(cmt, count13(cmt) - companions(ds, cs, sure, spent, pwin, suit)));
        }
        (dm, b)
    } else {
        let ndm = count_table(dm.as_slice());
        let keep = if ndm >= companion_count {
            ndm - companion_count
        } else {
            0
        };
        let a = keep_top_table(dm.as_slice(), keep);
        proof {
            assert(a@ =~= keep_top(dmt, count13(dmt) - companions(ds, cs, sure, spent, pwin, suit)));
        }
        (a, cm)
    };
    proof {
        assert(a@ == length_avail_dummy(ds, cs, sure, spent, pwin, suit));
        assert(b@ == length_avail_declarer(ds, cs, sure, spent, pwin, suit));
    }
    let na = count_table(a.as_slice());
    let nb = count_table(b.as_slice());
    if na == 0 && nb == 0 {
        return LengthResult::new();
    }
    let dummy_wins = na > nb || (na == nb && first_present(a.as_slice(), a.as_slice(), 0)
        < first_present(b.as_slice(), b.as_slice(), 0));
    let (w, o) = if dummy_wins {
        (a, b)
    } else {
        (b, a)
    };
    proof {
        assert(w@ == length_hand(ds, cs, sure, spent, pwin, suit));
        assert(o@ == length_other(ds, cs, sure, spent, pwin, suit));
        assert(count == length_count(ds, cs));
    }
    let top = keep_top_table(w.as_slice(), count);
    let winners = cards_from_table(suit, top.as_slice());
    // ducks, by rank
    let mut ducks: Vec<Card> = Vec::new();
    let mut cw: usize = 0;
    i = 0;
    while i < 13
        invariant
            0 <= i <= 13,
            w@.len() == 13,
            o@.len() == 13,
            cw == count_upto(w@, i as int),
            cw <= i,
            ducks@ == ducks_upto(w@, o@, count as int, suit, i as int),
        decreases 13 - i,
    {
        let card = Card::new(suit, Rank::from_index(i));
        let ghost before = ducks@;
        if w[i] && cw >= count {
            ducks.push(card);
        }
        if o[i] {
            ducks.push(card);
        }
        proof {
            let a = if w@[i as int] && count_upto(w@, i as int) >= count {
                seq![card]
            } else {
                seq![]
            };
            let b = if o@[i as int] {
                seq![card]
            } else {
                seq![]
            };
            assert(ducks@ =~= before + a + b);
        }
        if w[i] {
            cw = cw + 1;
        }
        i = i + 1;
    }
    LengthResult { ducks, winners }
}

proof fn lemma_count_in_suit_le(cards: Seq<Card>, suit: Suit)
    ensures
        count_in_suit(cards, suit) <= cards.len(),
    decreases cards.len(),
{
    if cards.len() > 0 {
        lemma_count_in_suit_le(cards.drop_last(), suit);
    }
}

} // verus!
