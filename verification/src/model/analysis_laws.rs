//! What holds of every result of the declarer play analyses.

use super::analysis::{
    accounted, cards_of, cards_upto, ducks_upto, first_from, in_seq, keep_top, length_avail_declarer,
    length_avail_dummy, length_ducks_in_suit, length_hand, length_other, length_winners_in_suit,
    max_tricks, promo_count, promo_run, promo_spent_in_suit, promo_win_table, promo_winners_in_suit,
    promotes, run_from, seq_other, spec_promo_spent, spec_promo_winners, spec_length_winners,
    spec_length_ducks, no_shared_card, length_result_sound, seq_short, shorter_has, spec_sure_winners, spent_table,
    sure_count, sure_in_suit, table, top_pos, unspent_table,
};
use super::card::{lemma_rank_at, lemma_rank_idx, rank_at, rank_idx, Card, Rank, Suit};
use super::hand::{count13, count_upto, holding_of, lemma_count_upto_bounds, Hand};
use vstd::prelude::*;

verus! {

// ------------------------------------------------------------------ counting

proof fn lemma_cards_upto_len(suit: Suit, p: Seq<bool>, n: int)
    requires
        0 <= n,
    ensures
        cards_upto(suit, p, n).len() == count_upto(p, n),
    decreases n,
{
    if n > 0 {
        lemma_cards_upto_len(suit, p, n - 1);
    }
}

/// A card listed by `cards_upto` is of `suit` and has a rank whose entry is present.
proof fn lemma_cards_upto_contains(suit: Suit, p: Seq<bool>, n: int, card: Card)
    requires
        0 <= n <= 13,
    ensures
        cards_upto(suit, p, n).contains(card) <==> (card.suit == suit && rank_idx(card.rank) < n
            && p[rank_idx(card.rank)]),
    decreases n,
{
    lemma_rank_idx(card.rank);
    if n > 0 {
        lemma_cards_upto_contains(suit, p, n - 1, card);
        let prev = cards_upto(suit, p, n - 1);
        let last = Card { suit, rank: rank_at(n - 1) };
        lemma_rank_at(n - 1);
        if p[n - 1] {
            assert(cards_upto(suit, p, n) == prev.push(last));
            if card == last {
                assert(prev.push(last)[prev.len() as int] == card);
            }
            if prev.push(last).contains(card) && card != last {
                let j = choose|j: int| 0 <= j < prev.push(last).len() && prev.push(last)[j] == card;
                assert(j < prev.len());
                assert(prev[j] == card);
            }
            if prev.contains(card) {
                let j = choose|j: int| 0 <= j < prev.len() && prev[j] == card;
                assert(prev.push(last)[j] == card);
            }
        } else {
            if card.suit == suit && rank_idx(card.rank) == n - 1 {
                assert(card == last);
            }
        }
    }
}

proof fn lemma_cards_of_contains(suit: Suit, p: Seq<bool>, card: Card)
    ensures
        cards_of(suit, p).contains(card) <==> (card.suit == suit && p[rank_idx(card.rank)]),
{
    lemma_rank_idx(card.rank);
    lemma_cards_upto_contains(suit, p, 13, card);
}

/// Entries of a table built from a predicate are the predicate.
proof fn lemma_count_same(p: Seq<bool>, q: Seq<bool>, n: int)
    requires
        0 <= n <= 13,
        forall|i: int| 0 <= i < n ==> p[i] == q[i],
    ensures
        count_upto(p, n) == count_upto(q, n),
    decreases n,
{
    if n > 0 {
        lemma_count_same(p, q, n - 1);
    }
}

/// Counting the first `k` present entries of `p`.
proof fn lemma_keep_top_count(p: Seq<bool>, k: int, n: int)
    requires
        0 <= n <= 13,
    ensures
        count_upto(keep_top(p, k), n) == (if count_upto(p, n) <= k {
            count_upto(p, n) as int
        } else if k >= 0 {
            k
        } else {
            0
        }),
    decreases n,
{
    if n > 0 {
        lemma_keep_top_count(p, k, n - 1);
        assert(keep_top(p, k)[n - 1] == (p[n - 1] && count_upto(p, n - 1) < k));
    }
}

/// The count of an entry-wise disjunction of disjoint tables.
proof fn lemma_union_count(x: Seq<bool>, y: Seq<bool>, u: Seq<bool>, n: int)
    requires
        0 <= n <= 13,
        forall|i: int| 0 <= i < n ==> u[i] == (x[i] || y[i]),
        forall|i: int| 0 <= i < n ==> !(x[i] && y[i]),
    ensures
        count_upto(u, n) == count_upto(x, n) + count_upto(y, n),
    decreases n,
{
    if n > 0 {
        lemma_union_count(x, y, u, n - 1);
    }
}

/// The count of the entries of `x` that are not in `y`, for `y` within `x`.
proof fn lemma_difference_count(x: Seq<bool>, y: Seq<bool>, u: Seq<bool>, n: int)
    requires
        0 <= n <= 13,
        forall|i: int| 0 <= i < n ==> u[i] == (x[i] && !y[i]),
        forall|i: int| 0 <= i < n ==> (y[i] ==> x[i]),
    ensures
        count_upto(u, n) == count_upto(x, n) - count_upto(y, n),
    decreases n,
{
    if n > 0 {
        lemma_difference_count(x, y, u, n - 1);
    }
}

/// The count of a table of positions `lo .. lo + len`.
proof fn lemma_interval_count(u: Seq<bool>, lo: int, len: int, n: int)
    requires
        0 <= n <= 13,
        0 <= lo,
        0 <= len,
        lo + len <= 13,
        forall|i: int| 0 <= i < n ==> u[i] == (lo <= i < lo + len),
    ensures
        count_upto(u, n) == (if n <= lo {
            0
        } else if n <= lo + len {
            n - lo
        } else {
            len
        }),
    decreases n,
{
    if n > 0 {
        lemma_interval_count(u, lo, len, n - 1);
    }
}

/// The run from `i` stays inside the suit and covers held ranks only.
proof fn lemma_run_from(d: Seq<bool>, c: Seq<bool>, i: int)
    requires
        0 <= i <= 13,
    ensures
        run_from(d, c, i) <= 13 - i,
        forall|j: int| i <= j < i + run_from(d, c, i) ==> d[j] || c[j],
    decreases 13 - i,
{
    if 0 <= i < 13 && (d[i] || c[i]) && !(d[i] && c[i]) {
        lemma_run_from(d, c, i + 1);
    }
}

proof fn lemma_first_from(d: Seq<bool>, c: Seq<bool>, i: int)
    requires
        0 <= i <= 13,
    ensures
        i <= first_from(d, c, i) <= 13,
        first_from(d, c, i) < 13 ==> (d[first_from(d, c, i)] || c[first_from(d, c, i)]),
        forall|j: int| i <= j < first_from(d, c, i) ==> !(d[j] || c[j]),
    decreases 13 - i,
{
    if i < 13 && !(d[i] || c[i]) {
        lemma_first_from(d, c, i + 1);
    }
}

// ---------------------------------------------------------------------- laws

/// Sure winners of a suit are the top `sure_count` ranks, never more than
/// the tricks the suit provides (the length of the longer holding), and
/// each of them is held by dummy or declarer.
pub proof fn law_sure_winners_in_suit(d: Seq<bool>, c: Seq<bool>, suit: Suit)
    ensures
        sure_in_suit(d, c, suit).len() == sure_count(d, c),
        sure_count(d, c) <= max_tricks(d, c),
        forall|card: Card| #[trigger]
            sure_in_suit(d, c, suit).contains(card) ==> card.suit == suit && (d[rank_idx(card.rank)]
                || c[rank_idx(card.rank)]),
{
    let k = sure_count(d, c);
    let t = table(|i: int| i < sure_count(d, c));
    lemma_run_from(d, c, 0);
    lemma_cards_upto_len(suit, t, 13);
    lemma_interval_count(t, 0, k as int, 13);
    assert forall|card: Card| #[trigger] sure_in_suit(d, c, suit).contains(card) implies card.suit
        == suit && (d[rank_idx(card.rank)] || c[rank_idx(card.rank)]) by {
        lemma_cards_of_contains(suit, t, card);
        lemma_rank_idx(card.rank);
    }
}

/// Every sure winner of a hand pair is a card that dummy or declarer holds.
pub proof fn law_sure_winners_are_held(dummy: Hand, declarer: Hand)
    ensures
        forall|card: Card| #[trigger]
            spec_sure_winners(dummy, declarer).contains(card) ==> holding_of(dummy, card.suit).has(
                card.rank,
            ) || holding_of(declarer, card.suit).has(card.rank),
{
    assert forall|card: Card| #[trigger] spec_sure_winners(dummy, declarer).contains(card) implies holding_of(
        dummy,
        card.suit,
    ).has(card.rank) || holding_of(declarer, card.suit).has(card.rank) by {
        let s = sure_in_suit(dummy.spades@, declarer.spades@, Suit::Spades);
        let h = sure_in_suit(dummy.hearts@, declarer.hearts@, Suit::Hearts);
        let di = sure_in_suit(dummy.diamonds@, declarer.diamonds@, Suit::Diamonds);
        let cl = sure_in_suit(dummy.clubs@, declarer.clubs@, Suit::Clubs);
        law_sure_winners_in_suit(dummy.spades@, declarer.spades@, Suit::Spades);
        law_sure_winners_in_suit(dummy.hearts@, declarer.hearts@, Suit::Hearts);
        law_sure_winners_in_suit(dummy.diamonds@, declarer.diamonds@, Suit::Diamonds);
        law_sure_winners_in_suit(dummy.clubs@, declarer.clubs@, Suit::Clubs);
        let all = s + h + di + cl;
        assert(all == spec_sure_winners(dummy, declarer));
        let j = choose|j: int| 0 <= j < all.len() && all[j] == card;
        if j < s.len() {
            assert(s[j] == card);
            assert(s.contains(card));
        } else if j < s.len() + h.len() {
            assert(h[j - s.len()] == card);
            assert(h.contains(card));
        } else if j < s.len() + h.len() + di.len() {
            assert(di[j - s.len() - h.len()] == card);
            assert(di.contains(card));
        } else {
            assert(cl[j - s.len() - h.len() - di.len()] == card);
            assert(cl.contains(card));
        }
    }
}

/// A suit offers either sure winners or winners by promotion, never both:
/// promotion needs the Ace to be missing, sure winners need it held.
pub proof fn law_sure_or_promotion(d: Seq<bool>, c: Seq<bool>, suit: Suit)
    ensures
        promotes(d, c) ==> sure_in_suit(d, c, suit).len() == 0,
        sure_in_suit(d, c, suit).len() > 0 ==> promo_spent_in_suit(d, c, suit).len() == 0
            && promo_winners_in_suit(d, c, suit).len() == 0,
{
    law_sure_winners_in_suit(d, c, suit);
    lemma_first_from(d, c, 0);
    if promotes(d, c) {
        assert(!(d[0] || c[0]));
        assert(run_from(d, c, 0) == 0);
    }
}

/// No card is both spent to drive out an honour and counted as a promoted winner.
pub proof fn law_spent_not_promoted(d: Seq<bool>, c: Seq<bool>, suit: Suit)
    ensures
        forall|card: Card| #![trigger promo_spent_in_suit(d, c, suit).contains(card)]
            #![trigger promo_winners_in_suit(d, c, suit).contains(card)]
            !(promo_spent_in_suit(d, c, suit).contains(card) && promo_winners_in_suit(
                d,
                c,
                suit,
            ).contains(card)),
{
    assert forall|card: Card| !(promo_spent_in_suit(d, c, suit).contains(card)
        && promo_winners_in_suit(d, c, suit).contains(card)) by {
        if promotes(d, c) {
            lemma_cards_of_contains(suit, spent_table(d, c), card);
            lemma_cards_of_contains(suit, promo_win_table(d, c), card);
            lemma_rank_idx(card.rank);
        }
    }
}

/// Facts about the honour sequence of a promoting suit.
proof fn lemma_sequence(d: Seq<bool>, c: Seq<bool>)
    requires
        promotes(d, c),
    ensures
        top_pos(d, c) + promo_run(d, c) <= 13,
        count13(seq_short(d, c)) + count13(seq_other(d, c)) == promo_run(d, c),
{
    let h = top_pos(d, c);
    lemma_first_from(d, c, 0);
    lemma_run_from(d, c, h);
    let r = promo_run(d, c);
    let iv = table(|i: int| in_seq(d, c, i));
    lemma_interval_count(iv, h, r as int, 13);
    lemma_union_count(seq_short(d, c), seq_other(d, c), iv, 13);
}

/// A promoting suit spends exactly as many cards as there are missing higher
/// honours (one card for each honour to drive out).
pub proof fn law_spent_equals_missing_honours(d: Seq<bool>, c: Seq<bool>, suit: Suit)
    ensures
        promotes(d, c) ==> promo_spent_in_suit(d, c, suit).len() == top_pos(d, c),
{
    if promotes(d, c) {
        lemma_spent_count(d, c);
        lemma_cards_upto_len(suit, spent_table(d, c), 13);
    }
}

proof fn lemma_spent_count(d: Seq<bool>, c: Seq<bool>)
    requires
        promotes(d, c),
    ensures
        count13(spent_table(d, c)) == top_pos(d, c),
        forall|i: int| 0 <= i < 13 ==> (spent_table(d, c)[i] ==> in_seq(d, c, i)),
{
    let h = top_pos(d, c);
    let a = seq_short(d, c);
    let o = seq_other(d, c);
    lemma_sequence(d, c);
    let ka = keep_top(a, h);
    let ko = keep_top(o, h - count13(a));
    lemma_keep_top_count(a, h, 13);
    lemma_keep_top_count(o, h - count13(a), 13);
    lemma_union_count(ka, ko, spent_table(d, c), 13);
}

/// A promoting suit yields `promo_count` winners: the honour sequence less
/// the missing honours, at most the tricks the suit provides.
pub proof fn law_promoted_count(d: Seq<bool>, c: Seq<bool>, suit: Suit)
    ensures
        promotes(d, c) ==> promo_winners_in_suit(d, c, suit).len() == promo_count(d, c),
        promotes(d, c) ==> promo_count(d, c) == (if promo_run(d, c) - top_pos(d, c) <= max_tricks(
            d,
            c,
        ) {
            promo_run(d, c) - top_pos(d, c)
        } else {
            max_tricks(d, c) as int
        }),
{
    if promotes(d, c) {
        let h = top_pos(d, c);
        lemma_spent_count(d, c);
        lemma_sequence(d, c);
        let iv = table(|i: int| in_seq(d, c, i));
        lemma_interval_count(iv, h, promo_run(d, c) as int, 13);
        lemma_difference_count(iv, spent_table(d, c), unspent_table(d, c), 13);
        let u = unspent_table(d, c);
        lemma_keep_top_count(u, promo_count(d, c), 13);
        assert(promo_win_table(d, c) =~= keep_top(u, promo_count(d, c)));
        lemma_cards_upto_len(suit, promo_win_table(d, c), 13);
    }
}

proof fn lemma_ducks_upto_contains(w: Seq<bool>, o: Seq<bool>, k: int, suit: Suit, n: int, card: Card)
    requires
        0 <= n <= 13,
    ensures
        ducks_upto(w, o, k, suit, n).contains(card) ==> card.suit == suit && rank_idx(card.rank) < n
            && (w[rank_idx(card.rank)] || o[rank_idx(card.rank)]),
        ducks_upto(w, o, k, suit, n).contains(card) ==> (w[rank_idx(card.rank)] && count_upto(
            w,
            rank_idx(card.rank),
        ) >= k) || o[rank_idx(card.rank)],
    decreases n,
{
    if n > 0 {
        lemma_ducks_upto_contains(w, o, k, suit, n - 1, card);
        let prev = ducks_upto(w, o, k, suit, n - 1);
        let last = Card { suit, rank: rank_at(n - 1) };
        lemma_rank_at(n - 1);
        let a = if w[n - 1] && count_upto(w, n - 1) >= k {
            seq![last]
        } else {
            seq![]
        };
        let b = if o[n - 1] {
            seq![last]
        } else {
            seq![]
        };
        let all = prev + a + b;
        assert(ducks_upto(w, o, k, suit, n) == all);
        if all.contains(card) {
            let j = choose|j: int| 0 <= j < all.len() && all[j] == card;
            if j < prev.len() {
                assert(prev[j] == card);
                assert(prev.contains(card));
            } else if j < prev.len() + a.len() {
                assert(a[j - prev.len()] == card);
            } else {
                assert(b[j - prev.len() - a.len()] == card);
            }
        }
    }
}

/// Length play uses none of the cards that the sure winners or the
/// promotion account for: every length winner and every duck of a suit is
/// a card of that suit that neither analysis uses.
pub proof fn law_length_excludes_accounted(
    d: Seq<bool>,
    c: Seq<bool>,
    sure: Seq<Card>,
    spent: Seq<Card>,
    pwin: Seq<Card>,
    suit: Suit,
)
    ensures
        forall|card: Card| #[trigger]
            length_winners_in_suit(d, c, sure, spent, pwin, suit).contains(card) ==> card.suit == suit
                && !accounted(sure, spent, pwin, suit, rank_idx(card.rank)),
        forall|card: Card| #[trigger]
            length_ducks_in_suit(d, c, sure, spent, pwin, suit).contains(card) ==> card.suit == suit
                && !accounted(sure, spent, pwin, suit, rank_idx(card.rank)),
{
    let a = length_avail_dummy(d, c, sure, spent, pwin, suit);
    let b = length_avail_declarer(d, c, sure, spent, pwin, suit);
    assert forall|i: int| 0 <= i < 13 implies (a[i] ==> !accounted(sure, spent, pwin, suit, i)) && (
    b[i] ==> !accounted(sure, spent, pwin, suit, i)) by {}
    assert forall|card: Card| #[trigger]
        length_winners_in_suit(d, c, sure, spent, pwin, suit).contains(card) implies card.suit == suit
        && !accounted(sure, spent, pwin, suit, rank_idx(card.rank)) by {
        lemma_rank_idx(card.rank);
        let w = length_hand(d, c, sure, spent, pwin, suit);
        let kt = keep_top(w, super::analysis::length_count(d, c));
        lemma_cards_of_contains(suit, kt, card);
    }
    assert forall|card: Card| #[trigger]
        length_ducks_in_suit(d, c, sure, spent, pwin, suit).contains(card) implies card.suit == suit
        && !accounted(sure, spent, pwin, suit, rank_idx(card.rank)) by {
        lemma_rank_idx(card.rank);
        let w = length_hand(d, c, sure, spent, pwin, suit);
        let o = length_other(d, c, sure, spent, pwin, suit);
        lemma_ducks_upto_contains(w, o, super::analysis::length_count(d, c), suit, 13, card);
    }
}

/// Length play in a suit whose two holdings share no card uses only cards
/// that dummy or declarer holds, and no card is both a length winner and a
/// duck.
pub proof fn law_length_cards_held_and_distinct(
    d: Seq<bool>,
    c: Seq<bool>,
    sure: Seq<Card>,
    spent: Seq<Card>,
    pwin: Seq<Card>,
    suit: Suit,
)
    requires
        forall|i: int| 0 <= i < 13 ==> !(#[trigger] d[i] && c[i]),
    ensures
        forall|card: Card| #[trigger]
            length_winners_in_suit(d, c, sure, spent, pwin, suit).contains(card) ==> d[rank_idx(
                card.rank,
            )] || c[rank_idx(card.rank)],
        forall|card: Card| #[trigger]
            length_ducks_in_suit(d, c, sure, spent, pwin, suit).contains(card) ==> d[rank_idx(
                card.rank,
            )] || c[rank_idx(card.rank)],
        forall|card: Card|
            !(#[trigger] length_winners_in_suit(d, c, sure, spent, pwin, suit).contains(card)
                && length_ducks_in_suit(d, c, sure, spent, pwin, suit).contains(card)),
{
    let a = length_avail_dummy(d, c, sure, spent, pwin, suit);
    let b = length_avail_declarer(d, c, sure, spent, pwin, suit);
    let w = length_hand(d, c, sure, spent, pwin, suit);
    let o = length_other(d, c, sure, spent, pwin, suit);
    let k = super::analysis::length_count(d, c);
    assert forall|i: int| 0 <= i < 13 implies (a[i] ==> d[i]) && (b[i] ==> c[i]) by {}
    assert forall|i: int| 0 <= i < 13 implies !(w[i] && o[i]) && (w[i] || o[i] ==> d[i] || c[i]) by {
        assert(!(d[i] && c[i]));
    }
    assert forall|card: Card| #[trigger]
        length_winners_in_suit(d, c, sure, spent, pwin, suit).contains(card) implies d[rank_idx(
        card.rank,
    )] || c[rank_idx(card.rank)] by {
        lemma_rank_idx(card.rank);
        lemma_cards_of_contains(suit, keep_top(w, k), card);
    }
    assert forall|card: Card| #[trigger]
        length_ducks_in_suit(d, c, sure, spent, pwin, suit).contains(card) implies d[rank_idx(
        card.rank,
    )] || c[rank_idx(card.rank)] by {
        lemma_rank_idx(card.rank);
        lemma_ducks_upto_contains(w, o, k, suit, 13, card);
    }
    assert forall|card: Card|
        !(#[trigger] length_winners_in_suit(d, c, sure, spent, pwin, suit).contains(card)
            && length_ducks_in_suit(d, c, sure, spent, pwin, suit).contains(card)) by {
        lemma_rank_idx(card.rank);
        if length_winners_in_suit(d, c, sure, spent, pwin, suit).contains(card)
            && length_ducks_in_suit(d, c, sure, spent, pwin, suit).contains(card) {
            let i = rank_idx(card.rank);
            lemma_cards_of_contains(suit, keep_top(w, k), card);
            lemma_ducks_upto_contains(w, o, k, suit, 13, card);
            assert(keep_top(w, k)[i] == (w[i] && count_upto(w, i) < k));
            assert(!(w[i] && o[i]));
        }
    }
}

proof fn lemma_concat4_contains(s1: Seq<Card>, s2: Seq<Card>, s3: Seq<Card>, s4: Seq<Card>, x: Card)
    ensures
        (s1 + s2 + s3 + s4).contains(x) ==> s1.contains(x) || s2.contains(x) || s3.contains(x)
            || s4.contains(x),
{
    let all = s1 + s2 + s3 + s4;
    if all.contains(x) {
        let j = choose|j: int| 0 <= j < all.len() && all[j] == x;
        if j < s1.len() {
            assert(s1[j] == x);
        } else if j < s1.len() + s2.len() {
            assert(s2[j - s1.len()] == x);
        } else if j < s1.len() + s2.len() + s3.len() {
            assert(s3[j - s1.len() - s2.len()] == x);
        } else {
            assert(s4[j - s1.len() - s2.len() - s3.len()] == x);
        }
    }
}

/// Per suit, the length analysis of one suit of the hand pair.
spec fn suit_winners(dummy: Hand, declarer: Hand, s: Suit) -> Seq<Card> {
    length_winners_in_suit(
        holding_of(dummy, s)@,
        holding_of(declarer, s)@,
        spec_sure_winners(dummy, declarer),
        spec_promo_spent(dummy, declarer),
        spec_promo_winners(dummy, declarer),
        s,
    )
}

spec fn suit_ducks(dummy: Hand, declarer: Hand, s: Suit) -> Seq<Card> {
    length_ducks_in_suit(
        holding_of(dummy, s)@,
        holding_of(declarer, s)@,
        spec_sure_winners(dummy, declarer),
        spec_promo_spent(dummy, declarer),
        spec_promo_winners(dummy, declarer),
        s,
    )
}

/// What one suit's length analysis gives of a card: it is of that suit,
/// held by dummy or declarer, used by neither other analysis, and not both a
/// winner and a duck.
proof fn lemma_suit_length(dummy: Hand, declarer: Hand, s: Suit, card: Card)
    requires
        forall|i: int|
            0 <= i < 13 ==> !(#[trigger] holding_of(dummy, s)@[i] && holding_of(declarer, s)@[i]),
    ensures
        suit_winners(dummy, declarer, s).contains(card) || suit_ducks(dummy, declarer, s).contains(
            card,
        ) ==> card.suit == s && (holding_of(dummy, s)@[rank_idx(card.rank)] || holding_of(
            declarer,
            s,
        )@[rank_idx(card.rank)]) && !spec_sure_winners(dummy, declarer).contains(card)
            && !spec_promo_spent(dummy, declarer).contains(card) && !spec_promo_winners(
            dummy,
            declarer,
        ).contains(card),
        !(suit_winners(dummy, declarer, s).contains(card) && suit_ducks(dummy, declarer, s).contains(
            card,
        )),
{
    let d = holding_of(dummy, s)@;
    let c = holding_of(declarer, s)@;
    let sure = spec_sure_winners(dummy, declarer);
    let spent = spec_promo_spent(dummy, declarer);
    let pwin = spec_promo_winners(dummy, declarer);
    law_length_excludes_accounted(d, c, sure, spent, pwin, s);
    law_length_cards_held_and_distinct(d, c, sure, spent, pwin, s);
    lemma_rank_idx(card.rank);
    assert(length_winners_in_suit(d, c, sure, spent, pwin, s).contains(card) ==> card.suit == s);
    assert(length_ducks_in_suit(d, c, sure, spent, pwin, s).contains(card) ==> card.suit == s);
    assert(card.suit == s ==> Card { suit: s, rank: rank_at(rank_idx(card.rank)) } == card);
}

/// Over the whole hand pair, when dummy and declarer share no card: every
/// length winner and every duck is a card that dummy or declarer holds and
/// that neither the sure winners nor the promotion use, and no card is both
/// a length winner and a duck.
pub proof fn law_length_play_sound(dummy: Hand, declarer: Hand)
    requires
        no_shared_card(dummy, declarer),
    ensures
        length_result_sound(
            dummy,
            declarer,
            spec_length_winners(dummy, declarer),
            spec_length_ducks(dummy, declarer),
        ),
{
    assert forall|card: Card| true implies {
        &&& spec_length_winners(dummy, declarer).contains(card) ==> (holding_of(dummy, card.suit)@[rank_idx(card.rank)]
            || holding_of(declarer, card.suit)@[rank_idx(card.rank)])
            && !spec_sure_winners(dummy, declarer).contains(card) && !spec_promo_spent(dummy, declarer).contains(card)
            && !spec_promo_winners(dummy, declarer).contains(card)
        &&& spec_length_ducks(dummy, declarer).contains(card) ==> (holding_of(dummy, card.suit)@[rank_idx(card.rank)]
            || holding_of(declarer, card.suit)@[rank_idx(card.rank)])
            && !spec_sure_winners(dummy, declarer).contains(card) && !spec_promo_spent(dummy, declarer).contains(card)
            && !spec_promo_winners(dummy, declarer).contains(card)
        &&& !(spec_length_winners(dummy, declarer).contains(card) && spec_length_ducks(dummy, declarer).contains(card))
    } by {
        lemma_suit_length(dummy, declarer, Suit::Spades, card);
        lemma_suit_length(dummy, declarer, Suit::Hearts, card);
        lemma_suit_length(dummy, declarer, Suit::Diamonds, card);
        lemma_suit_length(dummy, declarer, Suit::Clubs, card);
        lemma_concat4_contains(
            suit_winners(dummy, declarer, Suit::Spades),
            suit_winners(dummy, declarer, Suit::Hearts),
            suit_winners(dummy, declarer, Suit::Diamonds),
            suit_winners(dummy, declarer, Suit::Clubs),
            card,
        );
        lemma_concat4_contains(
            suit_ducks(dummy, declarer, Suit::Spades),
            suit_ducks(dummy, declarer, Suit::Hearts),
            suit_ducks(dummy, declarer, Suit::Diamonds),
            suit_ducks(dummy, declarer, Suit::Clubs),
            card,
        );
    }
}

} // verus!
