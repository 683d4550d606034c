//! The play section: cards such as `SQ` grouped in tricks of four.

use crate::model::card::{spec_rank_from_char, spec_suit_from_char, Card, Direction, Rank, Suit};
use crate::model::play::{PlaySequence, Trick};
use crate::text::{chars_of, split_whitespace, split_ws, views};
use vstd::prelude::*;

verus! {

/// The card that a token such as `SQ` names: a suit letter and a rank
/// character; anything after the second character is ignored.
pub open spec fn card_parse(tok: Seq<char>) -> Option<Card> {
    if tok.len() < 2 {
        None
    } else {
        match spec_suit_from_char(tok[0]) {
            None => None,
            Some(suit) => match spec_rank_from_char(tok[1]) {
                None => None,
                Some(rank) => Some(Card { suit, rank }),
            },
        }
    }
}

/// The cards of a trick that has none yet.
pub open spec fn no_cards() -> Seq<Option<Card>> {
    seq![None, None, None, None]
}

/// The tricks read so far, with the trick being filled added when it has a card.
pub open spec fn close_play(
    tricks: Seq<Seq<Option<Card>>>,
    cur: Seq<Option<Card>>,
    idx: int,
) -> Seq<Seq<Option<Card>>> {
    if idx > 0 {
        tricks.push(cur)
    } else {
        tricks
    }
}

/// The tricks that the tokens `ws[i..]` give, from the tricks read so far,
/// the trick being filled and the position in it. `*` ends the play, `-` is a
/// card not known, a token that names no card is skipped; every fourth card
/// closes a trick.
pub open spec fn play_from(
    ws: Seq<Seq<char>>,
    i: int,
    tricks: Seq<Seq<Option<Card>>>,
    cur: Seq<Option<Card>>,
    idx: int,
) -> Seq<Seq<Option<Card>>>
    decreases ws.len() - i,
{
    if i < 0 || i >= ws.len() {
        close_play(tricks, cur, idx)
    } else if ws[i] == seq!['*'] {
        close_play(tricks, cur, idx)
    } else if ws[i] == seq!['-'] {
        if idx + 1 >= 4 {
            play_from(ws, i + 1, tricks.push(cur), no_cards(), 0)
        } else {
            play_from(ws, i + 1, tricks, cur, idx + 1)
        }
    } else {
        match card_parse(ws[i]) {
            None => play_from(ws, i + 1, tricks, cur, idx),
            Some(c) => {
                let filled = cur.update(idx, Some(c));
                if idx + 1 >= 4 {
                    play_from(ws, i + 1, tricks.push(filled), no_cards(), 0)
                } else {
                    play_from(ws, i + 1, tricks, filled, idx + 1)
                }
            },
        }
    }
}

/// The cards of each trick that the play text `s` records.
pub open spec fn play_parse(s: Seq<char>) -> Seq<Seq<Option<Card>>> {
    play_from(split_ws(s), 0, seq![], no_cards(), 0)
}

/// The cards of each trick of `tricks`.
pub open spec fn trick_cards(tricks: Seq<Trick>) -> Seq<Seq<Option<Card>>> {
    tricks.map_values(|t: Trick| t.cards@)
}

fn card_of_chars(tok: &Vec<char>) -> (r: Option<Card>)
    ensures
        r == card_parse(tok@),
{
    if tok.len() < 2 {
        return None;
    }
    let suit = match Suit::from_char(tok[0]) {
        Some(s) => s,
        None => return None,
    };
    let rank = match Rank::from_pbn_char(tok[1]) {
        Some(r) => r,
        None => return None,
    };
    Some(Card::new(suit, rank))
}

/// Parses a card such as `SQ` (queen of spades) or `HA` (ace of hearts).
pub fn parse_card(input: &str) -> (r: Option<Card>)
    ensures
        r == card_parse(input@),
{
    let v = chars_of(input);
    card_of_chars(&v)
}

proof fn lemma_trick_cards_push(tricks: Seq<Trick>, t: Trick)
    ensures
        trick_cards(tricks.push(t)) == trick_cards(tricks).push(t.cards@),
{
    assert(trick_cards(tricks.push(t)) =~= trick_cards(tricks).push(t.cards@));
}

/// Parses the play that follows `[Play "X"]`, where `opening_leader` is X:
/// cards in tricks of four. Every trick is recorded as led by the opening
/// leader, with no winner.
pub fn parse_play(opening_leader: Direction, input: &str) -> (r: Result<PlaySequence, String>)
    ensures
        r matches Ok(play) && play.opening_leader == opening_leader && trick_cards(play.tricks@)
            == play_parse(input@) && forall|k: int|
            0 <= k < play.tricks@.len() ==> (#[trigger] play.tricks@[k]).leader == opening_leader
                && play.tricks@[k].winner is None,
{
    let v = chars_of(input);
    play_of_chars(opening_leader, &v)
}

pub(crate) fn play_of_chars(opening_leader: Direction, v: &Vec<char>) -> (r: Result<PlaySequence, String>)
    ensures
        r matches Ok(play) && play.opening_leader == opening_leader && trick_cards(play.tricks@)
            == play_parse(v@) && forall|k: int|
            0 <= k < play.tricks@.len() ==> (#[trigger] play.tricks@[k]).leader == opening_leader
                && play.tricks@[k].winner is None,
{
    let words = split_whitespace(v);
    let ghost ws = views(words@);
    let mut play = PlaySequence::new(opening_leader);
    let mut cur = Trick::new(opening_leader);
    let mut idx: usize = 0;
    let mut i: usize = 0;
    proof {
        assert(cur.cards@ =~= no_cards());
        assert(trick_cards(play.tricks@) =~= Seq::<Seq<Option<Card>>>::empty());
    }
    while i < words.len()
        invariant
            0 <= i <= words@.len(),
            ws == views(words@),
            ws == split_ws(v@),
            
            idx < 4,
            play.opening_leader == opening_leader,
            cur.leader == opening_leader,
            cur.winner is None,
            play_parse(v@) == play_from(
                ws,
                i as int,
                trick_cards(play.tricks@),
                cur.cards@,
                idx as int,
            ),
            forall|k: int|
                0 <= k < play.tricks@.len() ==> (#[trigger] play.tricks@[k]).leader
                    == opening_leader && play.tricks@[k].winner is None,
        decreases words@.len() - i,
    {
        let w = &words[i];
        proof {
            assert(ws[i as int] == w@);
        }
        if w.len() == 1 && w[0] == '*' {
            proof {
                assert(w@ =~= seq!['*']);
            }
            i = words.len();
        } else {
            let dash = w.len() == 1 && w[0] == '-';
            proof {
                if dash {
                    assert(w@ =~= seq!['-']);
                } else {
                    if w@.len() == 1 {
                        assert(w@[0] != '-');
                        assert(w@ != seq!['-']);
                    }
                    assert(w@ != seq!['-']);
                }
                assert(w@ != seq!['*']) by {
                    if w@.len() == 1 {
                        assert(w@[0] != '*');
                    }
                }
            }
            if dash {
                idx = idx + 1;
                if idx >= 4 {
                    let ghost before = play.tricks@;
                    play.add_trick(cur);
                    proof {
                        lemma_trick_cards_push(before, cur);
                    }
                    cur = Trick::new(opening_leader);
                    proof {
                        assert(cur.cards@ =~= no_cards());
                    }
                    idx = 0;
                }
            } else {
                match card_of_chars(w) {
                    Some(card) => {
                        cur.set_card(idx, card);
                        idx = idx + 1;
                        if idx >= 4 {
                            let ghost before = play.tricks@;
                            play.add_trick(cur);
                            proof {
                                lemma_trick_cards_push(before, cur);
                            }
                            cur = Trick::new(opening_leader);
                            proof {
                                assert(cur.cards@ =~= no_cards());
                            }
                            idx = 0;
                        }
                    },
                    None => {},
                }
            }
            i = i + 1;
        }
    }
    if idx > 0 {
        let ghost before = play.tricks@;
        play.add_trick(cur);
        proof {
            lemma_trick_cards_push(before, cur);
        }
    }
    Ok(play)
}

} // verus!
