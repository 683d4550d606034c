//! The `Deal` tag: `N:AKQ.JT9.876.5432 QJ.AK.QT9.87654 ...`.

use crate::model::card::{
    law_rank_char_roundtrip, rank_at, rank_idx, spec_advance, spec_direction_from_char,
    spec_rank_char, spec_rank_from_char, Direction, Rank,
};
use crate::model::deal::{hand_of, Deal};
use crate::model::hand::{count13, count_upto, holding_text, rank_chars_upto, Hand, Holding};
use crate::text::{
    chars_of, decimal, push_decimal, split_char, split_on, split_whitespace, split_ws, string_of,
    sub_chars, trim, trim_bounds, views,
};
use vstd::prelude::*;

verus! {

/// The four holdings of a hand, spades first, each as its view.
pub type HandView = (Seq<bool>, Seq<bool>, Seq<bool>, Seq<bool>);

/// The view of a hand.
pub open spec fn hand_view(h: Hand) -> HandView {
    (h.spades@, h.hearts@, h.diamonds@, h.clubs@)
}

/// The empty holding.
pub open spec fn void_view() -> Seq<bool> {
    Seq::new(13, |i: int| false)
}

/// The error for a character that is no rank.
pub open spec fn bad_rank_message(c: char) -> Seq<char> {
    "Invalid rank character: "@.push(c)
}

/// Reads the holding `s[i..]` into `p`: each rank character adds its rank,
/// a `-` is skipped, anything else is an error.
pub open spec fn holding_from(s: Seq<char>, i: int, p: Seq<bool>) -> Result<Seq<bool>, Seq<char>>
    decreases s.len() - i,
{
    if i < 0 || i >= s.len() {
        Ok(p)
    } else if s[i] == '-' {
        holding_from(s, i + 1, p)
    } else {
        match spec_rank_from_char(s[i]) {
            Some(r) => holding_from(s, i + 1, p.update(rank_idx(r), true)),
            None => Err(bad_rank_message(s[i])),
        }
    }
}

/// The holding that `s` writes, such as `AKQ`, or `-` or nothing for a void.
pub open spec fn holding_parse(s: Seq<char>) -> Result<Seq<bool>, Seq<char>> {
    holding_from(s, 0, void_view())
}

/// The error for a hand that does not have four suits.
pub open spec fn suit_count_message(n: nat, s: Seq<char>) -> Seq<char> {
    "Expected 4 suits separated by '.', got "@ + decimal(n) + " in '"@ + s + "'"@
}

/// The hand that `s` writes: four holdings separated by `.`, spades first.
/// The first holding in error gives the error.
pub open spec fn hand_parse(s: Seq<char>) -> Result<HandView, Seq<char>> {
    let parts = split_on(s, '.');
    if parts.len() != 4 {
        Err(suit_count_message(parts.len(), s))
    } else {
        match holding_parse(parts[0]) {
            Err(e) => Err(e),
            Ok(a) => match holding_parse(parts[1]) {
                Err(e) => Err(e),
                Ok(b) => match holding_parse(parts[2]) {
                    Err(e) => Err(e),
                    Ok(c) => match holding_parse(parts[3]) {
                        Err(e) => Err(e),
                        Ok(d) => Ok((a, b, c, d)),
                    },
                },
            },
        }
    }
}

/// The four hands written by `ws`, in order; the first hand in error gives
/// the error.
pub open spec fn hands_parse(ws: Seq<Seq<char>>) -> Result<Seq<HandView>, Seq<char>>
    recommends
        ws.len() == 4,
{
    match hand_parse(ws[0]) {
        Err(e) => Err(e),
        Ok(a) => match hand_parse(ws[1]) {
            Err(e) => Err(e),
            Ok(b) => match hand_parse(ws[2]) {
                Err(e) => Err(e),
                Ok(c) => match hand_parse(ws[3]) {
                    Err(e) => Err(e),
                    Ok(d) => Ok(seq![a, b, c, d]),
                },
            },
        },
    }
}

/// What a deal string gives: the seat of the first hand and the four hands
/// in clockwise order from it, or the error.
pub open spec fn deal_parse(input: Seq<char>) -> Result<(Direction, Seq<HandView>), Seq<char>> {
    let t = trim(input);
    if t.len() == 0 {
        Err("Empty deal string"@)
    } else {
        match spec_direction_from_char(t[0]) {
            None => Err("Invalid direction: "@.push(t[0])),
            Some(first) => if t.len() < 2 || t[1] != ':' {
                Err("Expected ':' after direction"@)
            } else {
                let ws = split_ws(t.skip(2));
                if ws.len() != 4 {
                    Err("Expected 4 hands, got "@ + decimal(ws.len()))
                } else {
                    match hands_parse(ws) {
                        Err(e) => Err(e),
                        Ok(hs) => Ok((first, hs)),
                    }
                }
            },
        }
    }
}

/// `deal` has the hands `hs` clockwise from `first`.
pub open spec fn deal_has(deal: Deal, first: Direction, hs: Seq<HandView>) -> bool {
    forall|k: nat| k < 4 ==> hand_view(hand_of(deal, #[trigger] spec_advance(first, k))) == hs[k as int]
}

/// The ranks of `p` among the first `n` positions, as a presence table.
pub open spec fn present_upto(p: Seq<bool>, n: int) -> Seq<bool> {
    Seq::new(13, |i: int| i < n && p[i])
}

/// Reading `s` with one more character `c` behind it is reading `s`, then `c`.
proof fn lemma_holding_from_push(s: Seq<char>, c: char, i: int, q: Seq<bool>)
    requires
        0 <= i <= s.len(),
    ensures
        holding_from(s.push(c), i, q) == (match holding_from(s, i, q) {
            Ok(q2) => holding_from(seq![c], 0, q2),
            Err(e) => Err(e),
        }),
    decreases s.len() - i,
{
    if i < s.len() {
        assert(s.push(c)[i] == s[i]);
        if s[i] == '-' {
            lemma_holding_from_push(s, c, i + 1, q);
        } else {
            match spec_rank_from_char(s[i]) {
                Some(r) => lemma_holding_from_push(s, c, i + 1, q.update(rank_idx(r), true)),
                None => {},
            }
        }
    } else {
        reveal_with_fuel(holding_from, 2);
        assert(s.push(c)[i] == c);
        assert(seq![c][0] == c);
    }
}

proof fn lemma_rank_chars_read(p: Seq<bool>, n: int)
    requires
        p.len() == 13,
        0 <= n <= 13,
    ensures
        holding_from(rank_chars_upto(p, n), 0, void_view()) == Ok::<Seq<bool>, Seq<char>>(present_upto(p, n)),
    decreases n,
{
    if n == 0 {
        assert(present_upto(p, 0) =~= void_view());
    } else {
        lemma_rank_chars_read(p, n - 1);
        if p[n - 1] {
            let r = rank_at(n - 1);
            let c = spec_rank_char(r);
            law_rank_char_roundtrip(r);
            assert(rank_idx(r) == n - 1);
            lemma_holding_from_push(rank_chars_upto(p, n - 1), c, 0, void_view());
            assert(c != '-');
            let q = present_upto(p, n - 1);
            assert(holding_from(seq![c], 1, q.update(n - 1, true)) == Ok::<Seq<bool>, Seq<char>>(
                q.update(n - 1, true),
            ));
            assert(q.update(n - 1, true) =~= present_upto(p, n));
        } else {
            assert(present_upto(p, n - 1) =~= present_upto(p, n));
        }
    }
}

proof fn lemma_no_count_is_void(p: Seq<bool>, n: int)
    requires
        0 <= n <= p.len(),
        count_upto(p, n) == 0,
    ensures
        forall|i: int| 0 <= i < n ==> !#[trigger] p[i],
    decreases n,
{
    if n > 0 {
        lemma_no_count_is_void(p, n - 1);
    }
}

/// Reading back how a holding is written gives the holding: the ranks
/// highest first, and `-` for a void.
pub proof fn law_holding_text_roundtrip(h: Holding)
    ensures
        holding_parse(holding_text(h@)) == Ok::<Seq<bool>, Seq<char>>(h@),
{
    let p = h@;
    if count13(p) == 0 {
        lemma_no_count_is_void(p, 13);
        assert(holding_text(p) == seq!['-']);
        assert(holding_from(seq!['-'], 1, void_view()) == Ok::<Seq<bool>, Seq<char>>(void_view()));
        assert(void_view() =~= p);
    } else {
        lemma_rank_chars_read(p, 13);
        assert(present_upto(p, 13) =~= p);
    }
}

fn holding_of_chars(s: &Vec<char>) -> (r: Result<Holding, String>)
    ensures
        match holding_parse(s@) {
            Ok(p) => r matches Ok(h) && h@ == p,
            Err(e) => r matches Err(m) && m@ == e,
        },
{
    let mut h = Holding::new();
    proof {
        assert(h@ =~= void_view());
    }
    let mut i: usize = 0;
    while i < s.len()
        invariant
            0 <= i <= s@.len(),
            holding_parse(s@) == holding_from(s@, i as int, h@),
        decreases s@.len() - i,
    {
        let c = s[i];
        if c != '-' {
            match Rank::from_pbn_char(c) {
                Some(rank) => h.add(rank),
                None => {
                    let mut m = chars_of("Invalid rank character: ");
                    m.push(c);
                    return Err(string_of(&m));
                },
            }
        }
        i = i + 1;
    }
    Ok(h)
}

/// Parses a holding such as `AKQ`; `-` or nothing is a void.
pub fn parse_holding(input: &str) -> (r: Result<Holding, String>)
    ensures
        match holding_parse(input@) {
            Ok(p) => r matches Ok(h) && h@ == p,
            Err(e) => r matches Err(m) && m@ == e,
        },
{
    let v = chars_of(input);
    holding_of_chars(&v)
}

fn hand_of_chars(s: &Vec<char>) -> (r: Result<Hand, String>)
    ensures
        match hand_parse(s@) {
            Ok(hv) => r matches Ok(h) && hand_view(h) == hv,
            Err(e) => r matches Err(m) && m@ == e,
        },
{
    let parts = split_char(s, '.');
    if parts.len() != 4 {
        let mut m = chars_of("Expected 4 suits separated by '.', got ");
        push_decimal(&mut m, parts.len() as u64);
        let q = chars_of(" in '");
        let mut k: usize = 0;
        let ghost m0 = m@;
        while k < q.len()
            invariant
                0 <= k <= q@.len(),
                m@ == m0 + q@.take(k as int),
            decreases q@.len() - k,
        {
            m.push(q[k]);
            proof {
                assert(q@.take(k + 1) =~= q@.take(k as int).push(q@[k as int]));
            }
            k = k + 1;
        }
        let ghost m1 = m@;
        let mut j: usize = 0;
        while j < s.len()
            invariant
                0 <= j <= s@.len(),
                m@ == m1 + s@.take(j as int),
            decreases s@.len() - j,
        {
            m.push(s[j]);
            proof {
                assert(s@.take(j + 1) =~= s@.take(j as int).push(s@[j as int]));
            }
            j = j + 1;
        }
        m.push('\'');
        proof {
            assert(q@.take(q@.len() as int) =~= q@);
            assert(s@.take(s@.len() as int) =~= s@);
            assert(views(parts@).len() == parts@.len());
            reveal_strlit("'");
            assert(m@ =~= suit_count_message(parts@.len(), s@));
        }
        return Err(string_of(&m));
    }
    proof {
        assert(views(parts@)[0] == parts@[0]@);
        assert(views(parts@)[1] == parts@[1]@);
        assert(views(parts@)[2] == parts@[2]@);
        assert(views(parts@)[3] == parts@[3]@);
    }
    let spades = match holding_of_chars(&parts[0]) {
        Ok(h) => h,
        Err(e) => return Err(e),
    };
    let hearts = match holding_of_chars(&parts[1]) {
        Ok(h) => h,
        Err(e) => return Err(e),
    };
    let diamonds = match holding_of_chars(&parts[2]) {
        Ok(h) => h,
        Err(e) => return Err(e),
    };
    let clubs = match holding_of_chars(&parts[3]) {
        Ok(h) => h,
        Err(e) => return Err(e),
    };
    Ok(Hand::from_holdings(spades, hearts, diamonds, clubs))
}

/// Parses a hand such as `AKQ.JT9.876.5432`: four holdings, spades first.
pub fn parse_hand(input: &str) -> (r: Result<Hand, String>)
    ensures
        match hand_parse(input@) {
            Ok(hv) => r matches Ok(h) && hand_view(h) == hv,
            Err(e) => r matches Err(m) && m@ == e,
        },
{
    let v = chars_of(input);
    hand_of_chars(&v)
}

/// Parses a deal string such as
/// `N:A65.J4.A764.A983 QJT73.9852.K3.Q7 K82.KQT3.T52.642 94.A76.QJ98.KJT5`:
/// the seat of the first hand, a colon, and four hands clockwise from it.
pub fn parse_deal(input: &str) -> (r: Result<Deal, String>)
    ensures
        match deal_parse(input@) {
            Ok((first, hs)) => r matches Ok(deal) && deal_has(deal, first, hs),
            Err(e) => r matches Err(m) && m@ == e,
        },
{
    let v = chars_of(input);
    deal_of_chars(&v)
}

pub(crate) fn deal_of_chars(v: &Vec<char>) -> (r: Result<Deal, String>)
    ensures
        match deal_parse(v@) {
            Ok((first, hs)) => r matches Ok(deal) && deal_has(deal, first, hs),
            Err(e) => r matches Err(m) && m@ == e,
        },
{
    let (a, b) = trim_bounds(v, 0, v.len());
    let ghost t = v@.subrange(a as int, b as int);
    proof {
        assert(v@.subrange(0, v@.len() as int) =~= v@);
    }
    if a == b {
        return Err(String::from_str("Empty deal string"));
    }
    let c = v[a];
    proof {
        assert(t[0] == c);
    }
    let first = match Direction::from_char(c) {
        Some(d) => d,
        None => {
            let mut m = chars_of("Invalid direction: ");
            m.push(c);
            return Err(string_of(&m));
        },
    };
    if b - a < 2 || v[a + 1] != ':' {
        proof {
            if b - a >= 2 {
                assert(t[1] == v@[a + 1]);
            }
        }
        return Err(String::from_str("Expected ':' after direction"));
    }
    proof {
        assert(t[1] == v@[a + 1]);
    }
    let rest = sub_chars(v, a + 2, b);
    proof {
        assert(rest@ =~= t.skip(2));
    }
    let words = split_whitespace(&rest);
    if words.len() != 4 {
        let mut m = chars_of("Expected 4 hands, got ");
        push_decimal(&mut m, words.len() as u64);
        proof {
            assert(views(words@).len() == words@.len());
        }
        return Err(string_of(&m));
    }
    proof {
        assert(views(words@)[0] == words@[0]@);
        assert(views(words@)[1] == words@[1]@);
        assert(views(words@)[2] == words@[2]@);
        assert(views(words@)[3] == words@[3]@);
    }
    let h0 = match hand_of_chars(&words[0]) {
        Ok(h) => h,
        Err(e) => return Err(e),
    };
    let h1 = match hand_of_chars(&words[1]) {
        Ok(h) => h,
        Err(e) => return Err(e),
    };
    let h2 = match hand_of_chars(&words[2]) {
        Ok(h) => h,
        Err(e) => return Err(e),
    };
    let h3 = match hand_of_chars(&words[3]) {
        Ok(h) => h,
        Err(e) => return Err(e),
    };
    let mut deal = Deal::new();
    let d1 = first.next();
    let d2 = d1.next();
    let d3 = d2.next();
    deal.set_hand(first, h0);
    deal.set_hand(d1, h1);
    deal.set_hand(d2, h2);
    deal.set_hand(d3, h3);
    proof {
        let ghost hs = seq![hand_view(h0), hand_view(h1), hand_view(h2), hand_view(h3)];
        assert(spec_advance(first, 0) == first);
        assert(spec_advance(first, 1) == d1);
        assert(spec_advance(first, 2) == d2);
        assert(spec_advance(first, 3) == d3);
        assert forall|k: nat| k < 4 implies hand_view(
            hand_of(deal, #[trigger] spec_advance(first, k)),
        ) == hs[k as int] by {
            if k == 0 {
            } else if k == 1 {
            } else if k == 2 {
            } else {
            }
        }
    }
    Ok(deal)
}

} // verus!
