//! Auctions and contracts.

use super::card::{
    is_ns, spec_advance, spec_direction_name, spec_next, spec_strain_from, spec_strain_symbol,
    AnnotatedCall, Call, Direction, Strain,
};
use crate::text::{chars_of, decimal, push_decimal, string_of, trim};
use std::collections::HashMap;
use vstd::prelude::*;

verus! {

broadcast use vstd::std_specs::hash::group_hash_axioms;

/// A complete auction (bidding sequence).
#[derive(Debug, Clone)]
pub struct Auction {
    pub dealer: Direction,
    pub calls: Vec<AnnotatedCall>,
    pub is_passed_out: bool,
    /// Notes and alerts referenced by `=N=` in the auction, by number.
    pub notes: HashMap<u8, String>,
}

/// Whether a call is a pass or a continuation mark, neither of which is a
/// contribution to the bidding.
pub open spec fn is_pass_like(c: Call) -> bool {
    c == Call::Pass || c == Call::Continue
}

/// Whether North-South made a call other than a pass among the first `n` calls.
pub open spec fn side_bid(calls: Seq<AnnotatedCall>, dealer: Direction, ns: bool, n: int) -> bool {
    exists|k: int|
        0 <= k < n && k < calls.len() && !is_pass_like(#[trigger] calls[k].call) && is_ns(
            spec_advance(dealer, k as nat),
        ) == ns
}

/// The pair that did all the bidding, if only one pair did.
pub open spec fn spec_uncontested_pair(calls: Seq<AnnotatedCall>, dealer: Direction) -> Option<
    (Direction, Direction),
> {
    let ns = side_bid(calls, dealer, true, calls.len() as int);
    let ew = side_bid(calls, dealer, false, calls.len() as int);
    if ns && !ew {
        Some((Direction::North, Direction::South))
    } else if ew && !ns {
        Some((Direction::West, Direction::East))
    } else {
        None
    }
}

/// State of the auction after some calls: the last bid and its bidder, and
/// whether it stands doubled or redoubled.
pub struct AuctionState {
    pub last_bid: Option<(u8, Strain, Direction)>,
    pub doubled: bool,
    pub redoubled: bool,
}

/// The state after the first `n` calls. A bid clears both flags, a double
/// sets `doubled` and clears `redoubled`, a redouble the reverse; other
/// calls change nothing.
pub open spec fn state_after(calls: Seq<AnnotatedCall>, dealer: Direction, n: int) -> AuctionState
    decreases n,
{
    if n <= 0 {
        AuctionState { last_bid: None, doubled: false, redoubled: false }
    } else {
        let s = state_after(calls, dealer, n - 1);
        match calls[n - 1].call {
            Call::Bid { level, strain } => AuctionState {
                last_bid: Some((level, strain, spec_advance(dealer, (n - 1) as nat))),
                doubled: false,
                redoubled: false,
            },
            Call::Double => AuctionState { last_bid: s.last_bid, doubled: true, redoubled: false },
            Call::Redouble => AuctionState {
                last_bid: s.last_bid,
                doubled: false,
                redoubled: true,
            },
            _ => s,
        }
    }
}

/// The contract an auction ends in: the last bid, made by the player who
/// bid it, with the doubles that followed it.
pub open spec fn spec_final_contract(calls: Seq<AnnotatedCall>, dealer: Direction) -> Option<
    Contract,
> {
    let s = state_after(calls, dealer, calls.len() as int);
    match s.last_bid {
        Some((level, suit, declarer)) => Some(
            Contract { level, suit, doubled: s.doubled, redoubled: s.redoubled, declarer },
        ),
        None => None,
    }
}

/// Whether the first `n` calls hold no bid.
pub open spec fn no_bid_upto(calls: Seq<AnnotatedCall>, n: int) -> bool {
    forall|k: int| 0 <= k < n ==> !(#[trigger] calls[k].call is Bid)
}

proof fn lemma_no_bid_no_last(calls: Seq<AnnotatedCall>, dealer: Direction, n: int)
    requires
        0 <= n <= calls.len(),
        no_bid_upto(calls, n),
    ensures
        (state_after(calls, dealer, n).last_bid is None),
    decreases n,
{
    if n > 0 {
        assert(!(calls[n - 1].call is Bid));
        lemma_no_bid_no_last(calls, dealer, n - 1);
    }
}

/// An auction without a bid, such as one passed out, ends in no contract.
pub proof fn law_no_bid_no_contract(calls: Seq<AnnotatedCall>, dealer: Direction)
    requires
        no_bid_upto(calls, calls.len() as int),
    ensures
        (spec_final_contract(calls, dealer) is None),
{
    lemma_no_bid_no_last(calls, dealer, calls.len() as int);
}

/// The contract an auction ends in is its last bid, made by the seat that bid it.
pub proof fn law_contract_is_last_bid(calls: Seq<AnnotatedCall>, dealer: Direction, k: int)
    requires
        0 <= k < calls.len(),
        (calls[k].call is Bid),
        forall|j: int| k < j < calls.len() ==> !(#[trigger] calls[j].call is Bid),
    ensures
        (spec_final_contract(calls, dealer) matches Some(c) && c.declarer == spec_advance(
            dealer,
            k as nat,
        ) && (Call::Bid { level: c.level, strain: c.suit }) == calls[k].call),
{
    lemma_last_bid_kept(calls, dealer, k, calls.len() as int);
}

/// The doubling that stands after the calls `j..n` following the last bid:
/// with no redouble after `j` and the call at `j` a double, the bid is
/// doubled; with no double after `j` and the call at `j` a redouble, it is
/// redoubled.
proof fn lemma_doubling_kept(calls: Seq<AnnotatedCall>, dealer: Direction, k: int, j: int, n: int)
    requires
        0 <= k < j < n <= calls.len(),
        (calls[k].call is Bid),
        forall|m: int| k < m < calls.len() ==> !(#[trigger] calls[m].call is Bid),
        calls[j].call == Call::Double ==> forall|m: int| j < m < calls.len() ==> #[trigger] calls[m].call != Call::Redouble,
        calls[j].call == Call::Redouble ==> forall|m: int| j < m < calls.len() ==> #[trigger] calls[m].call != Call::Double,
        calls[j].call == Call::Double || calls[j].call == Call::Redouble,
    ensures
        calls[j].call == Call::Double ==> state_after(calls, dealer, n).doubled && !state_after(calls, dealer, n).redoubled,
        calls[j].call == Call::Redouble ==> state_after(calls, dealer, n).redoubled && !state_after(calls, dealer, n).doubled,
    decreases n,
{
    if n > j + 1 {
        lemma_doubling_kept(calls, dealer, k, j, n - 1);
        assert(!(calls[n - 1].call is Bid));
    }
}

/// No double or redouble follows the last bid before position `n`.
proof fn lemma_undoubled_kept(calls: Seq<AnnotatedCall>, dealer: Direction, k: int, n: int)
    requires
        0 <= k < n <= calls.len(),
        (calls[k].call is Bid),
        forall|m: int| k < m < calls.len() ==> !(#[trigger] calls[m].call is Bid) && calls[m].call != Call::Double
            && calls[m].call != Call::Redouble,
    ensures
        !state_after(calls, dealer, n).doubled && !state_after(calls, dealer, n).redoubled,
    decreases n,
{
    if n > k + 1 {
        lemma_undoubled_kept(calls, dealer, k, n - 1);
        assert(!(calls[n - 1].call is Bid) && calls[n - 1].call != Call::Double && calls[n - 1].call
            != Call::Redouble);
    }
}

/// A double after the last bid, with no redouble after it, leaves the
/// contract doubled (and not redoubled): `1S X Pass Pass Pass` is 1S doubled.
pub proof fn law_double_after_last_bid(calls: Seq<AnnotatedCall>, dealer: Direction, k: int, j: int)
    requires
        0 <= k < j < calls.len(),
        (calls[k].call is Bid),
        forall|m: int| k < m < calls.len() ==> !(#[trigger] calls[m].call is Bid),
        calls[j].call == Call::Double,
        forall|m: int| j < m < calls.len() ==> #[trigger] calls[m].call != Call::Redouble,
    ensures
        (spec_final_contract(calls, dealer) matches Some(c) && c.doubled && !c.redoubled
            && c.declarer == spec_advance(dealer, k as nat) && (Call::Bid { level: c.level, strain: c.suit })
            == calls[k].call),
{
    lemma_last_bid_kept(calls, dealer, k, calls.len() as int);
    lemma_doubling_kept(calls, dealer, k, j, calls.len() as int);
}

/// A redouble after the last bid, with no double after it, leaves the
/// contract redoubled (and not doubled).
pub proof fn law_redouble_after_last_bid(calls: Seq<AnnotatedCall>, dealer: Direction, k: int, j: int)
    requires
        0 <= k < j < calls.len(),
        (calls[k].call is Bid),
        forall|m: int| k < m < calls.len() ==> !(#[trigger] calls[m].call is Bid),
        calls[j].call == Call::Redouble,
        forall|m: int| j < m < calls.len() ==> #[trigger] calls[m].call != Call::Double,
    ensures
        (spec_final_contract(calls, dealer) matches Some(c) && c.redoubled && !c.doubled
            && c.declarer == spec_advance(dealer, k as nat) && (Call::Bid { level: c.level, strain: c.suit })
            == calls[k].call),
{
    lemma_last_bid_kept(calls, dealer, k, calls.len() as int);
    lemma_doubling_kept(calls, dealer, k, j, calls.len() as int);
}

/// With neither a double nor a redouble after the last bid, the contract is
/// neither doubled nor redoubled.
pub proof fn law_undoubled_after_last_bid(calls: Seq<AnnotatedCall>, dealer: Direction, k: int)
    requires
        0 <= k < calls.len(),
        (calls[k].call is Bid),
        forall|m: int| k < m < calls.len() ==> !(#[trigger] calls[m].call is Bid) && calls[m].call != Call::Double
            && calls[m].call != Call::Redouble,
    ensures
        (spec_final_contract(calls, dealer) matches Some(c) && !c.doubled && !c.redoubled
            && c.declarer == spec_advance(dealer, k as nat) && (Call::Bid { level: c.level, strain: c.suit })
            == calls[k].call),
{
    lemma_last_bid_kept(calls, dealer, k, calls.len() as int);
    lemma_undoubled_kept(calls, dealer, k, calls.len() as int);
}

proof fn lemma_last_bid_kept(calls: Seq<AnnotatedCall>, dealer: Direction, k: int, n: int)
    requires
        0 <= k < n <= calls.len(),
        (calls[k].call is Bid),
        forall|j: int| k < j < calls.len() ==> !(#[trigger] calls[j].call is Bid),
    ensures
        (state_after(calls, dealer, n).last_bid matches Some((l, s, d)) && d == spec_advance(
            dealer,
            k as nat,
        ) && (Call::Bid { level: l, strain: s }) == calls[k].call),
    decreases n,
{
    if n > k + 1 {
        assert(!(calls[n - 1].call is Bid));
        lemma_last_bid_kept(calls, dealer, k, n - 1);
    }
}

impl Auction {
    pub fn new(dealer: Direction) -> (a: Auction)
        ensures
            a.dealer == dealer,
            a.calls@ == Seq::<AnnotatedCall>::empty(),
            !a.is_passed_out,
            a.notes@ == Map::<u8, String>::empty(),
    {
        Auction { dealer, calls: Vec::new(), is_passed_out: false, notes: HashMap::new() }
    }

    /// Records note `number`, replacing an earlier note of that number.
    pub fn add_note(&mut self, number: u8, text: String)
        ensures
            final(self).notes@ == old(self).notes@.insert(number, text),
            final(self).calls@ == old(self).calls@,
            final(self).dealer == old(self).dealer,
            final(self).is_passed_out == old(self).is_passed_out,
    {
        self.notes.insert(number, text);
    }

    pub fn add_call(&mut self, call: Call)
        ensures
            final(self).calls@ == old(self).calls@.push(AnnotatedCall { call, annotation: None }),
            final(self).notes@ == old(self).notes@,
            final(self).dealer == old(self).dealer,
            final(self).is_passed_out == old(self).is_passed_out,
    {
        self.calls.push(AnnotatedCall::new(call));
    }

    pub fn add_annotated_call(&mut self, call: Call, annotation: Option<String>)
        ensures
            final(self).calls@ == old(self).calls@.push(AnnotatedCall { call, annotation }),
            final(self).notes@ == old(self).notes@,
            final(self).dealer == old(self).dealer,
            final(self).is_passed_out == old(self).is_passed_out,
    {
        match annotation {
            Some(ann) => self.calls.push(AnnotatedCall::with_annotation(call, ann)),
            None => self.calls.push(AnnotatedCall::new(call)),
        }
    }

    /// The pair that did all the bidding (the other pair only passed), if any:
    /// `(North, South)` or `(West, East)`.
    pub fn uncontested_pair(&self) -> (r: Option<(Direction, Direction)>)
        ensures
            r == spec_uncontested_pair(self.calls@, self.dealer),
    {
        let mut ns_bid = false;
        let mut ew_bid = false;
        let mut current = self.dealer;
        let mut i: usize = 0;
        while i < self.calls.len()
            invariant
                0 <= i <= self.calls@.len(),
                current == spec_advance(self.dealer, i as nat),
                ns_bid == side_bid(self.calls@, self.dealer, true, i as int),
                ew_bid == side_bid(self.calls@, self.dealer, false, i as int),
            decreases self.calls@.len() - i,
        {
            let call = self.calls[i].call;
            let passes = match call {
                Call::Pass | Call::Continue => true,
                _ => false,
            };
            let ghost calls = self.calls@;
            if !passes {
                match current {
                    Direction::North | Direction::South => ns_bid = true,
                    Direction::East | Direction::West => ew_bid = true,
                }
            }
            proof {
                assert(calls[i as int].call == call);
                if side_bid(calls, self.dealer, true, i + 1) && !side_bid(
                    calls,
                    self.dealer,
                    true,
                    i as int,
                ) {
                    let k = choose|k: int|
                        0 <= k < i + 1 && k < calls.len() && !is_pass_like(
                            #[trigger] calls[k].call,
                        ) && is_ns(spec_advance(self.dealer, k as nat)) == true;
                    assert(k == i);
                }
                if side_bid(calls, self.dealer, false, i + 1) && !side_bid(
                    calls,
                    self.dealer,
                    false,
                    i as int,
                ) {
                    let k = choose|k: int|
                        0 <= k < i + 1 && k < calls.len() && !is_pass_like(
                            #[trigger] calls[k].call,
                        ) && is_ns(spec_advance(self.dealer, k as nat)) == false;
                    assert(k == i);
                }
                if !passes {
                    assert(!is_pass_like(calls[i as int].call));
                }
            }
            current = current.next();
            i = i + 1;
        }
        match (ns_bid, ew_bid) {
            (true, false) => Some((Direction::North, Direction::South)),
            (false, true) => Some((Direction::West, Direction::East)),
            _ => None,
        }
    }

    /// The contract the auction ends in, if anyone bid.
    pub fn final_contract(&self) -> (r: Option<Contract>)
        ensures
            r == spec_final_contract(self.calls@, self.dealer),
    {
        let mut last_bid: Option<(u8, Strain, Direction)> = None;
        let mut doubled = false;
        let mut redoubled = false;
        let mut current = self.dealer;
        let mut i: usize = 0;
        while i < self.calls.len()
            invariant
                0 <= i <= self.calls@.len(),
                current == spec_advance(self.dealer, i as nat),
                last_bid == state_after(self.calls@, self.dealer, i as int).last_bid,
                doubled == state_after(self.calls@, self.dealer, i as int).doubled,
                redoubled == state_after(self.calls@, self.dealer, i as int).redoubled,
            decreases self.calls@.len() - i,
        {
            match self.calls[i].call {
                Call::Bid { level, strain } => {
                    last_bid = Some((level, strain, current));
                    doubled = false;
                    redoubled = false;
                },
                Call::Double => {
                    doubled = true;
                    redoubled = false;
                },
                Call::Redouble => {
                    doubled = false;
                    redoubled = true;
                },
                _ => {},
            }
            current = current.next();
            i = i + 1;
        }
        match last_bid {
            Some((level, suit, declarer)) => Some(
                Contract { level, suit, doubled, redoubled, declarer },
            ),
            None => None,
        }
    }
}

/// The contract resulting from an auction.
#[derive(Debug, Clone, Copy, PartialEq, Eq, Structural)]
pub struct Contract {
    pub level: u8,
    pub suit: Strain,
    pub doubled: bool,
    pub redoubled: bool,
    pub declarer: Direction,
}

/// What a contract string such as `1NT`, `4S`, `4HX`, `3NTXX` denotes, once
/// trimmed: a level 1-7, a denomination, then `XX` (redoubled) or `X`
/// (doubled). The declarer is South until a `Declarer` tag says otherwise.
pub open spec fn spec_contract_parse(s: Seq<char>) -> Option<Contract> {
    let t = trim(s);
    if t.len() == 0 || !('1' <= t[0] && t[0] <= '7') {
        None
    } else {
        let r = t.drop_first();
        let n = r.len();
        let redoubled = n >= 2 && r[n - 2] == 'X' && r[n - 1] == 'X';
        let doubled = !redoubled && n >= 1 && r[n - 1] == 'X';
        let part = if redoubled {
            r.take(n - 2)
        } else if doubled {
            r.take(n - 1)
        } else {
            r
        };
        match spec_strain_from(part) {
            Some(suit) => Some(
                Contract {
                    level: (t[0] as int - '0' as int) as u8,
                    suit,
                    doubled,
                    redoubled,
                    declarer: Direction::South,
                },
            ),
            None => None,
        }
    }
}

/// How a contract is written: level, strain symbol, `XX` or `X`, then ` by ` and the declarer.
pub open spec fn spec_contract_text(c: Contract) -> Seq<char> {
    decimal(c.level as nat) + spec_strain_symbol(c.suit) + (if c.redoubled {
        seq!['X', 'X']
    } else if c.doubled {
        seq!['X']
    } else {
        seq![]
    }) + seq![' ', 'b', 'y', ' '] + spec_direction_name(c.declarer)
}

impl Contract {
    /// Parses a contract string like `1NT`, `4S`, `4HX`, `3NTXX`.
    pub fn parse(s: &str) -> (r: Option<Contract>)
        ensures
            r == spec_contract_parse(s@),
    {
        let v = chars_of(s);
        proof {
            assert(v@.subrange(0, v@.len() as int) =~= v@);
        }
        let (a, b) = crate::text::trim_bounds(&v, 0, v.len());
        let ghost t = v@.subrange(a as int, b as int);
        if a == b {
            return None;
        }
        proof {
            assert(t[0] == v@[a as int]);
        }
        let first = v[a];
        if !('1' <= first && first <= '7') {
            return None;
        }
        let level = (first as u32 - '0' as u32) as u8;
        let ghost r = t.drop_first();
        proof {
            assert(r =~= v@.subrange(a + 1, b as int));
        }
        let n = b - (a + 1);
        let redoubled = n >= 2 && v[b - 2] == 'X' && v[b - 1] == 'X';
        let doubled = !redoubled && n >= 1 && v[b - 1] == 'X';
        proof {
            if n >= 2 {
                assert(r[n - 2] == v@[b - 2]);
            }
            if n >= 1 {
                assert(r[n - 1] == v@[b - 1]);
            }
        }
        let end = if redoubled {
            b - 2
        } else if doubled {
            b - 1
        } else {
            b
        };
        proof {
            if redoubled {
                assert(r.take(n - 2) =~= v@.subrange(a + 1, end as int));
            } else if doubled {
                assert(r.take(n - 1) =~= v@.subrange(a + 1, end as int));
            } else {
                assert(r =~= v@.subrange(a + 1, end as int));
            }
        }
        match Strain::from_range(&v, a + 1, end) {
            Some(suit) => Some(
                Contract { level, suit, doubled, redoubled, declarer: Direction::South },
            ),
            None => None,
        }
    }

    /// The contract as text, e.g. `4♠X by South`.
    pub fn to_string(&self) -> (s: String)
        ensures
            s@ == spec_contract_text(*self),
    {
        let mut v: Vec<char> = Vec::new();
        push_decimal(&mut v, self.level as u64);
        self.suit.push_symbol(&mut v);
        let ghost mid = v@;
        if self.redoubled {
            v.push('X');
            v.push('X');
        } else if self.doubled {
            v.push('X');
        }
        let ghost mid2 = v@;
        v.push(' ');
        v.push('b');
        v.push('y');
        v.push(' ');
        let ghost mid3 = v@;
        self.declarer.push_name(&mut v);
        proof {
            assert(mid3 =~= mid2 + seq![' ', 'b', 'y', ' ']);
            assert(mid2 =~= mid + (if self.redoubled {
                seq!['X', 'X']
            } else if self.doubled {
                seq!['X']
            } else {
                seq![]
            }));
            assert(v@ =~= spec_contract_text(*self));
        }
        string_of(&v)
    }
}

} // verus!
