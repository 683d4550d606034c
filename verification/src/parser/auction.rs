//! The auction section: calls separated by whitespace.

use crate::model::auction::Auction;
use crate::model::board::{upper_eq, upper_eq_exec};
use crate::model::card::{spec_call_from_pbn, AnnotatedCall, Call, Direction};
use crate::text::{chars_of, split_whitespace, split_ws, views};
use vstd::prelude::*;

verus! {

/// Whether `c` starts an annotation after a call: a NAG mark (`!`, `?`, `$`)
/// or a comment bracket.
pub open spec fn is_annotation_mark(c: char) -> bool {
    c == '!' || c == '?' || c == '$' || c == '{' || c == '}' || c == '(' || c == ')'
}

/// Position of the first annotation mark of `s` at or after `i`, or the length.
pub open spec fn mark_from(s: Seq<char>, i: int) -> int
    decreases s.len() - i,
{
    if i < 0 || i >= s.len() {
        s.len() as int
    } else if is_annotation_mark(s[i]) {
        i
    } else {
        mark_from(s, i + 1)
    }
}

/// A call token without its annotation: `1C!` is `1C`, `2H$1` is `2H`.
pub open spec fn stripped(s: Seq<char>) -> Seq<char> {
    s.take(mark_from(s, 0))
}

/// The calls that the tokens `ws[i..]` add to `calls`: `AP` (all pass, in
/// any case) adds three passes and ends the auction, `*` ends it, any other
/// token adds the call it names once stripped of annotations, or nothing.
pub open spec fn auction_from(ws: Seq<Seq<char>>, i: int, calls: Seq<Call>) -> Seq<Call>
    decreases ws.len() - i,
{
    if i < 0 || i >= ws.len() {
        calls
    } else if upper_eq(ws[i], seq!['A', 'P']) {
        calls.push(Call::Pass).push(Call::Pass).push(Call::Pass)
    } else if ws[i] == seq!['*'] {
        calls
    } else {
        match spec_call_from_pbn(stripped(ws[i])) {
            Some(c) => auction_from(ws, i + 1, calls.push(c)),
            None => auction_from(ws, i + 1, calls),
        }
    }
}

/// The calls that the auction text `s` records.
pub open spec fn auction_parse(s: Seq<char>) -> Seq<Call> {
    auction_from(split_ws(s), 0, seq![])
}

/// The calls of an auction, without their annotations.
pub open spec fn calls_of(calls: Seq<AnnotatedCall>) -> Seq<Call> {
    calls.map_values(|a: AnnotatedCall| a.call)
}

/// An auction is passed out when its first four calls are passes.
pub open spec fn passed_out(calls: Seq<Call>) -> bool {
    calls.len() >= 4 && calls[0] == Call::Pass && calls[1] == Call::Pass && calls[2] == Call::Pass
        && calls[3] == Call::Pass
}

/// Position of the first annotation mark in `v`, or its length.
fn strip_annotations(v: &Vec<char>) -> (e: usize)
    ensures
        e == mark_from(v@, 0),
        e <= v@.len(),
{
    let mut i: usize = 0;
    while i < v.len()
        invariant
            0 <= i <= v@.len(),
            mark_from(v@, 0) == mark_from(v@, i as int),
        decreases v@.len() - i,
    {
        let c = v[i];
        if c == '!' || c == '?' || c == '$' || c == '{' || c == '}' || c == '(' || c == ')' {
            return i;
        }
        i = i + 1;
    }
    i
}

proof fn lemma_calls_of_push(calls: Seq<AnnotatedCall>, a: AnnotatedCall)
    ensures
        calls_of(calls.push(a)) == calls_of(calls).push(a.call),
{
    assert(calls_of(calls.push(a)) =~= calls_of(calls).push(a.call));
}

/// Parses the auction that follows `[Auction "X"]`, where `dealer` is X.
/// The auction is passed out when its first four calls are passes.
pub fn parse_auction(dealer: Direction, input: &str) -> (r: Result<Auction, String>)
    ensures
        r matches Ok(a) && a.dealer == dealer && calls_of(a.calls@) == auction_parse(input@)
            && a.is_passed_out == passed_out(auction_parse(input@)) && a.notes@ == Map::<u8, String>::empty()
            && forall|k: int|
            0 <= k < a.calls@.len() ==> (#[trigger] a.calls@[k]).annotation is None,
{
    let v = chars_of(input);
    auction_of_chars(dealer, &v)
}

pub(crate) fn auction_of_chars(dealer: Direction, v: &Vec<char>) -> (r: Result<Auction, String>)
    ensures
        r matches Ok(a) && a.dealer == dealer && calls_of(a.calls@) == auction_parse(v@)
            && a.is_passed_out == passed_out(auction_parse(v@)) && a.notes@ == Map::<u8, String>::empty()
            && forall|k: int|
            0 <= k < a.calls@.len() ==> (#[trigger] a.calls@[k]).annotation is None,
{
    let words = split_whitespace(v);
    let ghost ws = views(words@);
    let mut auction = Auction::new(dealer);
    let ap = ['A', 'P'];
    proof {
        assert(ap@ =~= seq!['A', 'P']);
        assert(calls_of(auction.calls@) =~= Seq::<Call>::empty());
    }
    let mut i: usize = 0;
    while i < words.len()
        invariant
            0 <= i <= words@.len(),
            ws == views(words@),
            ws == split_ws(v@),
            
            ap@ == seq!['A', 'P'],
            auction.dealer == dealer,
            !auction.is_passed_out,
            auction.notes@ == Map::<u8, String>::empty(),
            auction_parse(v@) == auction_from(ws, i as int, calls_of(auction.calls@)),
            forall|k: int|
                0 <= k < auction.calls@.len() ==> (#[trigger] auction.calls@[k]).annotation is None,
        decreases words@.len() - i,
    {
        let w = &words[i];
        proof {
            assert(ws[i as int] == w@);
        }
        if upper_eq_exec(w, &ap) {
            let ghost c0 = auction.calls@;
            auction.add_call(Call::Pass);
            let ghost c1 = auction.calls@;
            auction.add_call(Call::Pass);
            let ghost c2 = auction.calls@;
            auction.add_call(Call::Pass);
            proof {
                lemma_calls_of_push(c0, c1.last());
                lemma_calls_of_push(c1, c2.last());
                lemma_calls_of_push(c2, auction.calls@.last());
                assert(auction_from(ws, words@.len() as int, calls_of(auction.calls@)) == calls_of(
                    auction.calls@,
                ));
            }
            i = words.len();
        } else if w.len() == 1 && w[0] == '*' {
            proof {
                assert(w@ =~= seq!['*']);
            }
            i = words.len();
        } else {
            proof {
                assert(w@ != seq!['*']) by {
                    if w@.len() == 1 {
                        assert(w@[0] != '*');
                    }
                }
            }
            let e = strip_annotations(w);
            proof {
                assert(w@.subrange(0, e as int) =~= stripped(w@));
            }
            match Call::from_range(w, 0, e) {
                Some(call) => {
                    let ghost before = auction.calls@;
                    auction.add_call(call);
                    proof {
                        lemma_calls_of_push(before, auction.calls@.last());
                    }
                },
                None => {},
            }
            i = i + 1;
        }
    }
    if auction.calls.len() >= 4 && matches!(auction.calls[0].call, Call::Pass) && matches!(
        auction.calls[1].call,
        Call::Pass
    ) && matches!(auction.calls[2].call, Call::Pass) && matches!(
        auction.calls[3].call,
        Call::Pass
    ) {
        auction.is_passed_out = true;
    }
    proof {
        let cs = calls_of(auction.calls@);
        if cs.len() >= 4 {
            assert(cs[0] == auction.calls@[0].call);
            assert(cs[1] == auction.calls@[1].call);
            assert(cs[2] == auction.calls@[2].call);
            assert(cs[3] == auction.calls@[3].call);
        }
    }
    Ok(auction)
}

} // verus!
