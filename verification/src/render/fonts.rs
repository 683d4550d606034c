//! Font families and suit glyphs.

use crate::model::card::{spec_suit_symbol, Suit};
use crate::text::{ascii_ci, chars_of};
use vstd::prelude::*;

verus! {

/// The two families of text fonts.
#[derive(Debug, Clone, Copy, PartialEq, Eq, Structural)]
pub enum FontFamily {
    /// Arial, Helvetica and the like.
    SansSerif,
    /// Times New Roman, Times and the like.
    Serif,
}

/// `kw` (upper-case ASCII) occurs in `s` at `i`, letters compared without case.
pub open spec fn occurs_ci_at(s: Seq<char>, kw: Seq<char>, i: int) -> bool {
    0 <= i && i + kw.len() <= s.len() && forall|j: int|
        0 <= j < kw.len() ==> ascii_ci(#[trigger] s[i + j], kw[j])
}

/// `kw` (upper-case ASCII) occurs somewhere in `s`, letters compared without
/// case. For these words this is what occurring in `s.to_lowercase()` means:
/// no other character lower-cases to an ASCII letter that they contain.
pub open spec fn contains_ci(s: Seq<char>, kw: Seq<char>) -> bool {
    exists|i: int| occurs_ci_at(s, kw, i)
}

/// A font name names a serif family when it mentions Times, serif, Georgia,
/// Palatino or Garamond, in any case.
pub open spec fn names_serif(name: Seq<char>) -> bool {
    contains_ci(name, "TIMES"@) || contains_ci(name, "SERIF"@) || contains_ci(name, "GEORGIA"@)
        || contains_ci(name, "PALATINO"@) || contains_ci(name, "GARAMOND"@)
}

/// Whether the upper-case ASCII word `kw` occurs in `s`, letters compared
/// without case.
fn contains_word(s: &Vec<char>, kw: &str) -> (b: bool)
    ensures
        b == contains_ci(s@, kw@),
{
    let k = chars_of(kw);
    if k.len() > s.len() {
        proof {
            assert forall|i: int| !occurs_ci_at(s@, kw@, i) by {}
        }
        return false;
    }
    let mut i: usize = 0;
    while i <= s.len() - k.len()
        invariant
            k@ == kw@,
            k@.len() <= s@.len(),
            0 <= i <= s@.len() - k@.len() + 1,
            forall|m: int| 0 <= m < i ==> !occurs_ci_at(s@, kw@, m),
        decreases s@.len() - i,
    {
        let mut j: usize = 0;
        let mut ok = true;
        while j < k.len()
            invariant
                k@ == kw@,
                i + k@.len() <= s@.len(),
                0 <= j <= k@.len(),
                k@.len() <= s@.len(),
                ok == (forall|t: int| 0 <= t < j ==> ascii_ci(#[trigger] s@[i + t], kw@[t])),
            decreases k@.len() - j,
        {
            let n = s.len();
            proof {
                assert(i + j < n);
            }
            let c = s[i + j];
            if !crate::text::char_ci(c, k[j]) {
                ok = false;
            }
            j = j + 1;
        }
        if ok {
            proof {
                assert(occurs_ci_at(s@, kw@, i as int));
            }
            return true;
        }
        i = i + 1;
    }
    proof {
        assert forall|m: int| !occurs_ci_at(s@, kw@, m) by {
            if 0 <= m < i {
            }
        }
    }
    false
}

impl FontFamily {
    /// The family of the font called `name`: serif for Times, serif, Georgia,
    /// Palatino and Garamond fonts, sans-serif for everything else.
    pub fn from_name(name: &str) -> (f: FontFamily)
        ensures
            f == (if names_serif(name@) {
                FontFamily::Serif
            } else {
                FontFamily::SansSerif
            }),
    {
        let v = chars_of(name);
        if contains_word(&v, "TIMES") || contains_word(&v, "SERIF") || contains_word(&v, "GEORGIA")
            || contains_word(&v, "PALATINO") || contains_word(&v, "GARAMOND") {
            FontFamily::Serif
        } else {
            FontFamily::SansSerif
        }
    }
}

/// The Unicode symbol of a suit: ♠ ♥ ♦ ♣.
pub fn suit_char(suit: &Suit) -> (c: char)
    ensures
        c == spec_suit_symbol(*suit),
{
    suit.symbol()
}

/// The letter of a suit, for where its symbol cannot be shown.
pub open spec fn spec_suit_text(suit: Suit) -> Seq<char> {
    match suit {
        Suit::Spades => "S"@,
        Suit::Hearts => "H"@,
        Suit::Diamonds => "D"@,
        Suit::Clubs => "C"@,
    }
}

/// The letter of a suit, for where its symbol cannot be shown.
pub fn suit_text(suit: &Suit) -> (s: &'static str)
    ensures
        s@ == spec_suit_text(*suit),
{
    match suit {
        Suit::Spades => "S",
        Suit::Hearts => "H",
        Suit::Diamonds => "D",
        Suit::Clubs => "C",
    }
}

} // verus!
