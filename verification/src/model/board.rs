//! Vulnerability and the complete record of a board.

use super::auction::{Auction, Contract};
use super::card::{spec_direction_name, spec_next, Direction};
use super::commentary::CommentaryBlock;
use super::deal::{suit_present, Deal};
use super::play::PlaySequence;
use crate::text::{ascii_ci, chars_of, decimal, push_decimal, string_of};
use vstd::prelude::*;

verus! {

/// Which pairs are vulnerable.
#[derive(Debug, Clone, Copy, PartialEq, Eq, Structural)]
pub enum Vulnerability {
    Neither,
    NorthSouth,
    EastWest,
    Both,
}

/// `c` upper-cases to the ASCII character `t` (as `char::to_uppercase` maps it):
/// `t` itself, its lower-case form, or the dotless `ı` for `I` and the long `ſ` for `S`.
pub open spec fn upper_is(c: char, t: char) -> bool {
    ascii_ci(c, t) || (t == 'I' && c == '\u{131}') || (t == 'S' && c == '\u{17f}')
}

/// `s.to_uppercase() == t` for an upper-case ASCII word `t` without the letters
/// `F` and `T` (for such words no ligature can upper-case into a part of `t`).
pub open spec fn upper_eq(s: Seq<char>, t: Seq<char>) -> bool {
    s.len() == t.len() && forall|i: int| 0 <= i < s.len() ==> upper_is(#[trigger] s[i], t[i])
}

fn upper_is_exec(c: char, t: char) -> (b: bool)
    ensures
        b == upper_is(c, t),
{
    crate::text::char_ci(c, t) || (t == 'I' && c == '\u{131}') || (t == 'S' && c == '\u{17f}')
}

pub(crate) fn upper_eq_exec(s: &Vec<char>, t: &[char]) -> (b: bool)
    ensures
        b == upper_eq(s@, t@),
{
    if s.len() != t.len() {
        return false;
    }
    let mut i: usize = 0;
    while i < t.len()
        invariant
            s@.len() == t@.len(),
            0 <= i <= t@.len(),
            forall|j: int| 0 <= j < i ==> upper_is(#[trigger] s@[j], t@[j]),
        decreases t@.len() - i,
    {
        if !upper_is_exec(s[i], t[i]) {
            return false;
        }
        i = i + 1;
    }
    true
}

/// The vulnerability that a PBN `Vulnerable` value names, compared after
/// upper-casing: `None`, `-`, `Love`; `NS`, `N-S`; `EW`, `E-W`; `Both`, `All`.
pub open spec fn spec_vulnerability_from_pbn(s: Seq<char>) -> Option<Vulnerability> {
    if upper_eq(s, seq!['N', 'O', 'N', 'E']) || upper_eq(s, seq!['-']) || upper_eq(
        s,
        seq!['L', 'O', 'V', 'E'],
    ) {
        Some(Vulnerability::Neither)
    } else if upper_eq(s, seq!['N', 'S']) || upper_eq(s, seq!['N', '-', 'S']) {
        Some(Vulnerability::NorthSouth)
    } else if upper_eq(s, seq!['E', 'W']) || upper_eq(s, seq!['E', '-', 'W']) {
        Some(Vulnerability::EastWest)
    } else if upper_eq(s, seq!['B', 'O', 'T', 'H']) || upper_eq(s, seq!['A', 'L', 'L']) {
        Some(Vulnerability::Both)
    } else {
        None
    }
}

/// How a vulnerability is written under a board diagram.
pub open spec fn spec_vulnerability_text(v: Vulnerability) -> Seq<char> {
    match v {
        Vulnerability::Neither => seq!['N', 'o', 'n', 'e', ' ', 'V', 'u', 'l'],
        Vulnerability::NorthSouth => seq!['N', '-', 'S', ' ', 'V', 'u', 'l'],
        Vulnerability::EastWest => seq!['E', '-', 'W', ' ', 'V', 'u', 'l'],
        Vulnerability::Both => seq!['B', 'o', 't', 'h', ' ', 'V', 'u', 'l'],
    }
}

/// Whether `d` is vulnerable under `v`.
pub open spec fn spec_is_vulnerable(v: Vulnerability, d: Direction) -> bool {
    match v {
        Vulnerability::Neither => false,
        Vulnerability::Both => true,
        Vulnerability::NorthSouth => d == Direction::North || d == Direction::South,
        Vulnerability::EastWest => d == Direction::East || d == Direction::West,
    }
}

/// Partners are vulnerable together: a seat is vulnerable exactly when its
/// partner is.
pub proof fn law_partners_share_vulnerability(v: Vulnerability, d: Direction)
    ensures
        spec_is_vulnerable(v, d) == spec_is_vulnerable(v, crate::model::card::spec_partner(d)),
{
}

/// The PBN letter of a seat.
pub open spec fn spec_seat_letter(d: Direction) -> char {
    match d {
        Direction::North => 'N',
        Direction::East => 'E',
        Direction::South => 'S',
        Direction::West => 'W',
    }
}

/// The letters of a pair, first seat first: `NS` for North, `EW` for East.
pub open spec fn pair_code(d: Direction) -> Seq<char> {
    seq![spec_seat_letter(d), spec_seat_letter(crate::model::card::spec_partner(d))]
}

/// The letters of a pair joined by a dash: `N-S`, `E-W`.
pub open spec fn pair_code_dashed(d: Direction) -> Seq<char> {
    seq![spec_seat_letter(d), '-', spec_seat_letter(crate::model::card::spec_partner(d))]
}

/// A `Vulnerable` value that spells a pair (`NS`, `N-S`, `EW`, `E-W`) makes
/// exactly the two seats of that pair vulnerable.
pub proof fn law_pair_code_vulnerable(d: Direction, dashed: bool)
    requires
        d == Direction::North || d == Direction::East,
    ensures
        ({
            let code = if dashed {
                pair_code_dashed(d)
            } else {
                pair_code(d)
            };
            spec_vulnerability_from_pbn(code) matches Some(v) && forall|e: Direction|
                #[trigger] spec_is_vulnerable(v, e) <==> (e == d || e
                    == crate::model::card::spec_partner(d))
        }),
{
    let code = if dashed {
        pair_code_dashed(d)
    } else {
        pair_code(d)
    };
    assert(upper_is(code[0], spec_seat_letter(d)));
    if d == Direction::North {
        assert(!upper_eq(code, seq!['N', 'O', 'N', 'E']));
        assert(!upper_eq(code, seq!['-']));
        assert(!upper_eq(code, seq!['L', 'O', 'V', 'E']));
        if dashed {
            assert(upper_eq(code, seq!['N', '-', 'S']));
        } else {
            assert(upper_eq(code, seq!['N', 'S']));
        }
    } else {
        assert(!upper_eq(code, seq!['N', 'O', 'N', 'E']));
        assert(!upper_eq(code, seq!['-']));
        assert(!upper_eq(code, seq!['L', 'O', 'V', 'E']));
        assert(!upper_is(code[0], 'N'));
        assert(!upper_eq(code, seq!['N', 'S']));
        assert(!upper_eq(code, seq!['N', '-', 'S']));
        if dashed {
            assert(upper_eq(code, seq!['E', '-', 'W']));
        } else {
            assert(upper_eq(code, seq!['E', 'W']));
        }
    }
}

/// Reading the vulnerability as it is written under a diagram (`None`,
/// `N-S`, `E-W`, `Both`, without the ` Vul`) gives the vulnerability back.
pub proof fn law_vulnerability_text_roundtrip(v: Vulnerability)
    ensures
        spec_vulnerability_from_pbn(
            spec_vulnerability_text(v).take(spec_vulnerability_text(v).len() - 4),
        ) == Some(v),
{
    let t = spec_vulnerability_text(v);
    let code = t.take(t.len() - 4);
    match v {
        Vulnerability::Neither => {
            assert(code =~= seq!['N', 'o', 'n', 'e']);
            assert(upper_eq(code, seq!['N', 'O', 'N', 'E']));
        },
        Vulnerability::NorthSouth => {
            assert(code =~= seq!['N', '-', 'S']);
            assert(!upper_eq(code, seq!['N', 'O', 'N', 'E']));
            assert(!upper_eq(code, seq!['L', 'O', 'V', 'E']));
            assert(upper_eq(code, seq!['N', '-', 'S']));
        },
        Vulnerability::EastWest => {
            assert(code =~= seq!['E', '-', 'W']);
            assert(!upper_is(code[0], 'N'));
            assert(!upper_eq(code, seq!['N', 'O', 'N', 'E']));
            assert(!upper_eq(code, seq!['L', 'O', 'V', 'E']));
            assert(!upper_eq(code, seq!['N', '-', 'S']));
            assert(upper_eq(code, seq!['E', '-', 'W']));
        },
        Vulnerability::Both => {
            assert(code =~= seq!['B', 'o', 't', 'h']);
            assert(!upper_is(code[0], 'N'));
            assert(!upper_is(code[0], 'L'));
            assert(!upper_is(code[0], 'E'));
            assert(!upper_eq(code, seq!['N', 'O', 'N', 'E']));
            assert(!upper_eq(code, seq!['L', 'O', 'V', 'E']));
            assert(upper_eq(code, seq!['B', 'O', 'T', 'H']));
        },
    }
}

impl Vulnerability {
    /// Parses a PBN `Vulnerable` value.
    pub fn from_pbn(s: &str) -> (r: Option<Vulnerability>)
        ensures
            r == spec_vulnerability_from_pbn(s@),
    {
        let v = chars_of(s);
        let none = ['N', 'O', 'N', 'E'];
        let dash = ['-'];
        let love = ['L', 'O', 'V', 'E'];
        let ns = ['N', 'S'];
        let n_s = ['N', '-', 'S'];
        let ew = ['E', 'W'];
        let e_w = ['E', '-', 'W'];
        let both = ['B', 'O', 'T', 'H'];
        let all = ['A', 'L', 'L'];
        proof {
            assert(none@ =~= seq!['N', 'O', 'N', 'E']);
            assert(dash@ =~= seq!['-']);
            assert(love@ =~= seq!['L', 'O', 'V', 'E']);
            assert(ns@ =~= seq!['N', 'S']);
            assert(n_s@ =~= seq!['N', '-', 'S']);
            assert(ew@ =~= seq!['E', 'W']);
            assert(e_w@ =~= seq!['E', '-', 'W']);
            assert(both@ =~= seq!['B', 'O', 'T', 'H']);
            assert(all@ =~= seq!['A', 'L', 'L']);
        }
        if upper_eq_exec(&v, &none) || upper_eq_exec(&v, &dash) || upper_eq_exec(&v, &love) {
            Some(Vulnerability::Neither)
        } else if upper_eq_exec(&v, &ns) || upper_eq_exec(&v, &n_s) {
            Some(Vulnerability::NorthSouth)
        } else if upper_eq_exec(&v, &ew) || upper_eq_exec(&v, &e_w) {
            Some(Vulnerability::EastWest)
        } else if upper_eq_exec(&v, &both) || upper_eq_exec(&v, &all) {
            Some(Vulnerability::Both)
        } else {
            None
        }
    }

    /// Whether `direction` is vulnerable.
    pub fn is_vulnerable(&self, direction: Direction) -> (b: bool)
        ensures
            b == spec_is_vulnerable(*self, direction),
    {
        match self {
            Vulnerability::Neither => false,
            Vulnerability::Both => true,
            Vulnerability::NorthSouth => match direction {
                Direction::North | Direction::South => true,
                _ => false,
            },
            Vulnerability::EastWest => match direction {
                Direction::East | Direction::West => true,
                _ => false,
            },
        }
    }

    /// Appends how the vulnerability is written to `out`.
    pub fn push_text(&self, out: &mut Vec<char>)
        ensures
            final(out)@ == old(out)@ + spec_vulnerability_text(*self),
    {
        let ghost start = out@;
        match self {
            Vulnerability::Neither => {
                out.push('N');
                out.push('o');
                out.push('n');
                out.push('e');
            },
            Vulnerability::NorthSouth => {
                out.push('N');
                out.push('-');
                out.push('S');
            },
            Vulnerability::EastWest => {
                out.push('E');
                out.push('-');
                out.push('W');
            },
            Vulnerability::Both => {
                out.push('B');
                out.push('o');
                out.push('t');
                out.push('h');
            },
        }
        out.push(' ');
        out.push('V');
        out.push('u');
        out.push('l');
        proof {
            assert(out@ =~= start + spec_vulnerability_text(*self));
        }
    }

    /// How the vulnerability is written: `None Vul`, `N-S Vul`, `E-W Vul`, `Both Vul`.
    pub fn to_string(&self) -> (s: String)
        ensures
            s@ == spec_vulnerability_text(*self),
    {
        let mut v: Vec<char> = Vec::new();
        self.push_text(&mut v);
        proof {
            assert(v@ =~= spec_vulnerability_text(*self));
        }
        string_of(&v)
    }
}

/// The complete record of one board.
#[derive(Debug, Clone)]
pub struct Board {
    // Identification
    pub number: Option<u32>,
    pub event: Option<String>,
    pub site: Option<String>,
    pub date: Option<String>,
    // Setup
    pub dealer: Option<Direction>,
    pub vulnerable: Vulnerability,
    pub deal: Deal,
    // Bidding
    pub auction: Option<Auction>,
    pub contract: Option<Contract>,
    pub declarer: Option<Direction>,
    // Play
    pub play: Option<PlaySequence>,
    pub result: Option<i8>,
    // Commentary
    pub commentary: Vec<CommentaryBlock>,
}

/// The separator between the parts of a board title.
pub open spec fn title_sep() -> Seq<char> {
    seq![' ', '\u{2022}', ' ']
}

/// The title of a board: `Board N`, `<Dealer> Deals` and the vulnerability,
/// each present part joined by ` • `.
pub open spec fn spec_title(number: Option<u32>, dealer: Option<Direction>, v: Vulnerability) -> Seq<
    char,
> {
    let a = match number {
        Some(n) => seq!['B', 'o', 'a', 'r', 'd', ' '] + decimal(n as nat) + title_sep(),
        None => seq![],
    };
    let b = match dealer {
        Some(d) => spec_direction_name(d) + seq![' ', 'D', 'e', 'a', 'l', 's'] + title_sep(),
        None => seq![],
    };
    a + b + spec_vulnerability_text(v)
}

impl Board {
    /// An empty board: no number, no dealer, nobody vulnerable, no cards.
    pub fn new() -> (b: Board)
        ensures
            b.number is None,
            b.event is None,
            b.site is None,
            b.date is None,
            b.dealer is None,
            b.vulnerable == Vulnerability::Neither,
            forall|s: crate::model::card::Suit| !#[trigger] suit_present(b.deal, s),
            forall|e: Direction, s: crate::model::card::Suit, i: int|
                0 <= i < 13 ==> !#[trigger] crate::model::hand::holding_of(
                    crate::model::deal::hand_of(b.deal, e),
                    s,
                )@[i],
            b.auction is None,
            b.contract is None,
            b.declarer is None,
            b.play is None,
            b.result is None,
            b.commentary@.len() == 0,
    {
        Board {
            number: None,
            event: None,
            site: None,
            date: None,
            dealer: None,
            vulnerable: Vulnerability::Neither,
            deal: Deal::new(),
            auction: None,
            contract: None,
            declarer: None,
            play: None,
            result: None,
            commentary: Vec::new(),
        }
    }

    pub fn with_number(self, number: u32) -> (b: Board)
        ensures
            b.number == Some(number),
            b.dealer == self.dealer,
            b.vulnerable == self.vulnerable,
            b.deal == self.deal,
    {
        let mut b = self;
        b.number = Some(number);
        b
    }

    pub fn with_dealer(self, dealer: Direction) -> (b: Board)
        ensures
            b.dealer == Some(dealer),
            b.number == self.number,
            b.vulnerable == self.vulnerable,
            b.deal == self.deal,
    {
        let mut b = self;
        b.dealer = Some(dealer);
        b
    }

    pub fn with_vulnerability(self, vuln: Vulnerability) -> (b: Board)
        ensures
            b.vulnerable == vuln,
            b.number == self.number,
            b.dealer == self.dealer,
            b.deal == self.deal,
    {
        let mut b = self;
        b.vulnerable = vuln;
        b
    }

    pub fn with_deal(self, deal: Deal) -> (b: Board)
        ensures
            b.deal == deal,
            b.number == self.number,
            b.dealer == self.dealer,
            b.vulnerable == self.vulnerable,
    {
        let mut b = self;
        b.deal = deal;
        b
    }

    /// The board's title, e.g. `Board 1 • North Deals • None Vul`.
    pub fn title(&self) -> (s: String)
        ensures
            s@ == spec_title(self.number, self.dealer, self.vulnerable),
    {
        let mut v: Vec<char> = Vec::new();
        match self.number {
            Some(n) => {
                v.push('B');
                v.push('o');
                v.push('a');
                v.push('r');
                v.push('d');
                v.push(' ');
                push_decimal(&mut v, n as u64);
                v.push(' ');
                v.push('\u{2022}');
                v.push(' ');
            },
            None => {},
        }
        let ghost a = v@;
        match self.dealer {
            Some(d) => {
                d.push_name(&mut v);
                v.push(' ');
                v.push('D');
                v.push('e');
                v.push('a');
                v.push('l');
                v.push('s');
                v.push(' ');
                v.push('\u{2022}');
                v.push(' ');
            },
            None => {},
        }
        let ghost b = v@;
        self.vulnerable.push_text(&mut v);
        proof {
            let pa = match self.number {
                Some(n) => seq!['B', 'o', 'a', 'r', 'd', ' '] + decimal(n as nat) + title_sep(),
                None => seq![],
            };
            let pb = match self.dealer {
                Some(d) => spec_direction_name(d) + seq![' ', 'D', 'e', 'a', 'l', 's'] + title_sep(),
                None => seq![],
            };
            assert(a =~= pa);
            assert(b =~= pa + pb);
            assert(v@ =~= spec_title(self.number, self.dealer, self.vulnerable));
        }
        string_of(&v)
    }

    pub fn has_commentary(&self) -> (b: bool)
        ensures
            b == (self.commentary@.len() > 0),
    {
        self.commentary.len() > 0
    }

    /// The seat that leads to the first trick: the one after declarer.
    pub fn opening_lead_direction(&self) -> (d: Option<Direction>)
        ensures
            d == (match self.declarer {
                Some(x) => Some(spec_next(x)),
                None => None,
            }),
    {
        match self.declarer {
            Some(x) => Some(x.next()),
            None => None,
        }
    }
}

} // verus!
