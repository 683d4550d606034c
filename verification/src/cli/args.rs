//! Command-line settings and the board range option.

use crate::text::{
    chars_of, decimal, parse_u32_range, push_decimal, split_char, split_on, string_of, sub_chars,
    trim, trim_bounds, u32_parse, views,
};
use vstd::prelude::*;

verus! {

/// Paper sizes.
#[derive(Debug, Clone, Copy, PartialEq, Eq, Structural)]
pub enum PageSize {
    Letter,
    A4,
    Legal,
}

/// Page orientations.
#[derive(Debug, Clone, Copy, PartialEq, Eq, Structural)]
pub enum Orientation {
    Portrait,
    Landscape,
}

/// Document layouts.
#[derive(Debug, Clone, Copy, PartialEq, Eq, Structural)]
pub enum Layout {
    /// Hand diagram, bidding and commentary.
    Analysis,
    /// Sheets for bidding practice.
    BiddingSheets,
}

impl Default for Layout {
    fn default() -> (l: Layout)
        ensures
            l == Layout::Analysis,
    {
        Layout::Analysis
    }
}

/// The command-line settings.
#[derive(Debug, Clone)]
pub struct Args {
    /// The PBN file to read.
    pub input: String,
    /// The PDF file to write; by default the input with the extension `pdf`.
    pub output: Option<String>,
    /// Boards per page (1, 2 or 4).
    pub boards_per_page: u8,
    pub page_size: PageSize,
    pub orientation: Orientation,
    pub layout: Layout,
    pub no_bidding: bool,
    pub no_play: bool,
    pub no_commentary: bool,
    pub no_hcp: bool,
    /// The boards to include, such as `1-16` or `5,8,12`.
    pub boards: Option<String>,
    /// How much is logged.
    pub verbose: u8,
}

/// What `Path::with_extension` gives for the path `path` and the extension `ext`.
pub uninterp spec fn spec_with_extension(path: Seq<char>, ext: Seq<char>) -> Seq<char>;

/// Calls `std::path::Path::with_extension`: the path with the extension of
/// its file name replaced by (or extended with) `ext`. Its result is named
/// and not spelled out. The call panics when `ext` holds a path separator,
/// so `ext` holds neither `/` nor `\\`.
#[verifier::external_body]
fn with_extension(path: &str, ext: &str) -> (r: String)
    requires
        forall|i: int| 0 <= i < ext@.len() ==> ext@[i] != '/' && ext@[i] != '\\',
    ensures
        r@ == spec_with_extension(path@, ext@),
{
    std::path::Path::new(path).with_extension(ext).to_string_lossy().into_owned()
}

impl Args {
    /// The output path: the one given, or the input with the extension `pdf`.
    pub fn output_path(&self) -> (p: String)
        ensures
            p@ == (match self.output {
                Some(o) => o@,
                None => spec_with_extension(self.input@, "pdf"@),
            }),
    {
        match &self.output {
            Some(o) => o.clone(),
            None => {
                proof {
                    reveal_strlit("pdf");
                }
                with_extension(self.input.as_str(), "pdf")
            },
        }
    }

    pub fn show_bidding(&self) -> (b: bool)
        ensures
            b == !self.no_bidding,
    {
        !self.no_bidding
    }

    pub fn show_play(&self) -> (b: bool)
        ensures
            b == !self.no_play,
    {
        !self.no_play
    }

    pub fn show_commentary(&self) -> (b: bool)
        ensures
            b == !self.no_commentary,
    {
        !self.no_commentary
    }

    pub fn show_hcp(&self) -> (b: bool)
        ensures
            b == !self.no_hcp,
    {
        !self.no_hcp
    }
}

/// The numbers `a`, `a + 1`, ..., `b`.
pub open spec fn span_of(a: u32, b: u32) -> Seq<u32> {
    Seq::new((b - a + 1) as nat, |k: int| (a + k) as u32)
}

/// The boards that one part of a board range (trimmed) names: a number, or
/// two numbers joined by `-`.
pub open spec fn range_part(part: Seq<char>) -> Result<Seq<u32>, Seq<char>> {
    if part.contains('-') {
        let ps = split_on(part, '-');
        if ps.len() != 2 {
            Err("Invalid range: "@ + part)
        } else {
            match u32_parse(trim(ps[0])) {
                None => Err("Invalid number: "@ + ps[0]),
                Some(a) => match u32_parse(trim(ps[1])) {
                    None => Err("Invalid number: "@ + ps[1]),
                    Some(b) => if a > b {
                        Err("Invalid range: "@ + decimal(a as nat) + " > "@ + decimal(b as nat))
                    } else {
                        Ok(span_of(a, b))
                    },
                },
            }
        }
    } else {
        match u32_parse(part) {
            Some(n) => Ok(seq![n]),
            None => Err("Invalid number: "@ + part),
        }
    }
}

/// The boards that the comma-separated parts `parts[i..]` name, after `acc`;
/// the first part in error gives the error.
pub open spec fn range_from(parts: Seq<Seq<char>>, i: int, acc: Seq<u32>) -> Result<Seq<u32>, Seq<char>>
    decreases parts.len() - i,
{
    if i < 0 || i >= parts.len() {
        Ok(acc)
    } else {
        match range_part(trim(parts[i])) {
            Err(e) => Err(e),
            Ok(ns) => range_from(parts, i + 1, acc + ns),
        }
    }
}

/// The boards that a board range such as `1-3, 7, 10-12` names, in order.
pub open spec fn spec_board_range(spec: Seq<char>) -> Result<Seq<u32>, Seq<char>> {
    range_from(split_on(spec, ','), 0, seq![])
}

proof fn lemma_decimal_plain(n: u32)
    ensures
        u32_parse(decimal(n as nat)) == Some(n),
        trim(decimal(n as nat)) == decimal(n as nat),
        forall|j: int|
            0 <= j < decimal(n as nat).len() ==> #[trigger] decimal(n as nat)[j] != '-'
                && decimal(n as nat)[j] != ',',
{
    let d = decimal(n as nat);
    crate::text::law_decimal_roundtrip(n);
    crate::text::lemma_decimal_digits(n as nat);
    assert(crate::text::is_digit(d[0]));
    assert(crate::text::is_digit(d[d.len() - 1]));
    crate::text::lemma_trim_unchanged(d);
    assert forall|j: int| 0 <= j < d.len() implies #[trigger] d[j] != '-' && d[j] != ',' by {
        assert(crate::text::is_digit(d[j]));
    }
}

/// A board number written in digits names that board alone.
pub proof fn law_board_range_single(n: u32)
    ensures
        spec_board_range(decimal(n as nat)) == Ok::<Seq<u32>, Seq<char>>(seq![n]),
{
    let d = decimal(n as nat);
    lemma_decimal_plain(n);
    crate::text::lemma_split_none(d, ',');
    assert(!d.contains('-'));
    let parts = split_on(d, ',');
    assert(parts[0] == d);
    assert(range_part(trim(d)) == Ok::<Seq<u32>, Seq<char>>(seq![n]));
    assert(Seq::<u32>::empty() + seq![n] =~= seq![n]);
    assert(range_from(parts, 1, seq![n]) == Ok::<Seq<u32>, Seq<char>>(seq![n]));
    assert(range_from(parts, 0, seq![]) == range_from(parts, 1, Seq::<u32>::empty() + seq![n]));
}

/// A range written `a-b` with `a <= b` names the boards `a` to `b`, in order.
pub proof fn law_board_range_span(a: u32, b: u32)
    requires
        a <= b,
    ensures
        spec_board_range(decimal(a as nat) + seq!['-'] + decimal(b as nat)) == Ok::<
            Seq<u32>,
            Seq<char>,
        >(span_of(a, b)),
{
    let da = decimal(a as nat);
    let db = decimal(b as nat);
    let s = da + seq!['-'] + db;
    lemma_decimal_plain(a);
    lemma_decimal_plain(b);
    crate::text::lemma_decimal_digits(a as nat);
    crate::text::lemma_decimal_digits(b as nat);
    assert forall|j: int| 0 <= j < s.len() implies #[trigger] s[j] != ',' by {
        if j < da.len() {
            assert(s[j] == da[j]);
        } else if j > da.len() {
            assert(s[j] == db[j - da.len() - 1]);
        }
    }
    crate::text::lemma_split_none(s, ',');
    assert(s[da.len() as int] == '-');
    assert(s.contains('-'));
    assert(crate::text::is_digit(da[0]));
    assert(crate::text::is_digit(db[db.len() - 1]));
    assert(s[0] == da[0]);
    assert(s[s.len() - 1] == db[db.len() - 1]);
    crate::text::lemma_trim_unchanged(s);
    crate::text::lemma_split_two(da, db, '-');
    let parts = split_on(s, ',');
    assert(parts[0] == s);
    assert(range_part(trim(s)) == Ok::<Seq<u32>, Seq<char>>(span_of(a, b)));
    assert(Seq::<u32>::empty() + span_of(a, b) =~= span_of(a, b));
    assert(range_from(parts, 1, span_of(a, b)) == Ok::<Seq<u32>, Seq<char>>(span_of(a, b)));
    assert(range_from(parts, 0, seq![]) == range_from(parts, 1, Seq::<u32>::empty() + span_of(a, b)));
}

/// Appends the characters of `t` to `out`.
fn push_chars(out: &mut Vec<char>, t: &Vec<char>)
    ensures
        final(out)@ == old(out)@ + t@,
{
    let ghost start = out@;
    let mut i: usize = 0;
    while i < t.len()
        invariant
            0 <= i <= t@.len(),
            out@ == start + t@.take(i as int),
        decreases t@.len() - i,
    {
        out.push(t[i]);
        proof {
            assert(t@.take(i + 1) =~= t@.take(i as int).push(t@[i as int]));
        }
        i = i + 1;
    }
    proof {
        assert(t@.take(t@.len() as int) =~= t@);
    }
}

/// The message `lead` followed by the characters `t`.
fn message(lead: &str, t: &Vec<char>) -> (s: String)
    ensures
        s@ == lead@ + t@,
{
    let mut v = chars_of(lead);
    push_chars(&mut v, t);
    string_of(v.as_slice())
}

fn parse_number(t: &Vec<char>) -> (r: Option<u32>)
    ensures
        r == u32_parse(trim(t@)),
{
    let (a, b) = trim_bounds(t, 0, t.len());
    proof {
        assert(t@.subrange(0, t@.len() as int) =~= t@);
    }
    parse_u32_range(t, a, b)
}

/// Adds the boards of one trimmed part to `boards`.
fn range_part_exec(part: &Vec<char>, boards: &mut Vec<u32>) -> (r: Result<(), String>)
    ensures
        match range_part(part@) {
            Ok(ns) => r is Ok && final(boards)@ == old(boards)@ + ns,
            Err(e) => r matches Err(m) && m@ == e,
        },
{
    let mut has_dash = false;
    let mut k: usize = 0;
    while k < part.len()
        invariant
            0 <= k <= part@.len(),
            has_dash == (exists|j: int| 0 <= j < k && part@[j] == '-'),
        decreases part@.len() - k,
    {
        if part[k] == '-' {
            has_dash = true;
        }
        k = k + 1;
    }
    proof {
        if has_dash {
            let j = choose|j: int| 0 <= j < part@.len() && part@[j] == '-';
            assert(part@.contains('-'));
        } else {
            assert(!part@.contains('-'));
        }
    }
    if has_dash {
        let ps = split_char(part, '-');
        proof {
            assert(views(ps@).len() == ps@.len());
        }
        if ps.len() != 2 {
            return Err(message("Invalid range: ", part));
        }
        proof {
            assert(views(ps@)[0] == ps@[0]@);
            assert(views(ps@)[1] == ps@[1]@);
        }
        let a = match parse_number(&ps[0]) {
            Some(a) => a,
            None => return Err(message("Invalid number: ", &ps[0])),
        };
        let b = match parse_number(&ps[1]) {
            Some(b) => b,
            None => return Err(message("Invalid number: ", &ps[1])),
        };
        if a > b {
            let mut v = chars_of("Invalid range: ");
            push_decimal(&mut v, a as u64);
            let gt = chars_of(" > ");
            push_chars(&mut v, &gt);
            push_decimal(&mut v, b as u64);
            proof {
                assert(v@ =~= "Invalid range: "@ + decimal(a as nat) + " > "@ + decimal(b as nat));
            }
            return Err(string_of(v.as_slice()));
        }
        let ghost start = boards@;
        let mut i: u64 = a as u64;
        while i <= b as u64
            invariant
                a <= b,
                a <= i <= b as u64 + 1,
                boards@ == start + span_of(a, b).take(i - a),
            decreases b as u64 + 1 - i,
        {
            let ghost before = boards@;
            boards.push(i as u32);
            proof {
                assert(span_of(a, b).take(i + 1 - a) =~= span_of(a, b).take(i - a).push(i as u32));
            }
            i = i + 1;
        }
        proof {
            assert(span_of(a, b).take(b + 1 - a) =~= span_of(a, b));
        }
        Ok(())
    } else {
        proof {
            assert(part@.subrange(0, part@.len() as int) =~= part@);
        }
        match parse_u32_range(part, 0, part.len()) {
            Some(n) => {
                boards.push(n);
                proof {
                    assert(boards@ =~= old(boards)@ + seq![n]);
                }
                Ok(())
            },
            None => Err(message("Invalid number: ", part)),
        }
    }
}

/// Parses a board range such as `1-3, 7, 10-12`: comma-separated numbers
/// and ranges, each range giving all the numbers from its first to its last.
pub fn parse_board_range(spec: &str) -> (r: Result<Vec<u32>, String>)
    ensures
        match spec_board_range(spec@) {
            Ok(ns) => r matches Ok(v) && v@ == ns,
            Err(e) => r matches Err(m) && m@ == e,
        },
{
    let v = chars_of(spec);
    let parts = split_char(&v, ',');
    let ghost ps = views(parts@);
    let mut boards: Vec<u32> = Vec::new();
    let mut i: usize = 0;
    while i < parts.len()
        invariant
            0 <= i <= parts@.len(),
            ps == views(parts@),
            ps == split_on(spec@, ','),
            spec_board_range(spec@) == range_from(ps, i as int, boards@),
        decreases parts@.len() - i,
    {
        let p = &parts[i];
        proof {
            assert(ps[i as int] == p@);
            assert(p@.subrange(0, p@.len() as int) =~= p@);
        }
        let (a, b) = trim_bounds(p, 0, p.len());
        let part = sub_chars(p, a, b);
        match range_part_exec(&part, &mut boards) {
            Ok(()) => {},
            Err(e) => return Err(e),
        }
        i = i + 1;
    }
    Ok(boards)
}

} // verus!
