//! The bidding table: where each call of an auction goes, in four columns
//! (West, North, East, South) or, for an auction in which one pair did all
//! the bidding, in two columns for that pair.

use crate::model::auction::{spec_uncontested_pair, Auction};
use crate::model::card::{spec_advance, spec_next, AnnotatedCall, Call, Direction};
use vstd::prelude::*;

verus! {

/// What a cell of the bidding table holds.
#[derive(Debug, Clone, PartialEq, Eq)]
pub enum CellText {
    /// A call with its annotation.
    Call(AnnotatedCall),
    /// The auction was four passes.
    PassedOut,
    /// Three or more passes ended the auction.
    AllPass,
}

/// A cell of the bidding table: its row (0 is the first row below the
/// header) and its column (0 is the leftmost).
#[derive(Debug, Clone, PartialEq, Eq)]
pub struct AuctionCell {
    pub row: usize,
    pub col: usize,
    pub text: CellText,
}

/// The column of a seat in the four-column table.
pub open spec fn seat_col(d: Direction) -> int {
    match d {
        Direction::West => 0,
        Direction::North => 1,
        Direction::East => 2,
        Direction::South => 3,
    }
}

pub open spec fn is_pass_call(a: AnnotatedCall) -> bool {
    a.call == Call::Pass
}

/// The auction is exactly four passes.
pub open spec fn passed_out(calls: Seq<AnnotatedCall>) -> bool {
    calls.len() == 4 && forall|k: int| 0 <= k < 4 ==> #[trigger] is_pass_call(calls[k])
}

/// The number of passes that end the first `n` calls.
pub open spec fn trailing_passes(calls: Seq<AnnotatedCall>, n: int) -> nat
    decreases n,
{
    if n <= 0 {
        0
    } else if is_pass_call(calls[n - 1]) {
        trailing_passes(calls, n - 1) + 1
    } else {
        0
    }
}

/// The closing passes are written as one "All Pass": there are three or
/// more of them and the auction is not passed out.
pub open spec fn shows_all_pass(calls: Seq<AnnotatedCall>) -> bool {
    !passed_out(calls) && trailing_passes(calls, calls.len() as int) >= 3
}

/// How many calls are written one by one: all of them, less the closing
/// passes where those are written as "Passed Out" or "All Pass".
pub open spec fn shown_calls(calls: Seq<AnnotatedCall>) -> int {
    if passed_out(calls) || shows_all_pass(calls) {
        calls.len() - trailing_passes(calls, calls.len() as int)
    } else {
        calls.len() as int
    }
}

/// The pair shown in two columns: with two columns asked for, the pair that
/// did all the bidding, if one did.
pub open spec fn table_pair(calls: Seq<AnnotatedCall>, dealer: Direction, two_col: bool) -> Option<
    (Direction, Direction),
> {
    if two_col {
        spec_uncontested_pair(calls, dealer)
    } else {
        None
    }
}

/// The rows that `filled` positions take in a table `width` columns wide
/// (a partly filled row counts).
pub open spec fn rows_used(filled: int, width: int) -> int {
    if filled % width > 0 {
        filled / width + 1
    } else {
        filled / width
    }
}

/// The cells of the first `n` calls in four columns: the call `k` goes to
/// position `seat_col(dealer) + k`, four to a row.
pub open spec fn four_col_cells(calls: Seq<AnnotatedCall>, dealer: Direction, n: int) -> Seq<
    AuctionCell,
>
    decreases n,
{
    if n <= 0 {
        seq![]
    } else {
        let p = seat_col(dealer) + (n - 1);
        four_col_cells(calls, dealer, n - 1).push(
            AuctionCell { row: (p / 4) as usize, col: (p % 4) as usize, text: CellText::Call(calls[n - 1]) },
        )
    }
}

pub open spec fn in_pair(d: Direction, pair: (Direction, Direction)) -> bool {
    d == pair.0 || d == pair.1
}

/// The number of the first `n` calls made by the pair.
pub open spec fn pair_calls(dealer: Direction, pair: (Direction, Direction), n: int) -> nat
    decreases n,
{
    if n <= 0 {
        0
    } else if in_pair(spec_advance(dealer, (n - 1) as nat), pair) {
        pair_calls(dealer, pair, n - 1) + 1
    } else {
        pair_calls(dealer, pair, n - 1)
    }
}

/// The cells of the first `n` calls in two columns: only the pair's calls,
/// the first player of the pair on the left, two to a row.
pub open spec fn two_col_cells(
    calls: Seq<AnnotatedCall>,
    dealer: Direction,
    pair: (Direction, Direction),
    n: int,
) -> Seq<AuctionCell>
    decreases n,
{
    if n <= 0 {
        seq![]
    } else {
        let prev = two_col_cells(calls, dealer, pair, n - 1);
        let seat = spec_advance(dealer, (n - 1) as nat);
        if in_pair(seat, pair) {
            prev.push(
                AuctionCell {
                    row: (pair_calls(dealer, pair, n - 1) / 2) as usize,
                    col: if seat == pair.0 {
                        0usize
                    } else {
                        1usize
                    },
                    text: CellText::Call(calls[n - 1]),
                },
            )
        } else {
            prev
        }
    }
}

/// The bidding table of an auction dealt by `dealer`:
/// - four passes give one "Passed Out" cell in the dealer's column (the
///   left column in two-column mode);
/// - otherwise the shown calls in four columns from the dealer's column, or,
///   when `two_col` is asked and one pair did all the bidding, that pair's
///   calls in two columns;
/// - three or more closing passes become "All Pass" in the left column of
///   the row after the last call.
pub open spec fn spec_auction_table(calls: Seq<AnnotatedCall>, dealer: Direction, two_col: bool) -> Seq<
    AuctionCell,
> {
    let pair = table_pair(calls, dealer, two_col);
    let n = shown_calls(calls);
    if passed_out(calls) {
        seq![
            AuctionCell {
                row: 0usize,
                col: if pair is Some {
                    0usize
                } else {
                    seat_col(dealer) as usize
                },
                text: CellText::PassedOut,
            },
        ]
    } else {
        match pair {
            Some(pr) => {
                let body = two_col_cells(calls, dealer, pr, n);
                if shows_all_pass(calls) {
                    body.push(
                        AuctionCell {
                            row: rows_used(pair_calls(dealer, pr, n) as int, 2) as usize,
                            col: 0usize,
                            text: CellText::AllPass,
                        },
                    )
                } else {
                    body
                }
            },
            None => {
                let body = four_col_cells(calls, dealer, n);
                if shows_all_pass(calls) {
                    body.push(
                        AuctionCell {
                            row: rows_used(seat_col(dealer) + n, 4) as usize,
                            col: 0usize,
                            text: CellText::AllPass,
                        },
                    )
                } else {
                    body
                }
            },
        }
    }
}

/// The seats heading the columns: the pair (West and East, or North and
/// South) in two-column mode, else West, North, East, South.
pub open spec fn spec_auction_header(pair: Option<(Direction, Direction)>) -> Seq<Direction> {
    match pair {
        Some((d1, _)) => if d1 == Direction::West || d1 == Direction::East {
            seq![Direction::West, Direction::East]
        } else {
            seq![Direction::North, Direction::South]
        },
        None => seq![Direction::West, Direction::North, Direction::East, Direction::South],
    }
}

fn copy_call(a: &AnnotatedCall) -> (r: AnnotatedCall)
    ensures
        r == *a,
{
    let annotation = match &a.annotation {
        Some(s) => Some(s.clone()),
        None => None,
    };
    AnnotatedCall { call: a.call, annotation }
}

fn is_pass(a: &AnnotatedCall) -> (b: bool)
    ensures
        b == is_pass_call(*a),
{
    match a.call {
        Call::Pass => true,
        _ => false,
    }
}

fn count_trailing_passes(calls: &Vec<AnnotatedCall>) -> (t: usize)
    ensures
        t == trailing_passes(calls@, calls@.len() as int),
        t <= calls@.len(),
{
    let mut i: usize = calls.len();
    while i > 0 && is_pass(&calls[i - 1])
        invariant
            0 <= i <= calls@.len(),
            trailing_passes(calls@, calls@.len() as int) == trailing_passes(calls@, i as int) + (
            calls@.len() - i),
        decreases i,
    {
        i = i - 1;
    }
    calls.len() - i
}

fn is_passed_out(calls: &Vec<AnnotatedCall>) -> (b: bool)
    ensures
        b == passed_out(calls@),
{
    if calls.len() != 4 {
        return false;
    }
    let mut i: usize = 0;
    while i < 4
        invariant
            calls@.len() == 4,
            0 <= i <= 4,
            forall|k: int| 0 <= k < i ==> #[trigger] is_pass_call(calls@[k]),
        decreases 4 - i,
    {
        if !is_pass(&calls[i]) {
            return false;
        }
        i = i + 1;
    }
    true
}

/// The seats heading the columns of the bidding table of `auction`.
pub fn auction_header(auction: &Auction, two_col: bool) -> (dirs: Vec<Direction>)
    ensures
        dirs@ == spec_auction_header(table_pair(auction.calls@, auction.dealer, two_col)),
{
    let pair = if two_col {
        auction.uncontested_pair()
    } else {
        None
    };
    match pair {
        Some((d1, _)) => if d1 == Direction::West || d1 == Direction::East {
            vec![Direction::West, Direction::East]
        } else {
            vec![Direction::North, Direction::South]
        },
        None => vec![Direction::West, Direction::North, Direction::East, Direction::South],
    }
}

/// The cells of the bidding table of `auction`, in the order the calls were
/// made; `two_col` asks for two columns when one pair did all the bidding.
pub fn auction_table(auction: &Auction, two_col: bool) -> (cells: Vec<AuctionCell>)
    ensures
        cells@ == spec_auction_table(auction.calls@, auction.dealer, two_col),
{
    let calls = &auction.calls;
    let dealer = auction.dealer;
    let ghost cs = calls@;
    let pair = if two_col {
        auction.uncontested_pair()
    } else {
        None
    };
    let passed = is_passed_out(calls);
    let trailing = count_trailing_passes(calls);
    let all_pass = !passed && trailing >= 3;
    let shown: usize = if passed || all_pass {
        calls.len() - trailing
    } else {
        calls.len()
    };
    let mut cells: Vec<AuctionCell> = Vec::new();
    if passed {
        let col: usize = match pair {
            Some(_) => 0,
            None => dealer.table_position(),
        };
        cells.push(AuctionCell { row: 0, col, text: CellText::PassedOut });
        proof {
            assert(cells@ =~= spec_auction_table(cs, dealer, two_col));
        }
        return cells;
    }
    match pair {
        Some((d1, d2)) => {
            let ghost pr = (d1, d2);
            let mut seat = dealer;
            let mut m: usize = 0;
            let mut i: usize = 0;
            while i < shown
                invariant
                    cs == calls@,
                    0 <= i <= shown <= calls@.len(),
                    seat == spec_advance(dealer, i as nat),
                    m == pair_calls(dealer, pr, i as int),
                    m <= i,
                    pr == (d1, d2),
                    cells@ == two_col_cells(cs, dealer, pr, i as int),
                decreases shown - i,
            {
                if seat == d1 || seat == d2 {
                    let col: usize = if seat == d1 {
                        0
                    } else {
                        1
                    };
                    let c = copy_call(&calls[i]);
                    cells.push(AuctionCell { row: m / 2, col, text: CellText::Call(c) });
                    m = m + 1;
                }
                proof {
                    assert(cells@ =~= two_col_cells(cs, dealer, pr, i + 1));
                }
                seat = seat.next();
                i = i + 1;
            }
            if all_pass {
                let row: usize = if m % 2 > 0 {
                    m / 2 + 1
                } else {
                    m / 2
                };
                cells.push(AuctionCell { row, col: 0, text: CellText::AllPass });
            }
            proof {
                assert(cells@ =~= spec_auction_table(cs, dealer, two_col));
            }
            cells
        },
        None => {
            let start = dealer.table_position();
            let mut row: usize = 0;
            let mut col: usize = start;
            let mut i: usize = 0;
            while i < shown
                invariant
                    cs == calls@,
                    0 <= i <= shown <= calls@.len(),
                    start == seat_col(dealer),
                    row == (start + i) / 4,
                    col == (start + i) % 4,
                    row <= i,
                    cells@ == four_col_cells(cs, dealer, i as int),
                decreases shown - i,
            {
                let c = copy_call(&calls[i]);
                cells.push(AuctionCell { row, col, text: CellText::Call(c) });
                proof {
                    assert(cells@ =~= four_col_cells(cs, dealer, i + 1));
                }
                col = col + 1;
                if col == 4 {
                    col = 0;
                    row = row + 1;
                }
                i = i + 1;
            }
            if all_pass {
                let r: usize = if col > 0 {
                    row + 1
                } else {
                    row
                };
                cells.push(AuctionCell { row: r, col: 0, text: CellText::AllPass });
            }
            proof {
                assert(cells@ =~= spec_auction_table(cs, dealer, two_col));
            }
            cells
        },
    }
}

} // verus!
