use vstd::prelude::*;
use vstd::string::StringExecFns;

use crate::color::{Color, CompositedCell};

verus! {

/// The character of a decimal digit.
pub open spec fn digit_char(d: nat) -> char {
    if d == 0 {
        '0'
    } else if d == 1 {
        '1'
    } else if d == 2 {
        '2'
    } else if d == 3 {
        '3'
    } else if d == 4 {
        '4'
    } else if d == 5 {
        '5'
    } else if d == 6 {
        '6'
    } else if d == 7 {
        '7'
    } else if d == 8 {
        '8'
    } else {
        '9'
    }
}

/// The decimal notation of a natural number, without leading zeros.
pub open spec fn decimal(n: nat) -> Seq<char>
    decreases n,
{
    if n < 10 {
        seq![digit_char(n)]
    } else {
        decimal(n / 10).push(digit_char(n % 10))
    }
}

/// The three channels of a color in decimal, separated by `;`.
pub open spec fn rgb_text(c: Color) -> Seq<char> {
    decimal(c.r as nat) + seq![';'] + decimal(c.g as nat) + seq![';'] + decimal(c.b as nat)
}

/// The update of one terminal cell at 0-indexed `row` and `col`: a cursor move
/// to the 1-indexed position, a 24-bit background color set to the top color,
/// a 24-bit foreground color set to the bottom color, and the lower half-block
/// glyph.
pub open spec fn cell_text(row: nat, col: nat, cell: CompositedCell) -> Seq<char> {
    seq!['\x1b', '['] + decimal(row + 1) + seq![';'] + decimal(col + 1) + seq!['H']
        + seq!['\x1b', '[', '4', '8', ';', '2', ';'] + rgb_text(cell.top_color) + seq!['m']
        + seq!['\x1b', '[', '3', '8', ';', '2', ';'] + rgb_text(cell.bottom_color) + seq!['m']
        + seq!['\u{2584}']
}

/// The update for the first `n` cells of a grid `width` cells wide, laid out
/// row by row: the text of each cell of `cur` that differs from the same cell
/// of `prev`, in order.
pub open spec fn diff_text(
    prev: Seq<CompositedCell>,
    cur: Seq<CompositedCell>,
    width: nat,
    n: nat,
) -> Seq<char>
    decreases n,
{
    if n == 0 {
        Seq::empty()
    } else {
        let i = (n - 1) as nat;
        diff_text(prev, cur, width, i) + if cur[i as int] != prev[i as int] {
            cell_text(i / width, i % width, cur[i as int])
        } else {
            Seq::empty()
        }
    }
}

/// The update that redraws each of the first `n` cells of `cells`, in order.
pub open spec fn full_text(cells: Seq<CompositedCell>, width: nat, n: nat) -> Seq<char>
    decreases n,
{
    if n == 0 {
        Seq::empty()
    } else {
        let i = (n - 1) as nat;
        full_text(cells, width, i) + cell_text(i / width, i % width, cells[i as int])
    }
}

fn digit_str(d: usize) -> (s: &'static str)
    requires
        d < 10,
    ensures
        s@ == seq![digit_char(d as nat)],
{
    if d == 0 {
        proof { reveal_strlit("0"); }
        "0"
    } else if d == 1 {
        proof { reveal_strlit("1"); }
        "1"
    } else if d == 2 {
        proof { reveal_strlit("2"); }
        "2"
    } else if d == 3 {
        proof { reveal_strlit("3"); }
        "3"
    } else if d == 4 {
        proof { reveal_strlit("4"); }
        "4"
    } else if d == 5 {
        proof { reveal_strlit("5"); }
        "5"
    } else if d == 6 {
        proof { reveal_strlit("6"); }
        "6"
    } else if d == 7 {
        proof { reveal_strlit("7"); }
        "7"
    } else if d == 8 {
        proof { reveal_strlit("8"); }
        "8"
    } else {
        proof { reveal_strlit("9"); }
        "9"
    }
}

/// Appends the decimal notation of `n`.
pub fn push_decimal(out: &mut String, n: usize)
    ensures
        final(out)@ == old(out)@ + decimal(n as nat),
    decreases n,
{
    if n >= 10 {
        push_decimal(out, n / 10);
    }
    let s = digit_str(n % 10);
    out.append(s);
    proof {
        if n >= 10 {
            assert(decimal(n as nat) == decimal((n / 10) as nat) + seq![digit_char((n % 10) as nat)]);
        }
    }
}

} // verus!

verus! {

fn push_rgb(out: &mut String, c: Color)
    ensures
        final(out)@ == old(out)@ + rgb_text(c),
{
    proof { reveal_strlit(";"); }
    push_decimal(out, c.r as usize);
    out.append(";");
    push_decimal(out, c.g as usize);
    out.append(";");
    push_decimal(out, c.b as usize);
    assert(final(out)@ =~= old(out)@ + rgb_text(c));
}

/// Appends the update of the cell at 0-indexed `row` and `col`.
pub fn push_cell_text(out: &mut String, row: usize, col: usize, cell: CompositedCell)
    requires
        row < usize::MAX,
        col < usize::MAX,
    ensures
        final(out)@ == old(out)@ + cell_text(row as nat, col as nat, cell),
{
    proof {
        reveal_strlit("\x1b[");
        reveal_strlit(";");
        reveal_strlit("H\x1b[48;2;");
        reveal_strlit("m\x1b[38;2;");
        reveal_strlit("m\u{2584}");
    }
    out.append("\x1b[");
    push_decimal(out, row + 1);
    out.append(";");
    push_decimal(out, col + 1);
    out.append("H\x1b[48;2;");
    push_rgb(out, cell.top_color);
    out.append("m\x1b[38;2;");
    push_rgb(out, cell.bottom_color);
    out.append("m\u{2584}");
    assert(final(out)@ =~= old(out)@ + cell_text(row as nat, col as nat, cell));
}

} // verus!
