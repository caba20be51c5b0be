//! The escape sequences the renderer emits, and decimal formatting of the
//! numeric parameters that some of them carry.

use vstd::prelude::*;

verus! {

pub const RESET: &'static str = "\x1b[0m";
pub const BOLD: &'static str = "\x1b[1m";
pub const DIM: &'static str = "\x1b[2m";
pub const ITALIC: &'static str = "\x1b[3m";
pub const UNDERLINE: &'static str = "\x1b[4m";
pub const BLINK: &'static str = "\x1b[5m";
pub const STRIKE: &'static str = "\x1b[9m";

pub const ERASE_SCREEN: &'static str = "\x1b[2J";
pub const CUR_HOME: &'static str = "\x1b[H";
pub const CUR_SHOW: &'static str = "\x1b[?25h";

/// Control sequence introducer: every escape sequence here starts with it.
pub const CSI: &'static str = "\x1b[";

/// The character of a decimal digit.
pub open spec fn digit_char(d: nat) -> char {
    if d == 0 { '0' }
    else if d == 1 { '1' }
    else if d == 2 { '2' }
    else if d == 3 { '3' }
    else if d == 4 { '4' }
    else if d == 5 { '5' }
    else if d == 6 { '6' }
    else if d == 7 { '7' }
    else if d == 8 { '8' }
    else { '9' }
}

/// The decimal representation of `n`, without leading zeros.
pub open spec fn decimal(n: nat) -> Seq<char>
    decreases n,
{
    if n < 10 {
        seq![digit_char(n)]
    } else {
        decimal(n / 10).push(digit_char(n % 10))
    }
}

fn digit_str(d: u32) -> (r: &'static str)
    requires
        d < 10,
    ensures
        r@ == seq![digit_char(d as nat)],
{
    proof {
        reveal_strlit("0");
        reveal_strlit("1");
        reveal_strlit("2");
        reveal_strlit("3");
        reveal_strlit("4");
        reveal_strlit("5");
        reveal_strlit("6");
        reveal_strlit("7");
        reveal_strlit("8");
        reveal_strlit("9");
    }
    if d == 0 { "0" }
    else if d == 1 { "1" }
    else if d == 2 { "2" }
    else if d == 3 { "3" }
    else if d == 4 { "4" }
    else if d == 5 { "5" }
    else if d == 6 { "6" }
    else if d == 7 { "7" }
    else if d == 8 { "8" }
    else { "9" }
}

/// Appends the decimal representation of `n` to `out`.
pub fn push_decimal(out: &mut String, n: u32)
    ensures
        final(out)@ == old(out)@ + decimal(n as nat),
    decreases n,
{
    if n < 10 {
        out.append(digit_str(n));
    } else {
        push_decimal(out, n / 10);
        out.append(digit_str(n % 10));
        assert(final(out)@ =~= old(out)@ + decimal(n as nat));
    }
}

/// The decimal representation of `n` as a string.
pub fn decimal_string(n: u32) -> (r: String)
    ensures
        r@ == decimal(n as nat),
{
    let mut s = String::new();
    push_decimal(&mut s, n);
    assert(s@ =~= decimal(n as nat));
    s
}

/// Cursor-position sequence for a 1-indexed terminal cell, row before column.
pub open spec fn cursor_code(row: nat, col: nat) -> Seq<char> {
    CSI@ + decimal(row) + seq![';'] + decimal(col) + seq!['H']
}

/// Builds the cursor-position sequence for a 1-indexed `row` and `col`.
pub fn cursor_string(row: u32, col: u32) -> (r: String)
    ensures
        r@ == cursor_code(row as nat, col as nat),
{
    proof {
        reveal_strlit(";");
        reveal_strlit("H");
    }
    let mut s = String::from_str(CSI);
    push_decimal(&mut s, row);
    s.append(";");
    push_decimal(&mut s, col);
    s.append("H");
    assert(s@ =~= cursor_code(row as nat, col as nat));
    s
}

} // verus!
