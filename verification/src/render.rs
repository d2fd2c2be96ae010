//! Text renderings of the two kinds of output token: scalars as `0x`-prefixed
//! upper-case hexadecimal literals, offsets as base-10 decimal numbers.

use vstd::prelude::*;

verus! {

/// The hexadecimal digit character for `d`, upper case.
pub open spec fn hex_digit(d: nat) -> char {
    if d == 0 {
        '0'
    } else if d == 1 {
        '1'
    } else if d == 2 {
        '2'
    } else if d == 3 {
        '3'
    } else if d == 4 {
        '4'
    } else if d == 5 {
        '5'
    } else if d == 6 {
        '6'
    } else if d == 7 {
        '7'
    } else if d == 8 {
        '8'
    } else if d == 9 {
        '9'
    } else if d == 10 {
        'A'
    } else if d == 11 {
        'B'
    } else if d == 12 {
        'C'
    } else if d == 13 {
        'D'
    } else if d == 14 {
        'E'
    } else {
        'F'
    }
}

/// The hexadecimal digits of `v`, most significant first, with no leading
/// zeroes beyond the single digit that the value zero itself requires.
pub open spec fn hex_digits(v: nat) -> Seq<char>
    decreases v,
{
    if v < 16 {
        seq![hex_digit(v)]
    } else {
        hex_digits(v / 16).push(hex_digit(v % 16))
    }
}

/// The full rendering of a scalar value: `0x` followed by its hex digits.
pub open spec fn hex_text(v: nat) -> Seq<char> {
    seq!['0', 'x'] + hex_digits(v)
}

/// The decimal digit character for `d`.
pub open spec fn dec_digit(d: nat) -> char {
    if d == 0 {
        '0'
    } else if d == 1 {
        '1'
    } else if d == 2 {
        '2'
    } else if d == 3 {
        '3'
    } else if d == 4 {
        '4'
    } else if d == 5 {
        '5'
    } else if d == 6 {
        '6'
    } else if d == 7 {
        '7'
    } else if d == 8 {
        '8'
    } else {
        '9'
    }
}

/// The decimal digits of `v`, most significant first, with no leading zeroes
/// beyond the single digit that the value zero itself requires.
pub open spec fn dec_digits(v: nat) -> Seq<char>
    decreases v,
{
    if v < 10 {
        seq![dec_digit(v)]
    } else {
        dec_digits(v / 10).push(dec_digit(v % 10))
    }
}

fn hex_digit_piece(d: u64) -> (s: &'static str)
    requires
        d < 16,
    ensures
        s@.len() == 1,
        s@[0] == hex_digit(d as nat),
{
    proof {
        reveal_strlit("0");
        reveal_strlit("1");
        reveal_strlit("2");
        reveal_strlit("3");
        reveal_strlit("4");
        reveal_strlit("5");
        reveal_strlit("6");
        reveal_strlit("7");
        reveal_strlit("8");
        reveal_strlit("9");
        reveal_strlit("A");
        reveal_strlit("B");
        reveal_strlit("C");
        reveal_strlit("D");
        reveal_strlit("E");
        reveal_strlit("F");
    }
    match d {
        0 => "0",
        1 => "1",
        2 => "2",
        3 => "3",
        4 => "4",
        5 => "5",
        6 => "6",
        7 => "7",
        8 => "8",
        9 => "9",
        10 => "A",
        11 => "B",
        12 => "C",
        13 => "D",
        14 => "E",
        _ => "F",
    }
}

fn dec_digit_piece(d: u64) -> (s: &'static str)
    requires
        d < 10,
    ensures
        s@.len() == 1,
        s@[0] == dec_digit(d as nat),
{
    proof {
        reveal_strlit("0");
        reveal_strlit("1");
        reveal_strlit("2");
        reveal_strlit("3");
        reveal_strlit("4");
        reveal_strlit("5");
        reveal_strlit("6");
        reveal_strlit("7");
        reveal_strlit("8");
        reveal_strlit("9");
    }
    match d {
        0 => "0",
        1 => "1",
        2 => "2",
        3 => "3",
        4 => "4",
        5 => "5",
        6 => "6",
        7 => "7",
        8 => "8",
        _ => "9",
    }
}

fn hex_digits_exec(v: u64) -> (s: String)
    ensures
        s@ == hex_digits(v as nat),
    decreases v,
{
    if v < 16 {
        let s = String::from_str(hex_digit_piece(v));
        proof {
            assert(s@ =~= hex_digits(v as nat));
        }
        s
    } else {
        let mut s = hex_digits_exec(v / 16);
        s.append(hex_digit_piece(v % 16));
        proof {
            assert(s@ =~= hex_digits(v as nat));
        }
        s
    }
}

fn dec_digits_exec(v: u64) -> (s: String)
    ensures
        s@ == dec_digits(v as nat),
    decreases v,
{
    if v < 10 {
        let s = String::from_str(dec_digit_piece(v));
        proof {
            assert(s@ =~= dec_digits(v as nat));
        }
        s
    } else {
        let mut s = dec_digits_exec(v / 10);
        s.append(dec_digit_piece(v % 10));
        proof {
            assert(s@ =~= dec_digits(v as nat));
        }
        s
    }
}

/// Renders `v` as an unsigned hexadecimal literal, e.g. `5` becomes `0x5`.
pub fn hex_token(v: u64) -> (s: String)
    ensures
        s@ == hex_text(v as nat),
{
    proof {
        reveal_strlit("0x");
    }
    let mut s = String::from_str("0x");
    let digits = hex_digits_exec(v);
    s.append(digits.as_str());
    proof {
        assert(s@ =~= hex_text(v as nat));
    }
    s
}

/// Renders `v` as a base-10 decimal number, e.g. `16` becomes `16`.
pub fn dec_token(v: u64) -> (s: String)
    ensures
        s@ == dec_digits(v as nat),
{
    dec_digits_exec(v)
}

} // verus!
