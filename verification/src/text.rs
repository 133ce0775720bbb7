//! Building display text from integers.

use vstd::prelude::*;

verus! {

/// The character that stands for one decimal digit.
pub open spec fn digit_char(d: int) -> char {
    if d == 0 {
        '0'
    } else if d == 1 {
        '1'
    } else if d == 2 {
        '2'
    } else if d == 3 {
        '3'
    } else if d == 4 {
        '4'
    } else if d == 5 {
        '5'
    } else if d == 6 {
        '6'
    } else if d == 7 {
        '7'
    } else if d == 8 {
        '8'
    } else {
        '9'
    }
}

/// The decimal digits of a natural number, most significant first, without
/// leading zeros (zero itself is the single digit `0`).
pub open spec fn dec_digits(n: nat) -> Seq<char>
    decreases n,
{
    if n < 10 {
        seq![digit_char(n as int)]
    } else {
        dec_digits(n / 10).push(digit_char((n % 10) as int))
    }
}

/// The decimal text of an integer: a minus sign for negative numbers, then
/// the digits of the magnitude.
pub open spec fn dec_text(n: int) -> Seq<char> {
    if n < 0 {
        seq!['-'] + dec_digits((-n) as nat)
    } else {
        dec_digits(n as nat)
    }
}

/// The one-character string for a decimal digit.
fn digit_str(d: u8) -> (s: &'static str)
    requires
        d < 10,
    ensures
        s@ == seq![digit_char(d as int)],
{
    proof {
        reveal_strlit("0");
        reveal_strlit("1");
        reveal_strlit("2");
        reveal_strlit("3");
        reveal_strlit("4");
        reveal_strlit("5");
        reveal_strlit("6");
        reveal_strlit("7");
        reveal_strlit("8");
        reveal_strlit("9");
    }
    let s = match d {
        0 => "0",
        1 => "1",
        2 => "2",
        3 => "3",
        4 => "4",
        5 => "5",
        6 => "6",
        7 => "7",
        8 => "8",
        _ => "9",
    };
    assert(s@ =~= seq![digit_char(d as int)]);
    s
}

/// Appends the decimal digits of `n` to `out`.
pub fn push_digits(out: &mut String, n: u128)
    ensures
        final(out)@ == old(out)@ + dec_digits(n as nat),
    decreases n,
{
    if n >= 10 {
        push_digits(out, n / 10);
    }
    out.append(digit_str((n % 10) as u8));
    assert(final(out)@ =~= old(out)@ + dec_digits(n as nat));
}

/// Appends the decimal text of `n` to `out`.
pub fn push_decimal(out: &mut String, n: i64)
    ensures
        final(out)@ == old(out)@ + dec_text(n as int),
{
    if n < 0 {
        proof {
            reveal_strlit("-");
        }
        out.append("-");
        let magnitude: u128 = (-(n as i128)) as u128;
        push_digits(out, magnitude);
        assert(final(out)@ =~= old(out)@ + dec_text(n as int));
    } else {
        push_digits(out, n as u128);
    }
}

/// The display text of a floor tag: `F` and the number for floors one to
/// ten, `C` for every other tag.
pub open spec fn floor_text(floor: int) -> Seq<char> {
    if 1 <= floor <= 10 {
        seq!['F'] + dec_digits(floor as nat)
    } else {
        seq!['C']
    }
}

/// Renders the floor tag of a match for display.
pub fn stringify_floor(floor: i64) -> (res: String)
    ensures
        res@ == floor_text(floor as int),
{
    let mut res = String::new();
    if 1 <= floor && floor <= 10 {
        proof {
            reveal_strlit("F");
        }
        res.append("F");
        push_digits(&mut res, floor as u128);
        assert(res@ =~= floor_text(floor as int));
    } else {
        proof {
            reveal_strlit("C");
        }
        res.append("C");
        assert(res@ =~= floor_text(floor as int));
    }
    res
}

/// The two-place text of a number: a leading zero before a single digit,
/// the decimal text otherwise. A minus sign counts as a place.
pub open spec fn two_place_text(n: int) -> Seq<char> {
    if 0 <= n < 10 {
        seq!['0'] + dec_digits(n as nat)
    } else {
        dec_text(n)
    }
}

/// Appends the two-place text of `n` to `out`.
pub fn push_two_places(out: &mut String, n: i64)
    ensures
        final(out)@ == old(out)@ + two_place_text(n as int),
{
    if 0 <= n && n < 10 {
        proof {
            reveal_strlit("0");
        }
        out.append("0");
        push_digits(out, n as u128);
        assert(final(out)@ =~= old(out)@ + two_place_text(n as int));
    } else {
        push_decimal(out, n);
    }
}

/// The character that stands for one hexadecimal digit, in upper case.
pub open spec fn hex_char(d: int) -> char {
    if d < 10 {
        digit_char(d)
    } else if d == 10 {
        'A'
    } else if d == 11 {
        'B'
    } else if d == 12 {
        'C'
    } else if d == 13 {
        'D'
    } else if d == 14 {
        'E'
    } else {
        'F'
    }
}

/// The hexadecimal digits of a natural number in upper case, most
/// significant first, without leading zeros.
pub open spec fn hex_digits(n: nat) -> Seq<char>
    decreases n,
{
    if n < 16 {
        seq![hex_char(n as int)]
    } else {
        hex_digits(n / 16).push(hex_char((n % 16) as int))
    }
}

/// The text of a 64-bit identifier: the hexadecimal digits of its bits
/// read as an unsigned number.
pub open spec fn hex_id_text(id: int) -> Seq<char> {
    if id >= 0 {
        hex_digits(id as nat)
    } else {
        hex_digits((id + 0x1_0000_0000_0000_0000) as nat)
    }
}

/// The one-character string for a hexadecimal digit.
fn hex_str(d: u8) -> (s: &'static str)
    requires
        d < 16,
    ensures
        s@ == seq![hex_char(d as int)],
{
    if d < 10 {
        digit_str(d)
    } else {
        proof {
            reveal_strlit("A");
            reveal_strlit("B");
            reveal_strlit("C");
            reveal_strlit("D");
            reveal_strlit("E");
            reveal_strlit("F");
        }
        let s = match d {
            10 => "A",
            11 => "B",
            12 => "C",
            13 => "D",
            14 => "E",
            _ => "F",
        };
        assert(s@ =~= seq![hex_char(d as int)]);
        s
    }
}

/// Appends the hexadecimal digits of `n` to `out`.
pub fn push_hex(out: &mut String, n: u64)
    ensures
        final(out)@ == old(out)@ + hex_digits(n as nat),
    decreases n,
{
    if n >= 16 {
        push_hex(out, n / 16);
    }
    out.append(hex_str((n % 16) as u8));
    assert(final(out)@ =~= old(out)@ + hex_digits(n as nat));
}

/// The text of a player's identifier.
pub fn hex_id(id: i64) -> (res: String)
    ensures
        res@ == hex_id_text(id as int),
{
    let mut res = String::new();
    let bits: u64 = if id >= 0 {
        id as u64
    } else {
        (id as i128 + 0x1_0000_0000_0000_0000) as u64
    };
    push_hex(&mut res, bits);
    assert(res@ =~= hex_id_text(id as int));
    res
}

/// The number of tenths nearest to a count of millionths, halves away
/// from zero.
pub open spec fn tenths_of(value: int) -> int {
    crate::fixed::round_div(value, 100_000)
}

/// The text of a count of millionths with its sign and one decimal place:
/// plus for a number that rounds to zero or more.
pub open spec fn signed_tenths_text(value: int) -> Seq<char> {
    let tenths = tenths_of(value);
    let magnitude = if tenths < 0 {
        -tenths
    } else {
        tenths
    };
    seq![if tenths < 0 {
        '-'
    } else {
        '+'
    }] + dec_digits((magnitude / 10) as nat) + seq!['.'] + dec_digits((magnitude % 10) as nat)
}

/// Appends the signed text with one decimal place of `value` millionths.
pub fn push_signed_tenths(out: &mut String, value: i128)
    requires
        -crate::fixed::WIDE_LIMIT <= value <= crate::fixed::WIDE_LIMIT,
    ensures
        final(out)@ == old(out)@ + signed_tenths_text(value as int),
{
    let tenths = crate::fixed::div_round(value, 100_000);
    proof {
        crate::fixed::lemma_round_div_error(value as int, 100_000);
        reveal_strlit("-");
        reveal_strlit("+");
        reveal_strlit(".");
    }
    let magnitude: u128 = if tenths < 0 {
        out.append("-");
        (-tenths) as u128
    } else {
        out.append("+");
        tenths as u128
    };
    push_digits(out, magnitude / 10);
    out.append(".");
    push_digits(out, magnitude % 10);
    assert(final(out)@ =~= old(out)@ + signed_tenths_text(value as int));
}

/// The signed text with one decimal place of `value` millionths.
pub fn signed_tenths(value: i64) -> (res: String)
    ensures
        res@ == signed_tenths_text(value as int),
{
    let mut res = String::new();
    push_signed_tenths(&mut res, value as i128);
    assert(res@ =~= signed_tenths_text(value as int));
    res
}

} // verus!
