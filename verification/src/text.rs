//! Building decimal digit strings, with the result pinned down character by
//! character. Used for SRTM tile basenames and PROJ projection strings.

use vstd::prelude::*;
use vstd::string::StringExecFns;

verus! {

/// The decimal digit character for a value in `[0, 9]`.
pub open spec fn dec_digit(d: int) -> char {
    if d == 0 {
        '0'
    } else if d == 1 {
        '1'
    } else if d == 2 {
        '2'
    } else if d == 3 {
        '3'
    } else if d == 4 {
        '4'
    } else if d == 5 {
        '5'
    } else if d == 6 {
        '6'
    } else if d == 7 {
        '7'
    } else if d == 8 {
        '8'
    } else {
        '9'
    }
}

/// Two decimal digits, zero padded, for a value in `[0, 99]`.
pub open spec fn dec2_seq(n: int) -> Seq<char> {
    seq![dec_digit(n / 10), dec_digit(n % 10)]
}

/// Three decimal digits, zero padded, for a value in `[0, 999]`.
pub open spec fn dec3_seq(n: int) -> Seq<char> {
    seq![dec_digit(n / 100), dec_digit((n / 10) % 10), dec_digit(n % 10)]
}

/// One or two decimal digits, no padding, for a value in `[0, 99]`.
pub open spec fn dec_nopad_seq(n: int) -> Seq<char> {
    if n < 10 {
        seq![dec_digit(n)]
    } else {
        dec2_seq(n)
    }
}

/// The one-character string for a decimal digit.
pub fn digit_str(d: u8) -> (r: &'static str)
    requires
        d < 10,
    ensures
        r@ == seq![dec_digit(d as int)],
{
    proof {
        reveal_strlit("0");
        reveal_strlit("1");
        reveal_strlit("2");
        reveal_strlit("3");
        reveal_strlit("4");
        reveal_strlit("5");
        reveal_strlit("6");
        reveal_strlit("7");
        reveal_strlit("8");
        reveal_strlit("9");
        assert(("0")@ =~= seq![dec_digit(0)]);
        assert(("1")@ =~= seq![dec_digit(1)]);
        assert(("2")@ =~= seq![dec_digit(2)]);
        assert(("3")@ =~= seq![dec_digit(3)]);
        assert(("4")@ =~= seq![dec_digit(4)]);
        assert(("5")@ =~= seq![dec_digit(5)]);
        assert(("6")@ =~= seq![dec_digit(6)]);
        assert(("7")@ =~= seq![dec_digit(7)]);
        assert(("8")@ =~= seq![dec_digit(8)]);
        assert(("9")@ =~= seq![dec_digit(9)]);
    }
    match d {
        0 => "0",
        1 => "1",
        2 => "2",
        3 => "3",
        4 => "4",
        5 => "5",
        6 => "6",
        7 => "7",
        8 => "8",
        _ => "9",
    }
}

/// Appends the zero-padded two-digit decimal form of `n`.
pub fn append_dec2(s: &mut String, n: u8)
    requires
        n <= 99,
    ensures
        final(s)@ == old(s)@ + dec2_seq(n as int),
{
    s.append(digit_str(n / 10));
    s.append(digit_str(n % 10));
    proof {
        assert(s@ =~= old(s)@ + dec2_seq(n as int));
    }
}

/// Appends the zero-padded three-digit decimal form of `n`.
pub fn append_dec3(s: &mut String, n: u16)
    requires
        n <= 999,
    ensures
        final(s)@ == old(s)@ + dec3_seq(n as int),
{
    s.append(digit_str((n / 100) as u8));
    s.append(digit_str(((n / 10) % 10) as u8));
    s.append(digit_str((n % 10) as u8));
    proof {
        assert(s@ =~= old(s)@ + dec3_seq(n as int));
    }
}

/// Appends the unpadded decimal form of `n`, for `n` up to two digits.
pub fn append_dec_nopad(s: &mut String, n: u8)
    requires
        n <= 99,
    ensures
        final(s)@ == old(s)@ + dec_nopad_seq(n as int),
{
    if n < 10 {
        s.append(digit_str(n));
        proof {
            assert(s@ =~= old(s)@ + dec_nopad_seq(n as int));
        }
    } else {
        append_dec2(s, n);
    }
}

} // verus!
