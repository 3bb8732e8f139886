//! Rendering unsigned numbers as decimal and binary text.

use vstd::prelude::*;

verus! {

/// The digit character for one value below sixteen's first ten.
pub open spec fn digit_char(d: nat) -> char {
    if d == 0 {
        '0'
    } else if d == 1 {
        '1'
    } else if d == 2 {
        '2'
    } else if d == 3 {
        '3'
    } else if d == 4 {
        '4'
    } else if d == 5 {
        '5'
    } else if d == 6 {
        '6'
    } else if d == 7 {
        '7'
    } else if d == 8 {
        '8'
    } else {
        '9'
    }
}

/// The decimal rendering of `n`, most significant digit first, no
/// leading zeros (zero itself renders as one digit).
pub open spec fn decimal_chars(n: nat) -> Seq<char>
    decreases n,
{
    if n < 10 {
        seq![digit_char(n)]
    } else {
        decimal_chars(n / 10).push(digit_char(n % 10))
    }
}

/// The binary rendering of `n` without a prefix, most significant bit
/// first, no leading zeros (zero itself renders as one digit).
pub open spec fn binary_chars(n: nat) -> Seq<char>
    decreases n,
{
    if n < 2 {
        seq![digit_char(n)]
    } else {
        binary_chars(n / 2).push(digit_char(n % 2))
    }
}

/// The binary rendering of `n` as a literal with the `0b` prefix.
pub open spec fn binary_literal_chars(n: nat) -> Seq<char> {
    seq!['0', 'b'] + binary_chars(n)
}

/// The single-character string for one decimal digit.
fn digit_str(d: u64) -> (r: &'static str)
    requires
        d < 10,
    ensures
        r@ == seq![digit_char(d as nat)],
{
    let r: &'static str = if d == 0 {
        "0"
    } else if d == 1 {
        "1"
    } else if d == 2 {
        "2"
    } else if d == 3 {
        "3"
    } else if d == 4 {
        "4"
    } else if d == 5 {
        "5"
    } else if d == 6 {
        "6"
    } else if d == 7 {
        "7"
    } else if d == 8 {
        "8"
    } else {
        "9"
    };
    proof {
        reveal_strlit("0");
        reveal_strlit("1");
        reveal_strlit("2");
        reveal_strlit("3");
        reveal_strlit("4");
        reveal_strlit("5");
        reveal_strlit("6");
        reveal_strlit("7");
        reveal_strlit("8");
        reveal_strlit("9");
        assert(r@ =~= seq![digit_char(d as nat)]);
    }
    r
}

/// Append the decimal rendering of `n` to `out`.
fn push_decimal(out: &mut String, n: u64)
    ensures
        final(out)@ == old(out)@ + decimal_chars(n as nat),
    decreases n,
{
    if n < 10 {
        out.append(digit_str(n));
        proof {
            assert(out@ =~= old(out)@ + decimal_chars(n as nat));
        }
    } else {
        push_decimal(out, n / 10);
        out.append(digit_str(n % 10));
        proof {
            assert(out@ =~= old(out)@ + decimal_chars(n as nat));
        }
    }
}

/// Append the binary rendering of `n` (no prefix) to `out`.
fn push_binary(out: &mut String, n: u64)
    ensures
        final(out)@ == old(out)@ + binary_chars(n as nat),
    decreases n,
{
    if n < 2 {
        out.append(digit_str(n));
        proof {
            assert(out@ =~= old(out)@ + binary_chars(n as nat));
        }
    } else {
        push_binary(out, n / 2);
        out.append(digit_str(n % 2));
        proof {
            assert(out@ =~= old(out)@ + binary_chars(n as nat));
        }
    }
}

/// The decimal rendering of `n` as a fresh string.
pub fn decimal_string(n: u64) -> (r: String)
    ensures
        r@ == decimal_chars(n as nat),
{
    let mut r = String::new();
    push_decimal(&mut r, n);
    proof {
        assert(r@ =~= decimal_chars(n as nat));
    }
    r
}

/// The binary rendering of `n` as a literal with the `0b` prefix.
pub fn binary_literal_string(n: u64) -> (r: String)
    ensures
        r@ == binary_literal_chars(n as nat),
{
    let mut r = String::new();
    r.append("0b");
    proof {
        reveal_strlit("0b");
        assert(r@ =~= seq!['0', 'b']);
    }
    push_binary(&mut r, n);
    proof {
        assert(r@ =~= binary_literal_chars(n as nat));
    }
    r
}

} // verus!
