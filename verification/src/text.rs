//! Rendering of numbers as text, with the digits stated mathematically.

use vstd::arithmetic::div_mod::lemma_div_denominator;
use vstd::arithmetic::power::{lemma_pow_positive, pow};
use vstd::prelude::*;

verus! {

/// The decimal (or upper-case hexadecimal) digit for `d`.
pub open spec fn digit_char(d: nat) -> char {
    if d < 10 {
        (48 + d) as char
    } else {
        (55 + d) as char
    }
}

/// `n` in decimal, without leading zeros.
pub open spec fn decimal(n: nat) -> Seq<char>
    decreases n,
{
    if n < 10 {
        seq![digit_char(n)]
    } else {
        decimal(n / 10).push(digit_char(n % 10))
    }
}

/// `n` in decimal, with a leading minus sign when it is negative.
pub open spec fn signed_decimal(n: int) -> Seq<char> {
    if n < 0 {
        "-"@ + decimal((-n) as nat)
    } else {
        decimal(n as nat)
    }
}

/// `b` as two upper-case hexadecimal digits.
pub open spec fn hex_byte(b: u8) -> Seq<char> {
    seq![digit_char(b as nat / 16), digit_char(b as nat % 16)]
}

/// Every byte of `bytes` as two upper-case hexadecimal digits, in order.
pub open spec fn hex_bytes(bytes: Seq<u8>) -> Seq<char>
    decreases bytes.len(),
{
    if bytes.len() == 0 {
        Seq::empty()
    } else {
        hex_bytes(bytes.drop_last()) + hex_byte(bytes.last())
    }
}

fn digit_str(d: u8) -> (s: &'static str)
    requires
        d < 16,
    ensures
        s@ == seq![digit_char(d as nat)],
{
    proof {
        reveal_strlit("0");
        reveal_strlit("1");
        reveal_strlit("2");
        reveal_strlit("3");
        reveal_strlit("4");
        reveal_strlit("5");
        reveal_strlit("6");
        reveal_strlit("7");
        reveal_strlit("8");
        reveal_strlit("9");
        reveal_strlit("A");
        reveal_strlit("B");
        reveal_strlit("C");
        reveal_strlit("D");
        reveal_strlit("E");
        reveal_strlit("F");
    }
    match d {
        0 => "0",
        1 => "1",
        2 => "2",
        3 => "3",
        4 => "4",
        5 => "5",
        6 => "6",
        7 => "7",
        8 => "8",
        9 => "9",
        10 => "A",
        11 => "B",
        12 => "C",
        13 => "D",
        14 => "E",
        _ => "F",
    }
}

/// Appends `n` in decimal.
pub fn push_decimal(out: &mut String, n: u64)
    ensures
        final(out)@ == old(out)@ + decimal(n as nat),
    decreases n,
{
    if n >= 10 {
        push_decimal(out, n / 10);
    }
    out.append(digit_str((n % 10) as u8));
}

/// Appends `n` in decimal, with a minus sign when it is negative.
pub fn push_signed(out: &mut String, n: i32)
    ensures
        final(out)@ == old(out)@ + signed_decimal(n as int),
{
    if n < 0 {
        out.append("-");
        let magnitude: i64 = -(n as i64);
        push_decimal(out, magnitude as u64);
    } else {
        push_decimal(out, n as u64);
    }
}

/// Appends `b` as two upper-case hexadecimal digits.
pub fn push_hex_byte(out: &mut String, b: u8)
    ensures
        final(out)@ == old(out)@ + hex_byte(b),
{
    out.append(digit_str(b / 16));
    out.append(digit_str(b % 16));
}

/// Appends every byte of `bytes` as two upper-case hexadecimal digits.
pub fn push_hex_bytes(out: &mut String, bytes: &[u8])
    ensures
        final(out)@ == old(out)@ + hex_bytes(bytes@),
{
    let mut i: usize = 0;
    while i < bytes.len()
        invariant
            i <= bytes@.len(),
            out@ == old(out)@ + hex_bytes(bytes@.take(i as int)),
        decreases bytes@.len() - i,
    {
        push_hex_byte(out, bytes[i]);
        proof {
            assert(bytes@.take(i as int + 1).drop_last() =~= bytes@.take(i as int));
        }
        i += 1;
    }
    proof {
        assert(bytes@.take(bytes@.len() as int) =~= bytes@);
    }
}

/// The digit at position `i` from the right in the decimal text of a number is the one that
/// counts its powers of ten of that order. There are no leading zeros.
pub proof fn law_decimal_digit(n: nat, i: nat)
    ensures
        decimal(n).len() >= 1,
        n > 0 ==> decimal(n)[0] != '0',
        n < 10 ==> decimal(n).len() == 1,
        i < decimal(n).len() ==> decimal(n)[decimal(n).len() - 1 - i] as int == '0' as int + (
        n as int / pow(10, i)) % 10,
        i >= decimal(n).len() ==> n < pow(10, i),
    decreases n,
{
    reveal_with_fuel(pow, 2);
    lemma_pow_positive(10, i);
    let weight = pow(10, i);
    if i == 0 {
        assert(n as int / weight == n) by (nonlinear_arith)
            requires
                weight == 1,
        ;
    }
    if n < 10 {
        if i > 0 {
            lemma_pow_positive(10, (i - 1) as nat);
        }
    } else {
        let shorter = n / 10;
        let digits = decimal(n);
        let front = decimal(shorter);
        assert(digits == front.push(digit_char(n % 10)));
        if i > 0 {
            let below = (i - 1) as nat;
            law_decimal_digit(shorter, below);
            lemma_pow_positive(10, below);
            lemma_div_denominator(n as int, 10, pow(10, below));
            if i < digits.len() {
                assert(digits[digits.len() - 1 - i] == front[front.len() - 1 - below]);
            }
        } else {
            law_decimal_digit(shorter, 0);
        }
        assert(digits[0] == front[0]);
    }
}

/// The text of a negative number is a minus sign and the text of its magnitude.
pub proof fn law_signed_decimal(n: int)
    ensures
        n >= 0 ==> signed_decimal(n) == decimal(n as nat),
        n < 0 ==> signed_decimal(n) == seq!['-'] + decimal((-n) as nat),
{
    reveal_strlit("-");
    assert("-"@ =~= seq!['-']);
}

/// Every byte takes two hexadecimal digits, the high one first, in the order of the bytes.
/// The digits above nine are upper-case letters.
pub proof fn law_hex_bytes(bytes: Seq<u8>, i: int)
    ensures
        hex_bytes(bytes).len() == 2 * bytes.len(),
        0 <= i < bytes.len() ==> ({
            let high = bytes[i] as int / 16;
            let low = bytes[i] as int % 16;
            &&& hex_bytes(bytes)[2 * i] as int == high + (if high < 10 {
                '0' as int
            } else {
                'A' as int - 10
            })
            &&& hex_bytes(bytes)[2 * i + 1] as int == low + (if low < 10 {
                '0' as int
            } else {
                'A' as int - 10
            })
        }),
        0 <= i < bytes.len() ==> hex_byte(bytes[i]) == hex_bytes(bytes).subrange(2 * i, 2 * i + 2),
    decreases bytes.len(),
{
    if bytes.len() > 0 {
        let front = bytes.drop_last();
        law_hex_bytes(front, i);
        let whole = hex_bytes(bytes);
        if 0 <= i < front.len() {
            assert(whole.subrange(2 * i, 2 * i + 2) =~= hex_bytes(front).subrange(
                2 * i,
                2 * i + 2,
            ));
        } else if i == front.len() {
            assert(whole.subrange(2 * i, 2 * i + 2) =~= hex_byte(bytes[i]));
        }
    }
}

} // verus!
