//! Decimal rendering of integers as character sequences.
//!
//! Temporary names (`__tmp.<n>`) and the emitted assembly text both
//! contain decimal numerals, so the specification-level numeral
//! `dec_nat` and the executable renderer proven against it live here.
use vstd::prelude::*;

verus! {

/// The character for a single decimal digit value.
pub open spec fn digit_char(d: nat) -> char {
    if d == 0 {
        '0'
    } else if d == 1 {
        '1'
    } else if d == 2 {
        '2'
    } else if d == 3 {
        '3'
    } else if d == 4 {
        '4'
    } else if d == 5 {
        '5'
    } else if d == 6 {
        '6'
    } else if d == 7 {
        '7'
    } else if d == 8 {
        '8'
    } else {
        '9'
    }
}

/// The usual decimal numeral of `n`, most significant digit first,
/// without leading zeros (except for `n == 0` itself).
pub open spec fn dec_nat(n: nat) -> Seq<char>
    decreases n,
{
    if n < 10 {
        seq![digit_char(n)]
    } else {
        dec_nat(n / 10) + seq![digit_char(n % 10)]
    }
}

/// The decimal numeral of a signed 32-bit value: a leading `-` for
/// negative values, then the numeral of the magnitude.
pub open spec fn dec_i32(n: i32) -> Seq<char> {
    if n < 0 {
        seq!['-'] + dec_nat((-(n as int)) as nat)
    } else {
        dec_nat(n as nat)
    }
}

/// Appends the single digit character for `d` to `out`.
fn push_digit(out: &mut String, d: u64)
    requires
        d < 10,
    ensures
        final(out)@ == old(out)@ + seq![digit_char(d as nat)],
{
    let s: &str = match d {
        0 => "0",
        1 => "1",
        2 => "2",
        3 => "3",
        4 => "4",
        5 => "5",
        6 => "6",
        7 => "7",
        _ => "9",
    };
    let s: &str = if d == 8 {
        "8"
    } else {
        s
    };
    proof {
        reveal_strlit("0");
        reveal_strlit("1");
        reveal_strlit("2");
        reveal_strlit("3");
        reveal_strlit("4");
        reveal_strlit("5");
        reveal_strlit("6");
        reveal_strlit("7");
        reveal_strlit("8");
        reveal_strlit("9");
        assert(s@ =~= seq![digit_char(d as nat)]);
    }
    out.append(s);
}

/// Appends the decimal numeral of `n` to `out`.
pub fn push_dec_u64(out: &mut String, n: u64)
    ensures
        final(out)@ == old(out)@ + dec_nat(n as nat),
    decreases n,
{
    if n < 10 {
        push_digit(out, n);
    } else {
        push_dec_u64(out, n / 10);
        push_digit(out, n % 10);
        proof {
            assert(out@ =~= old(out)@ + dec_nat(n as nat));
        }
    }
}

/// Appends the decimal numeral of a signed 32-bit value to `out`.
pub fn push_dec_i32(out: &mut String, n: i32)
    ensures
        final(out)@ == old(out)@ + dec_i32(n),
{
    if n < 0 {
        proof {
            reveal_strlit("-");
            assert("-"@ =~= seq!['-']);
        }
        out.append("-");
        let m: u64 = (-(n as i64)) as u64;
        push_dec_u64(out, m);
        proof {
            assert(out@ =~= old(out)@ + dec_i32(n));
        }
    } else {
        push_dec_u64(out, n as u64);
    }
}

/// The decimal numeral of `n` as a fresh string.
pub fn dec_string_u64(n: u64) -> (r: String)
    ensures
        r@ == dec_nat(n as nat),
{
    let mut out = String::new();
    push_dec_u64(&mut out, n);
    proof {
        assert(out@ =~= dec_nat(n as nat));
    }
    out
}

/// Whether `c` is one of the ten decimal digit characters.
pub open spec fn is_dec_digit(c: char) -> bool {
    c == '0' || c == '1' || c == '2' || c == '3' || c == '4' || c == '5' || c == '6' || c == '7'
        || c == '8' || c == '9'
}

/// Every character of a decimal numeral is a digit character.
pub proof fn lemma_dec_nat_digits(n: nat)
    ensures
        dec_nat(n).len() >= 1,
        forall|i: int| 0 <= i < dec_nat(n).len() ==> is_dec_digit(#[trigger] dec_nat(n)[i]),
    decreases n,
{
    if n < 10 {
        assert(dec_nat(n)[0] == digit_char(n));
    } else {
        lemma_dec_nat_digits(n / 10);
        assert forall|i: int| 0 <= i < dec_nat(n).len() implies is_dec_digit(
            #[trigger] dec_nat(n)[i],
        ) by {
            if i < dec_nat(n / 10).len() {
                assert(dec_nat(n)[i] == dec_nat(n / 10)[i]);
            } else {
                assert(dec_nat(n)[i] == digit_char(n % 10));
            }
        }
    }
}

/// Distinct numbers have distinct decimal numerals.
pub proof fn lemma_dec_nat_injective(a: nat, b: nat)
    requires
        dec_nat(a) == dec_nat(b),
    ensures
        a == b,
    decreases a,
{
    if a < 10 && b < 10 {
        assert(dec_nat(a)[0] == digit_char(a));
        assert(dec_nat(b)[0] == digit_char(b));
    } else if a < 10 && b >= 10 {
        lemma_dec_nat_digits(b / 10);
        assert(dec_nat(b).len() >= 2);
    } else if a >= 10 && b < 10 {
        lemma_dec_nat_digits(a / 10);
        assert(dec_nat(a).len() >= 2);
    } else {
        let la = dec_nat(a / 10).len() as int;
        let lb = dec_nat(b / 10).len() as int;
        lemma_dec_nat_digits(a / 10);
        lemma_dec_nat_digits(b / 10);
        assert(dec_nat(a).last() == digit_char(a % 10));
        assert(dec_nat(b).last() == digit_char(b % 10));
        assert(a % 10 == b % 10);
        assert(la == lb);
        assert(dec_nat(a / 10) =~= dec_nat(b / 10)) by {
            assert forall|i: int| 0 <= i < la implies #[trigger] dec_nat(a / 10)[i] == dec_nat(
                b / 10,
            )[i] by {
                assert(dec_nat(a)[i] == dec_nat(a / 10)[i]);
                assert(dec_nat(b)[i] == dec_nat(b / 10)[i]);
            }
        }
        lemma_dec_nat_injective(a / 10, b / 10);
    }
}

} // verus!
