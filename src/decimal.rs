//! Decimal rendering of unsigned integers, as characters and as ASCII bytes.
use vstd::prelude::*;
use vstd::string::StringExecFns;

verus! {

/// The character of a decimal digit `d < 10`.
pub open spec fn digit_char(d: nat) -> char {
    ((d + 48) as u32) as char
}

/// The decimal numeral of `n`: no leading zero, and `0` for zero.
pub open spec fn decimal(n: nat) -> Seq<char>
    decreases n,
{
    if n < 10 {
        seq![digit_char(n)]
    } else {
        decimal(n / 10).push(digit_char(n % 10))
    }
}

/// The byte of each character, for characters that are ASCII.
pub open spec fn ascii_bytes(s: Seq<char>) -> Seq<u8> {
    s.map_values(|c: char| c as u8)
}

/// Appends the ASCII digits of `v` to `out`.
pub fn push_decimal(v: u128, out: &mut Vec<u8>)
    ensures
        final(out)@ == old(out)@ + ascii_bytes(decimal(v as nat)),
    decreases v,
{
    if v >= 10 {
        push_decimal(v / 10, out);
    }
    let d: u8 = (v % 10) as u8;
    let b: u8 = 48u8 + d;
    out.push(b);
    proof {
        assert(digit_char(d as nat) as u8 == b);
        assert(ascii_bytes(decimal(v as nat)) =~= if v >= 10 {
            ascii_bytes(decimal((v / 10) as nat)).push(b)
        } else {
            seq![b]
        });
    }
}

/// True when `c` is one of `0` to `9`.
pub open spec fn is_digit(c: char) -> bool {
    '0' <= c <= '9'
}

/// Ten to the power `k`.
pub open spec fn pow10(k: nat) -> nat
    decreases k,
{
    if k == 0 {
        1
    } else {
        10 * pow10((k - 1) as nat)
    }
}

/// A numeral holds digits only, at least one, and starts with `0` only when it is `0`.
pub proof fn lemma_decimal_shape(n: nat)
    ensures
        decimal(n).len() >= 1,
        forall|i: int| 0 <= i < decimal(n).len() ==> is_digit(#[trigger] decimal(n)[i]),
        decimal(n)[0] == '0' <==> n == 0,
        n == 0 ==> decimal(n) == seq!['0'],
    decreases n,
{
    if n >= 10 {
        lemma_decimal_shape(n / 10);
    }
}

/// A number below `10^k` takes at most `k` digits; one at or above takes more.
pub proof fn lemma_decimal_len(n: nat, k: nat)
    requires
        k >= 1,
    ensures
        n < pow10(k) ==> decimal(n).len() <= k,
        n >= pow10(k) ==> decimal(n).len() > k,
    decreases k,
{
    reveal_with_fuel(pow10, 2);
    if k > 1 && n >= 10 {
        let p = pow10((k - 1) as nat);
        assert(n < 10 * p <==> n / 10 < p) by (nonlinear_arith);
        lemma_decimal_len(n / 10, (k - 1) as nat);
    } else if k > 1 {
        lemma_pow10_ge(k);
    } else if n >= 10 {
        lemma_decimal_shape(n / 10);
    }
}

proof fn lemma_pow10_ge(k: nat)
    requires
        k >= 1,
    ensures
        pow10(k) >= 10,
    decreases k,
{
    reveal_with_fuel(pow10, 2);
    if k > 1 {
        lemma_pow10_ge((k - 1) as nat);
    }
}

/// The one-character string of the digit `d`.
fn digit_str(d: u8) -> (r: &'static str)
    requires
        d < 10,
    ensures
        r@ == seq![digit_char(d as nat)],
{
    proof {
        reveal_strlit("0");
        reveal_strlit("1");
        reveal_strlit("2");
        reveal_strlit("3");
        reveal_strlit("4");
        reveal_strlit("5");
        reveal_strlit("6");
        reveal_strlit("7");
        reveal_strlit("8");
        reveal_strlit("9");
    }
    match d {
        0 => "0",
        1 => "1",
        2 => "2",
        3 => "3",
        4 => "4",
        5 => "5",
        6 => "6",
        7 => "7",
        8 => "8",
        _ => "9",
    }
}

/// Appends the decimal numeral of `v` to `out`.
pub fn append_decimal(v: u128, out: &mut String)
    ensures
        final(out)@ == old(out)@ + decimal(v as nat),
    decreases v,
{
    if v >= 10 {
        append_decimal(v / 10, out);
    }
    let d: u8 = (v % 10) as u8;
    out.append(digit_str(d));
    proof {
        assert(decimal(v as nat) =~= if v >= 10 {
            decimal((v / 10) as nat).push(digit_char(d as nat))
        } else {
            seq![digit_char(d as nat)]
        });
    }
}

} // verus!
