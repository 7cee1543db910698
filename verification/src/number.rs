//! Unsigned numbers in writing.

use crate::text::chars_of;
use vstd::prelude::*;

verus! {

/// `String::push` adds the character behind the text that is there.
pub assume_specification[ String::push ](s: &mut String, c: char)
    ensures
        final(s)@ == old(s)@.push(c),
;

/// A decimal digit.
pub open spec fn is_digit(c: char) -> bool {
    '0' <= c <= '9'
}

/// The number that a row of decimal digits writes.
pub open spec fn decimal_value(digits: Seq<char>) -> nat
    decreases digits.len(),
{
    if digits.len() == 0 {
        0
    } else {
        decimal_value(digits.drop_last()) * 10 + (digits.last() as nat - '0' as nat) as nat
    }
}

/// `s` without one leading plus sign.
pub open spec fn without_sign(s: Seq<char>) -> Seq<char> {
    if s.len() > 0 && s.first() == '+' {
        s.drop_first()
    } else {
        s
    }
}

/// The number that `s` writes, if `s` is a row of one or more decimal digits, with or without a
/// plus sign before it, and the number is at most `max`.
pub open spec fn unsigned(s: Seq<char>, max: nat) -> Option<nat> {
    let digits = without_sign(s);
    if digits.len() > 0 && (forall|i: int| 0 <= i < digits.len() ==> is_digit(#[trigger] digits[i]))
        && decimal_value(digits) <= max {
        Some(decimal_value(digits))
    } else {
        None
    }
}

/// The digit for `d`, which is below sixteen.
pub open spec fn digit_char(d: nat) -> char {
    if d < 10 {
        ('0' as nat + d) as char
    } else {
        ('a' as nat + d - 10) as char
    }
}

/// Dropping the last digit makes a number smaller.
pub proof fn lemma_fewer_digits(n: nat, base: nat)
    requires
        2 <= base <= n,
    ensures
        n / base < n,
{
    assert(n / base < n) by (nonlinear_arith)
        requires
            2 <= base <= n,
    ;
}

/// `n` written in base `base`, without leading zeros.
pub open spec fn numeral(n: nat, base: nat) -> Seq<char>
    decreases n,
{
    if n < base || base < 2 {
        seq![digit_char(n)]
    } else {
        proof {
            lemma_fewer_digits(n, base);
        }
        numeral(n / base, base).push(digit_char(n % base))
    }
}

/// `n` written in decimal.
pub open spec fn decimal(n: nat) -> Seq<char> {
    numeral(n, 10)
}

/// `n` written in hexadecimal, with small letters.
pub open spec fn hexadecimal(n: nat) -> Seq<char> {
    numeral(n, 16)
}

/// Leading digits bound the number from below.
proof fn lemma_prefix_value(digits: Seq<char>, k: int)
    requires
        0 <= k <= digits.len(),
        forall|i: int| 0 <= i < digits.len() ==> is_digit(#[trigger] digits[i]),
    ensures
        decimal_value(digits.take(k)) <= decimal_value(digits),
    decreases digits.len() - k,
{
    if k < digits.len() {
        lemma_prefix_value(digits, k + 1);
        assert(digits.take(k + 1).drop_last() == digits.take(k));
    } else {
        assert(digits.take(k) == digits);
    }
}

/// The number that `s` writes, if it writes one that is at most `max`.
pub fn parse_unsigned(s: &str, max: u64) -> (r: Option<u64>)
    ensures
        match r {
            Some(n) => unsigned(s@, max as nat) == Some(n as nat),
            None => unsigned(s@, max as nat) is None,
        },
{
    let chars = chars_of(s);
    let n: usize = chars.len();
    let first: usize = if n > 0 && chars[0] == '+' {
        1
    } else {
        0
    };
    let ghost digits = without_sign(s@);
    assert(s@.skip(first as int) == digits);
    if first == n {
        return None;
    }
    let mut value: u64 = 0;
    let mut i: usize = first;
    assert(digits.take(0).len() == 0);
    while i < n
        invariant
            chars@ == s@,
            n == s@.len(),
            first <= i <= n,
            digits == without_sign(s@),
            digits == s@.skip(first as int),
            forall|k: int| 0 <= k < i - first ==> is_digit(#[trigger] digits[k]),
            value == decimal_value(digits.take(i - first)),
            value <= max,
        decreases n - i,
    {
        let c = chars[i];
        assert(c == digits[i - first]);
        if c < '0' || '9' < c {
            return None;
        }
        let d: u64 = (c as u8 - 48) as u64;
        assert(digits.take(i + 1 - first).drop_last() == digits.take(i - first));
        if max < d || value > (max - d) / 10 {
            proof {
                assert(decimal_value(digits.take(i + 1 - first)) > max);
                if forall|k: int| 0 <= k < digits.len() ==> is_digit(#[trigger] digits[k]) {
                    lemma_prefix_value(digits, i + 1 - first);
                }
            }
            return None;
        }
        value = value * 10 + d;
        i += 1;
    }
    assert(digits.take(n - first) == digits);
    Some(value)
}

/// Writes `n` in base `base` behind the text of `out`.
pub fn push_numeral(out: &mut String, n: u64, base: u64)
    requires
        2 <= base <= 16,
    ensures
        final(out)@ == old(out)@ + numeral(n as nat, base as nat),
    decreases n,
{
    if n >= base {
        proof {
            lemma_fewer_digits(n as nat, base as nat);
        }
        push_numeral(out, n / base, base);
    }
    let d: u64 = n % base;
    proof {
        if n < base {
            vstd::arithmetic::div_mod::lemma_small_mod(n as nat, base as nat);
        } else {
            vstd::arithmetic::div_mod::lemma_mod_bound(n as int, base as int);
        }
    }
    let c: char = if d < 10 {
        (48 + d as u8) as char
    } else {
        (87 + d as u8) as char
    };
    out.push(c);
    assert(c == digit_char(d as nat));
    assert(out@ =~= old(out)@ + numeral(n as nat, base as nat));
}

/// Writes `n` in decimal behind the text of `out`.
pub fn push_decimal(out: &mut String, n: u64)
    ensures
        final(out)@ == old(out)@ + decimal(n as nat),
{
    push_numeral(out, n, 10);
}

/// The decimal writing of a number is a row of digits, and of that number.
pub proof fn lemma_decimal(n: nat)
    ensures
        decimal(n).len() > 0,
        forall|i: int| 0 <= i < decimal(n).len() ==> is_digit(#[trigger] decimal(n)[i]),
        decimal_value(decimal(n)) == n,
    decreases n,
{
    let last = digit_char(n % 10);
    if n < 10 {
        assert(decimal(n).drop_last() =~= Seq::empty());
        assert(decimal_value(decimal(n).drop_last()) == 0);
    } else {
        lemma_decimal(n / 10);
        assert(decimal(n) == decimal(n / 10).push(last));
        assert(decimal(n).drop_last() =~= decimal(n / 10));
        assert forall|i: int| 0 <= i < decimal(n).len() implies is_digit(
            #[trigger] decimal(n)[i],
        ) by {
            if i < decimal(n).len() - 1 {
                assert(decimal(n)[i] == decimal(n / 10)[i]);
            }
        }
    }
}

/// Reading a number gives back what was written.
pub proof fn decimal_reads_back(n: nat, max: nat)
    requires
        n <= max,
    ensures
        unsigned(decimal(n), max) == Some(n),
{
    lemma_decimal(n);
    assert(is_digit(decimal(n)[0]));
    assert(without_sign(decimal(n)) == decimal(n));
}

/// A number above the limit is not read.
pub proof fn decimal_above_limit(n: nat, max: nat)
    requires
        n > max,
    ensures
        unsigned(decimal(n), max) is None,
{
    lemma_decimal(n);
    assert(is_digit(decimal(n)[0]));
    assert(without_sign(decimal(n)) == decimal(n));
}

/// Sixteen, `k` times multiplied.
spec fn sixteen_to(k: nat) -> nat
    decreases k,
{
    if k == 0 {
        1
    } else {
        16 * sixteen_to((k - 1) as nat)
    }
}

/// A digit of hexadecimal, with small letters.
pub open spec fn is_hex_digit(c: char) -> bool {
    is_digit(c) || 'a' <= c <= 'f'
}

/// A number below a power of sixteen has no more hexadecimal digits than the power's exponent.
proof fn lemma_hexadecimal(n: nat, k: nat)
    requires
        k > 0,
        n < sixteen_to(k),
    ensures
        1 <= hexadecimal(n).len() <= k,
        forall|i: int| 0 <= i < hexadecimal(n).len() ==> is_hex_digit(#[trigger] hexadecimal(n)[i]),
    decreases n,
{
    reveal_with_fuel(sixteen_to, 2);
    if n >= 16 {
        lemma_hexadecimal(n / 16, (k - 1) as nat);
        let front = hexadecimal(n / 16);
        assert(hexadecimal(n) == front.push(digit_char(n % 16)));
        assert forall|i: int| 0 <= i < hexadecimal(n).len() implies is_hex_digit(
            #[trigger] hexadecimal(n)[i],
        ) by {
            if i < front.len() {
                assert(hexadecimal(n)[i] == front[i]);
            }
        }
    }
}

/// A number of 64 bits has one to sixteen hexadecimal digits, and is written in these only.
pub proof fn hexadecimal_of_64_bits(n: u64)
    ensures
        1 <= hexadecimal(n as nat).len() <= 16,
        forall|i: int|
            0 <= i < hexadecimal(n as nat).len() ==> is_hex_digit(
                #[trigger] hexadecimal(n as nat)[i],
            ),
{
    assert(sixteen_to(16) > u64::MAX) by {
        reveal_with_fuel(sixteen_to, 17);
    }
    lemma_hexadecimal(n as nat, 16);
}

} // verus!
