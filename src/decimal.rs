//! Decimal text of integers: digit counting without formatting, and the
//! formatting itself, which is done by `itoa`.

use vstd::prelude::*;
use vstd::string::*;
use crate::utf8_len::{all_ascii, lemma_utf8_len_ascii, utf8_len};

verus! {

/// The character of a decimal digit `d` (`0 <= d < 10`).
pub open spec fn digit_char(d: nat) -> char {
    if d == 0 {
        '0'
    } else if d == 1 {
        '1'
    } else if d == 2 {
        '2'
    } else if d == 3 {
        '3'
    } else if d == 4 {
        '4'
    } else if d == 5 {
        '5'
    } else if d == 6 {
        '6'
    } else if d == 7 {
        '7'
    } else if d == 8 {
        '8'
    } else {
        '9'
    }
}

/// The minimal decimal digits of `n`, most significant first (`"0"` for zero).
pub open spec fn digits(n: nat) -> Seq<char>
    decreases n,
{
    if n < 10 {
        seq![digit_char(n)]
    } else {
        digits(n / 10).push(digit_char(n % 10))
    }
}

/// The decimal text of `v`: a `-` before the digits of a negative value, no `+`.
pub open spec fn decimal(v: int) -> Seq<char> {
    if v < 0 {
        seq!['-'] + digits((-v) as nat)
    } else {
        digits(v as nat)
    }
}

proof fn lemma_digits_ascii(n: nat)
    ensures
        all_ascii(digits(n)),
        digits(n).len() >= 1,
    decreases n,
{
    if n >= 10 {
        lemma_digits_ascii(n / 10);
        let d = digits(n / 10);
        assert forall|i: int| 0 <= i < digits(n).len() implies (#[trigger] digits(n)[i]) as u32
            <= 0x7F by {
            if i < d.len() {
                assert(digits(n)[i] == d[i]);
            }
        }
    }
}

/// Decimal text is ASCII, so its UTF-8 length is its number of characters.
pub proof fn lemma_decimal_utf8_len(v: int)
    ensures
        utf8_len(decimal(v)) == decimal(v).len(),
{
    if v < 0 {
        lemma_digits_ascii((-v) as nat);
        let d = digits((-v) as nat);
        let s = seq!['-'] + d;
        assert forall|i: int| 0 <= i < s.len() implies (#[trigger] s[i]) as u32 <= 0x7F by {
            if i > 0 {
                assert(s[i] == d[i - 1]);
            }
        }
        lemma_utf8_len_ascii(s);
    } else {
        lemma_digits_ascii(v as nat);
        lemma_utf8_len_ascii(digits(v as nat));
    }
}

/// Counts the decimal digits of `n` by repeated division, without formatting.
pub fn count_digits_u128(n: u128) -> (r: usize)
    ensures
        r == decimal(n as int).len(),
        r == utf8_len(decimal(n as int)),
{
    proof {
        lemma_decimal_utf8_len(n as int);
    }
    if n == 0 {
        return 1;
    }
    proof {
        lemma_digits_len_bound(n as nat);
    }
    let mut value: u128 = n;
    let mut count: usize = 0;
    while value > 0
        invariant
            value > 0 ==> count + digits(value as nat).len() == digits(n as nat).len(),
            value == 0 ==> count == digits(n as nat).len(),
            count <= digits(n as nat).len() <= 39,
            value <= n,
            n > 0,
        decreases value,
    {
        proof {
            lemma_digits_ascii(value as nat);
            lemma_digits_len_bound(value as nat);
        }
        if value < 10 {
            assert(digits(value as nat).len() == 1);
        } else {
            assert(digits(value as nat).len() == digits((value / 10) as nat).len() + 1);
        }
        value = value / 10;
        count = count + 1;
    }
    count
}

proof fn lemma_digits_len_bound(n: nat)
    requires
        n <= u128::MAX,
    ensures
        digits(n).len() <= 39,
        n < 10 ==> digits(n).len() == 1,
        n >= 10 ==> digits(n).len() == digits(n / 10).len() + 1,
    decreases n,
{
    lemma_digits_len_log(n);
    let k = digits(n).len();
    if k > 39 {
        lemma_pow10_monotone(39, (k - 1) as nat);
        reveal_with_fuel(pow10, 40);
        assert(pow10(39) == 1000000000000000000000000000000000000000nat);
    }
}

proof fn lemma_pow10_monotone(a: nat, b: nat)
    requires
        a <= b,
    ensures
        pow10(a) <= pow10(b),
    decreases b,
{
    if a < b {
        lemma_pow10_monotone(a, (b - 1) as nat);
    }
}

proof fn lemma_digits_len_log(n: nat)
    ensures
        n < pow10(digits(n).len()),
        digits(n).len() >= 1,
        digits(n).len() > 1 ==> n >= pow10((digits(n).len() - 1) as nat),
    decreases n,
{
    reveal_with_fuel(pow10, 2);
    if n >= 10 {
        lemma_digits_len_log(n / 10);
        let k = digits(n / 10).len();
        assert(digits(n).len() == k + 1);
        assert(pow10(k + 1) == 10 * pow10(k));
        assert(n < pow10(k + 1)) by (nonlinear_arith)
            requires
                n / 10 < pow10(k),
                pow10(k + 1) == 10 * pow10(k),
        ;
        if k > 1 {
            assert(pow10(k) == 10 * pow10((k - 1) as nat));
            assert(n >= pow10(k)) by (nonlinear_arith)
                requires
                    n / 10 >= pow10((k - 1) as nat),
                    pow10(k) == 10 * pow10((k - 1) as nat),
            ;
        } else {
            assert(pow10(1) == 10);
        }
    }
}

/// `10` to the power `k`.
pub open spec fn pow10(k: nat) -> nat
    decreases k,
{
    if k == 0 {
        1
    } else {
        10 * pow10((k - 1) as nat)
    }
}

/// Counts the characters of the decimal text of `v`, its sign included.
pub fn count_digits_i128(v: i128) -> (r: usize)
    ensures
        r == decimal(v as int).len(),
        r == utf8_len(decimal(v as int)),
{
    proof {
        lemma_decimal_utf8_len(v as int);
    }
    if v < 0 {
        let magnitude: u128 = (-(v + 1)) as u128 + 1;
        assert(magnitude as int == -(v as int));
        let n = count_digits_u128(magnitude);
        proof {
            lemma_digits_len_bound(magnitude as nat);
        }
        n + 1
    } else {
        count_digits_u128(v as u128)
    }
}

/// Relies on `itoa::Buffer::format`: the minimal decimal text of an unsigned
/// integer, without sign or leading zeros.
#[verifier::external_body]
fn format_u128(v: u128) -> (r: String)
    ensures
        r@ == decimal(v as int),
{
    let mut buffer = itoa::Buffer::new();
    String::from(buffer.format(v))
}

/// Relies on `itoa::Buffer::format`: the minimal decimal text of a signed
/// integer, with a leading `-` when it is negative.
#[verifier::external_body]
fn format_i128(v: i128) -> (r: String)
    ensures
        r@ == decimal(v as int),
{
    let mut buffer = itoa::Buffer::new();
    String::from(buffer.format(v))
}

/// Appends the decimal text of `v` to `text`.
pub fn push_decimal_u128(text: &mut String, v: u128)
    ensures
        final(text)@ == old(text)@ + decimal(v as int),
{
    let s = format_u128(v);
    text.append(s.as_str());
}

/// Appends the decimal text of `v` to `text`.
pub fn push_decimal_i128(text: &mut String, v: i128)
    ensures
        final(text)@ == old(text)@ + decimal(v as int),
{
    let s = format_i128(v);
    text.append(s.as_str());
}

} // verus!
