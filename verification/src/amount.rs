//! The amount of a transaction: a non-negative decimal with two fractional digits,
//! held as its count of hundredths.

use vstd::prelude::*;
use vstd::arithmetic::power2::pow2;
use vstd::arithmetic::power2::lemma2_to64;
use vstd::arithmetic::power2::lemma_pow2_adds;
use vstd::arithmetic::power2::lemma_pow2_pos;
use vstd::arithmetic::power2::lemma_pow2_strictly_increases;
use vstd::arithmetic::power2::lemma_pow2_unfold;
use vstd::arithmetic::div_mod::lemma_fundamental_div_mod_converse;
use vstd::arithmetic::power::lemma_pow0;
use vstd::arithmetic::power::lemma_pow1;
use vstd::arithmetic::power::lemma_pow_adds;
use vstd::arithmetic::power::lemma_pow_increases;
use vstd::arithmetic::power::lemma_pow_positive;
use vstd::arithmetic::power::pow;
use crate::cell::Cell;
use crate::cell::Value;

verus! {

/// The largest count of hundredths an amount holds: 38 decimal digits.
pub const MAX_UNSCALED: i128 = 99_999_999_999_999_999_999_999_999_999_999_999_999i128;

/// The hundredths of the magnitude of a whole number.
pub open spec fn int_amount(v: i64) -> int {
    if v < 0 {
        -(v as int) * 100
    } else {
        v as int * 100
    }
}

/// Amount of an integer cell: its magnitude, exactly.
pub fn amount_of_int(v: i64) -> (r: i128)
    ensures
        r == int_amount(v),
        0 <= r <= MAX_UNSCALED,
{
    let wide: i128 = v as i128;
    let magnitude: i128 = if wide < 0 {
        -wide
    } else {
        wide
    };
    magnitude * 100
}

/// Two to the 52nd: the weight of the hidden bit of a double.
pub const HIDDEN_BIT: u64 = 0x10_0000_0000_0000u64;

/// The exponent field of a double, from the 64 bits of its encoding.
pub open spec fn float_exponent(bits: u64) -> int {
    (bits as int / 0x10_0000_0000_0000) % 2048
}

/// The integer significand of a double: its fraction field, with the hidden bit
/// unless the number is subnormal.
pub open spec fn float_significand(bits: u64) -> int {
    if float_exponent(bits) == 0 {
        bits as int % 0x10_0000_0000_0000
    } else {
        bits as int % 0x10_0000_0000_0000 + 0x10_0000_0000_0000
    }
}

/// The power of two that scales the significand: the magnitude of the double
/// is `float_significand` times two to this power.
pub open spec fn float_scale(bits: u64) -> int {
    if float_exponent(bits) == 0 {
        -1074
    } else {
        float_exponent(bits) - 1075
    }
}

/// The hundredths of the magnitude of a double, rounded to the nearest count, a half
/// rounding up. Null for an infinity or a NaN, and for a magnitude past 38 digits.
pub open spec fn float_amount(bits: u64) -> Option<i128> {
    let m = float_significand(bits);
    let scale = float_scale(bits);
    if float_exponent(bits) == 2047 {
        None
    } else if scale >= 0 {
        let v = m * 100 * pow2(scale as nat);
        if v <= MAX_UNSCALED {
            Some(v as i128)
        } else {
            None
        }
    } else {
        let d = pow2((-scale) as nat) as int;
        Some(((m * 200 + d) / (2 * d)) as i128)
    }
}

/// Two to the power `k`.
fn power_of_two(k: u32) -> (p: u128)
    requires
        k <= 67,
    ensures
        p == pow2(k as nat),
        1 <= p <= 0x8_0000_0000_0000_0000u128,
{
    let mut p: u128 = 1;
    let mut i: u32 = 0;
    proof {
        lemma2_to64();
    }
    while i < k
        invariant
            i <= k <= 67,
            p == pow2(i as nat),
            p >= 1,
        decreases k - i,
    {
        proof {
            lemma_pow2_unfold((i + 1) as nat);
            lemma_pow2_bound(i as nat);
        }
        p = p * 2;
        i += 1;
    }
    proof {
        lemma_pow2_bound(k as nat);
    }
    p
}

/// Powers of two up to the 67th stay below two to the 68th.
proof fn lemma_pow2_bound(k: nat)
    ensures
        pow2(67) == 0x8_0000_0000_0000_0000,
        pow2(68) == 0x10_0000_0000_0000_0000,
        k <= 67 ==> pow2(k) <= 0x8_0000_0000_0000_0000,
        k >= 68 ==> pow2(k) >= 0x10_0000_0000_0000_0000,
        k >= 62 ==> pow2(k) >= 0x4000_0000_0000_0000,
{
    lemma2_to64();
    lemma_pow2_adds(64, 3);
    lemma_pow2_adds(64, 4);
    lemma_pow2_adds(32, 30);
    if k < 67 {
        lemma_pow2_strictly_increases(k, 67);
    }
    if k > 68 {
        lemma_pow2_strictly_increases(68, k);
    }
    if k > 62 {
        lemma_pow2_strictly_increases(62, k);
    }
}

/// Amount of a floating-point cell, from the bits of its double.
pub fn amount_of_float(bits: u64) -> (r: Option<i128>)
    ensures
        r == float_amount(bits),
        r matches Some(a) ==> 0 <= a <= MAX_UNSCALED,
{
    let exponent: u64 = (bits / HIDDEN_BIT) % 2048;
    let fraction: u64 = bits % HIDDEN_BIT;
    if exponent == 2047 {
        return None;
    }
    let m: u128 = if exponent == 0 {
        fraction as u128
    } else {
        (fraction + HIDDEN_BIT) as u128
    };
    if exponent >= 1075 {
        let k: u64 = exponent - 1075;
        if k >= 68 {
            proof {
                lemma_pow2_bound(k as nat);
                let p = pow2(k as nat) as int;
                assert(m * 100 * p > MAX_UNSCALED) by (nonlinear_arith)
                    requires
                        m >= 0x10_0000_0000_0000,
                        p >= 0x10_0000_0000_0000_0000,
                ;
            }
            return None;
        }
        let p = power_of_two(k as u32);
        assert(m * 100 * p <= 0x20_0000_0000_0000 * 100 * 0x8_0000_0000_0000_0000) by (nonlinear_arith)
            requires
                0 <= m <= 0x20_0000_0000_0000,
                0 <= p <= 0x8_0000_0000_0000_0000,
        ;
        let v: u128 = m * 100 * p;
        if v <= MAX_UNSCALED as u128 {
            Some(v as i128)
        } else {
            None
        }
    } else {
        let k: u64 = if exponent == 0 {
            1074
        } else {
            1075 - exponent
        };
        if k >= 62 {
            proof {
                lemma_pow2_bound(k as nat);
                let d = pow2(k as nat) as int;
                let x = m * 200 + d;
                assert(x / (2 * d) == 0) by (nonlinear_arith)
                    requires
                        0 <= x < 2 * d,
                ;
            }
            return Some(0);
        }
        let d = power_of_two(k as u32);
        proof {
            lemma_pow2_bound(k as nat);
            lemma2_to64();
            if k < 62 {
                lemma_pow2_strictly_increases(k as nat, 62);
            }
            lemma_pow2_adds(32, 30);
        }
        let rounded: u128 = (m * 200 + d) / (2 * d);
        assert(rounded <= m * 200 + d) by (nonlinear_arith)
            requires
                rounded == (m * 200 + d) / (2 * d),
                d >= 1,
                m >= 0,
        ;
        Some(rounded as i128)
    }
}

/// Whether a character is a decimal digit.
pub open spec fn is_digit(c: char) -> bool {
    '0' <= c && c <= '9'
}

/// The value of a decimal digit.
pub open spec fn digit(c: char) -> int {
    c as int - '0' as int
}

/// Whether a text is made of decimal digits only.
pub open spec fn all_digits(s: Seq<char>) -> bool {
    forall|i: int| 0 <= i < s.len() ==> is_digit(#[trigger] s[i])
}

/// The number that a run of decimal digits writes.
pub open spec fn number(s: Seq<char>) -> int
    decreases s.len(),
{
    if s.len() == 0 {
        0
    } else {
        number(s.drop_last()) * 10 + digit(s.last())
    }
}

/// A decimal text without its leading sign.
pub open spec fn unsigned_part(s: Seq<char>) -> Seq<char> {
    if s.len() > 0 && (s[0] == '-' || s[0] == '+') {
        s.skip(1)
    } else {
        s
    }
}

/// Whether a character marks the exponent of a number.
pub open spec fn is_exponent_mark(c: char) -> bool {
    c == 'e' || c == 'E'
}

/// Where the mantissa of a signless text ends: at its first exponent mark, or at the
/// end of the text.
pub open spec fn mantissa_end(body: Seq<char>) -> int {
    match (body.index_of_first('e'), body.index_of_first('E')) {
        (Some(a), Some(b)) => if a < b {
            a
        } else {
            b
        },
        (Some(a), None) => a,
        (None, Some(b)) => b,
        (None, None) => body.len() as int,
    }
}

/// The mantissa of a text: what stands between the sign and the exponent mark.
pub open spec fn mantissa(s: Seq<char>) -> Seq<char> {
    unsigned_part(s).take(mantissa_end(unsigned_part(s)))
}

/// What stands behind the exponent mark of a text, if it has one.
pub open spec fn exponent_part(s: Seq<char>) -> Option<Seq<char>> {
    let body = unsigned_part(s);
    if mantissa_end(body) < body.len() {
        Some(body.skip(mantissa_end(body) + 1))
    } else {
        None
    }
}

/// The digits before the decimal point.
pub open spec fn whole_digits(s: Seq<char>) -> Seq<char> {
    match mantissa(s).index_of_first('.') {
        Some(p) => mantissa(s).take(p),
        None => mantissa(s),
    }
}

/// The digits after the decimal point.
pub open spec fn fraction_digits(s: Seq<char>) -> Seq<char> {
    match mantissa(s).index_of_first('.') {
        Some(p) => mantissa(s).skip(p + 1),
        None => Seq::empty(),
    }
}

/// The whole number that a sign and a run of digits write.
pub open spec fn signed_number(t: Seq<char>) -> int {
    if t.len() > 0 && t[0] == '-' {
        -number(unsigned_part(t))
    } else {
        number(unsigned_part(t))
    }
}

/// The power of ten that a text multiplies its mantissa by: zero without an exponent.
pub open spec fn exponent_value(s: Seq<char>) -> int {
    match exponent_part(s) {
        Some(t) => signed_number(t),
        None => 0,
    }
}

/// Whether a text writes a decimal number: an optional sign; digits with at most
/// one decimal point among them, and at least one digit; then, optionally, `e` or
/// `E`, an optional sign and at least one digit. No blanks, no grouping marks.
pub open spec fn is_decimal(s: Seq<char>) -> bool {
    &&& all_digits(whole_digits(s))
    &&& all_digits(fraction_digits(s))
    &&& whole_digits(s).len() + fraction_digits(s).len() > 0
    &&& exponent_part(s) matches Some(t) ==> all_digits(unsigned_part(t)) && unsigned_part(t).len()
        > 0
}

/// The whole number nearest to `n` times ten to the power `shift`, a half rounding up.
pub open spec fn scaled(n: int, shift: int) -> int {
    if shift >= 0 {
        n * pow(10, shift as nat)
    } else {
        (n * 2 + pow(10, (-shift) as nat)) / (2 * pow(10, (-shift) as nat))
    }
}

/// The hundredths of the magnitude that a decimal text writes, rounded to the nearest
/// count, a half rounding up. With `n` the number that all the digits of the mantissa
/// write, `f` the count of fractional digits and `e` the exponent, the magnitude is
/// `n * 10^(e - f)`.
pub open spec fn text_hundredths(s: Seq<char>) -> int {
    scaled(
        number(whole_digits(s) + fraction_digits(s)),
        exponent_value(s) - fraction_digits(s).len() + 2,
    )
}

/// The amount that a text writes: the hundredths of its magnitude. Null where the
/// text is no decimal number, or the amount is past 38 digits.
pub open spec fn text_amount(s: Seq<char>) -> Option<i128> {
    if is_decimal(s) && text_hundredths(s) <= MAX_UNSCALED {
        Some(text_hundredths(s) as i128)
    } else {
        None
    }
}

/// A run of digits writes a number that is not negative.
pub proof fn lemma_number_not_negative(s: Seq<char>)
    requires
        all_digits(s),
    ensures
        number(s) >= 0,
    decreases s.len(),
{
    if s.len() > 0 {
        assert(all_digits(s.drop_last())) by {
            assert forall|i: int| 0 <= i < s.drop_last().len() implies is_digit(
                #[trigger] s.drop_last()[i],
            ) by {
                assert(s.drop_last()[i] == s[i]);
            }
        }
        lemma_number_not_negative(s.drop_last());
        assert(is_digit(s[s.len() - 1]));
    }
}

/// The number of a run of digits followed by another: the first, shifted by the
/// length of the second, plus the second.
pub proof fn lemma_number_append(a: Seq<char>, b: Seq<char>)
    ensures
        number(a + b) == number(a) * pow(10, b.len()) + number(b),
    decreases b.len(),
{
    if b.len() == 0 {
        assert(a + b =~= a);
        lemma_pow0(10);
    } else {
        let shorter = b.drop_last();
        assert((a + b).drop_last() =~= a + shorter);
        assert((a + b).last() == b.last());
        lemma_number_append(a, shorter);
        lemma_pow_adds(10, shorter.len(), 1);
        lemma_pow1(10);
        let p = pow(10, shorter.len());
        let na = number(a);
        let ns = number(shorter);
        let d = digit(b.last());
        assert(b.len() == shorter.len() + 1);
        assert((na * p + ns) * 10 + d == na * (p * 10) + (ns * 10 + d)) by (nonlinear_arith);
    }
}

/// A run of `n` digits writes a number below ten to the `n`.
pub proof fn lemma_number_below(s: Seq<char>)
    requires
        all_digits(s),
    ensures
        0 <= number(s) < pow(10, s.len()),
    decreases s.len(),
{
    if s.len() == 0 {
        lemma_pow0(10);
    } else {
        let shorter = s.drop_last();
        assert(all_digits(shorter)) by {
            assert forall|i: int| 0 <= i < shorter.len() implies is_digit(#[trigger] shorter[i]) by {
                assert(shorter[i] == s[i]);
            }
        }
        lemma_number_below(shorter);
        assert(is_digit(s[s.len() - 1]));
        lemma_pow_adds(10, shorter.len(), 1);
        lemma_pow1(10);
        assert(s.len() == shorter.len() + 1);
        let p = pow(10, shorter.len());
        let n = number(shorter);
        let d = digit(s.last());
        assert(n * 10 + d < p * 10) by (nonlinear_arith)
            requires
                0 <= n < p,
                0 <= d <= 9,
        ;
    }
}

/// The number that one digit writes.
proof fn lemma_number_of_one(c: char)
    ensures
        number(seq![c]) == digit(c),
{
    assert(seq![c].drop_last() =~= Seq::<char>::empty());
    assert(number(seq![c].drop_last()) == 0);
}

/// A part of a run of digits is a run of digits.
proof fn lemma_all_digits_parts(s: Seq<char>, c: int)
    requires
        all_digits(s),
        0 <= c <= s.len(),
    ensures
        all_digits(s.take(c)),
        all_digits(s.skip(c)),
{
    assert forall|i: int| 0 <= i < s.take(c).len() implies is_digit(#[trigger] s.take(c)[i]) by {
        assert(s.take(c)[i] == s[i]);
    }
    assert forall|i: int| 0 <= i < s.skip(c).len() implies is_digit(#[trigger] s.skip(c)[i]) by {
        assert(s.skip(c)[i] == s[i + c]);
    }
}

/// Ten to the 39th.
proof fn lemma_pow10_39()
    ensures
        pow(10, 39) == 1_000_000_000_000_000_000_000_000_000_000_000_000_000int,
{
    lemma_pow1(10);
    assert(pow(10, 2) == 100) by {
        lemma_pow_adds(10, 1, 1);
    }
    assert(pow(10, 4) == 10_000) by {
        lemma_pow_adds(10, 2, 2);
    }
    assert(pow(10, 8) == 100_000_000) by {
        lemma_pow_adds(10, 4, 4);
    }
    assert(pow(10, 16) == 10_000_000_000_000_000) by {
        lemma_pow_adds(10, 8, 8);
    }
    assert(pow(10, 32) == 100_000_000_000_000_000_000_000_000_000_000) by {
        lemma_pow_adds(10, 16, 16);
    }
    assert(pow(10, 36) == 1_000_000_000_000_000_000_000_000_000_000_000_000) by {
        lemma_pow_adds(10, 32, 4);
    }
    assert(pow(10, 38) == 100_000_000_000_000_000_000_000_000_000_000_000_000) by {
        lemma_pow_adds(10, 36, 2);
    }
    assert(pow(10, 39) == 1_000_000_000_000_000_000_000_000_000_000_000_000_000) by {
        lemma_pow_adds(10, 38, 1);
    }
}

/// A number that is not negative stays so when it is scaled.
pub proof fn lemma_scaled_not_negative(n: int, shift: int)
    requires
        n >= 0,
    ensures
        scaled(n, shift) >= 0,
{
    if shift >= 0 {
        lemma_pow_positive(10, shift as nat);
        let p = pow(10, shift as nat);
        assert(n * p >= 0) by (nonlinear_arith)
            requires
                n >= 0,
                p > 0,
        ;
    } else {
        lemma_pow_positive(10, (-shift) as nat);
        let p = pow(10, (-shift) as nat);
        assert((n * 2 + p) / (2 * p) >= 0) by (nonlinear_arith)
            requires
                n >= 0,
                p > 0,
        ;
    }
}

/// A number of at most `len` digits, moved down by more than `len` places, rounds to zero.
proof fn lemma_scaled_far_down(n: int, len: nat, k: nat)
    requires
        0 <= n < pow(10, len),
        k > len,
    ensures
        scaled(n, -(k as int)) == 0,
{
    lemma_pow_increases(10, len + 1, k);
    lemma_pow_adds(10, len, 1);
    lemma_pow1(10);
    let p = pow(10, k);
    let q = pow(10, len);
    assert(pow(10, len + 1) == q * 10);
    assert(0 <= n * 2 + p < 2 * p) by (nonlinear_arith)
        requires
            0 <= n < q,
            q * 10 <= p,
    ;
    lemma_fundamental_div_mod_converse(n * 2 + p, 2 * p, 0, n * 2 + p);
}

/// A run of digits moved down by some of its places rounds by the first digit that
/// is cut off: the number of the digits that stay, and one more where that digit is
/// five or more.
proof fn lemma_scaled_cut(d: Seq<char>, c: int)
    requires
        all_digits(d),
        0 <= c < d.len(),
    ensures
        scaled(number(d), c - d.len()) == number(d.take(c)) + if digit(d[c]) >= 5 {
            1int
        } else {
            0int
        },
{
    let k = (d.len() - c) as nat;
    let head = d.take(c);
    let tail = d.skip(c);
    let rest = d.skip(c + 1);
    lemma_all_digits_parts(d, c);
    lemma_all_digits_parts(d, c + 1);
    assert(d =~= head + tail);
    assert(tail =~= seq![d[c]] + rest);
    lemma_number_append(head, tail);
    lemma_number_append(seq![d[c]], rest);
    lemma_number_of_one(d[c]);
    lemma_number_below(rest);
    lemma_number_not_negative(head);
    assert(is_digit(d[c]));
    lemma_pow_adds(10, 1, rest.len());
    lemma_pow1(10);
    lemma_pow_positive(10, rest.len());
    let q = pow(10, rest.len());
    let p = pow(10, k);
    assert(k == 1 + rest.len());
    assert(p == 10 * q);
    let n = number(d);
    let a = number(head);
    let dc = digit(d[c]);
    let t = number(rest);
    let up: int = if dc >= 5 {
        1
    } else {
        0
    };
    assert(number(tail) == dc * q + t);
    assert(n == a * p + (dc * q + t));
    let r = n * 2 + p - (a + up) * (2 * p);
    assert(r == 2 * dc * q + 2 * t + 10 * q - up * 20 * q) by (nonlinear_arith)
        requires
            r == n * 2 + p - (a + up) * (2 * p),
            n == a * p + (dc * q + t),
            p == 10 * q,
    ;
    assert(0 <= r < 2 * p) by (nonlinear_arith)
        requires
            r == 2 * dc * q + 2 * t + 10 * q - up * 20 * q,
            up == (if dc >= 5 {
                1int
            } else {
                0int
            }),
            0 <= dc <= 9,
            0 <= t < q,
            p == 10 * q,
    ;
    assert(n * 2 + p == (a + up) * (2 * p) + r);
    lemma_fundamental_div_mod_converse(n * 2 + p, 2 * p, a + up, r);
}

/// The mantissa of a signless text ends at `q` where no exponent mark stands before
/// `q` and one stands at `q`, or `q` is the end of the text.
proof fn lemma_mantissa_end_at(body: Seq<char>, q: int)
    requires
        0 <= q <= body.len(),
        forall|j: int| 0 <= j < q ==> !is_exponent_mark(#[trigger] body[j]),
        q < body.len() ==> is_exponent_mark(body[q]),
    ensures
        mantissa_end(body) == q,
{
    body.index_of_first_ensures('e');
    body.index_of_first_ensures('E');
    if body.index_of_first('e') is Some {
        let a = body.index_of_first('e')->0;
        assert(is_exponent_mark(body[a]));
        if q < body.len() && a > q {
            assert(body[q] != 'e');
        }
    }
    if body.index_of_first('E') is Some {
        let b = body.index_of_first('E')->0;
        assert(is_exponent_mark(body[b]));
        if q < body.len() && b > q {
            assert(body[q] != 'E');
        }
    }
    if q < body.len() {
        if body[q] == 'e' {
            assert(body.contains('e'));
        } else {
            assert(body.contains('E'));
        }
    }
}

/// The mantissa of a signless text reaches past `x` where no exponent mark stands
/// at `x` or before it.
proof fn lemma_mantissa_end_after(body: Seq<char>, x: int)
    requires
        0 <= x < body.len(),
        forall|j: int| 0 <= j <= x ==> !is_exponent_mark(#[trigger] body[j]),
    ensures
        x < mantissa_end(body) <= body.len(),
{
    body.index_of_first_ensures('e');
    body.index_of_first_ensures('E');
    if body.index_of_first('e') is Some {
        let a = body.index_of_first('e')->0;
        assert(is_exponent_mark(body[a]));
    }
    if body.index_of_first('E') is Some {
        let b = body.index_of_first('E')->0;
        assert(is_exponent_mark(body[b]));
    }
}

/// Whatever the cell, its amount is null or a count of hundredths from zero to the
/// largest of 38 digits: never negative, and with exactly two fractional digits.
pub proof fn lemma_amount_in_range(v: Value)
    ensures
        amount_value(v) matches Some(a) ==> 0 <= a <= MAX_UNSCALED,
{
    match v {
        Value::Float(bits) => {
            let m = float_significand(bits);
            let scale = float_scale(bits);
            if float_exponent(bits) != 2047 {
                if scale >= 0 {
                    lemma_pow2_pos(scale as nat);
                    let p = pow2(scale as nat) as int;
                    assert(m * 100 * p >= 0) by (nonlinear_arith)
                        requires
                            m >= 0,
                            p > 0,
                    ;
                } else {
                    lemma_pow2_pos((-scale) as nat);
                    let d = pow2((-scale) as nat) as int;
                    let q = (m * 200 + d) / (2 * d);
                    assert(0 <= q <= m * 200 + d) by (nonlinear_arith)
                        requires
                            q == (m * 200 + d) / (2 * d),
                            m >= 0,
                            d >= 1,
                    ;
                    assert(q <= m * 100 + 1) by (nonlinear_arith)
                        requires
                            q == (m * 200 + d) / (2 * d),
                            m >= 0,
                            d >= 1,
                    ;
                }
            }
        },
        Value::Str(s) => {
            if is_decimal(s) {
                let digits = whole_digits(s) + fraction_digits(s);
                assert(all_digits(digits)) by {
                    assert forall|i: int| 0 <= i < digits.len() implies is_digit(
                        #[trigger] digits[i],
                    ) by {
                        if i < whole_digits(s).len() {
                            assert(digits[i] == whole_digits(s)[i]);
                        } else {
                            assert(digits[i] == fraction_digits(s)[i - whole_digits(s).len()]);
                        }
                    }
                }
                lemma_number_not_negative(digits);
                lemma_scaled_not_negative(
                    number(digits),
                    exponent_value(s) - fraction_digits(s).len() + 2,
                );
            }
        },
        _ => {},
    }
}

/// The sign of the source does not reach the amount: a whole number and its
/// negative, a double and the double with the sign bit set, a text and the same
/// text behind a minus or a plus sign all give one amount.
pub proof fn lemma_amount_ignores_sign(v: i64, bits: u64, text: Seq<char>)
    ensures
        v > i64::MIN ==> amount_value(Value::Int((-v) as i64)) == amount_value(Value::Int(v)),
        bits < 0x8000_0000_0000_0000 ==> amount_value(
            Value::Float((bits + 0x8000_0000_0000_0000) as u64),
        ) == amount_value(Value::Float(bits)),
        text.len() > 0 && text[0] != '-' && text[0] != '+' ==> {
            &&& amount_value(Value::Str(seq!['-'] + text)) == amount_value(Value::Str(text))
            &&& amount_value(Value::Str(seq!['+'] + text)) == amount_value(Value::Str(text))
        },
{
    if text.len() > 0 && text[0] != '-' && text[0] != '+' {
        assert(unsigned_part(seq!['-'] + text) =~= text);
        assert(unsigned_part(seq!['+'] + text) =~= text);
        assert(unsigned_part(text) == text);
    }
    if bits < 0x8000_0000_0000_0000 {
        let flipped = (bits + 0x8000_0000_0000_0000) as u64;
        assert(float_exponent(flipped) == float_exponent(bits));
        assert(float_significand(flipped) == float_significand(bits));
    }
}

/// The largest number that a scan of digits still tells: ten to the 36th.
const SCAN_LIMIT: u128 = 1_000_000_000_000_000_000_000_000_000_000_000_000u128;

/// Reads the run of digits of `text` that starts at `from`: where it ends, and the
/// number it writes unless that number is past `SCAN_LIMIT`, which the flag then says.
fn scan_digits(text: &str, n: usize, from: usize) -> (r: (usize, u128, bool))
    requires
        from <= n == text@.len(),
    ensures
        from <= r.0 <= n,
        all_digits(text@.subrange(from as int, r.0 as int)),
        r.0 < n ==> !is_digit(text@[r.0 as int]),
        !r.2 ==> r.1 == number(text@.subrange(from as int, r.0 as int)) && r.1 <= SCAN_LIMIT,
        r.2 ==> number(text@.subrange(from as int, r.0 as int)) > SCAN_LIMIT,
{
    let mut i: usize = from;
    let mut value: u128 = 0;
    let mut big: bool = false;
    assert(text@.subrange(from as int, from as int) =~= Seq::<char>::empty());
    while i < n
        invariant
            from <= i <= n == text@.len(),
            all_digits(text@.subrange(from as int, i as int)),
            !big ==> value == number(text@.subrange(from as int, i as int)) && value <= SCAN_LIMIT,
            big ==> number(text@.subrange(from as int, i as int)) > SCAN_LIMIT,
        decreases n - i,
    {
        let c = text.get_char(i);
        let code: u32 = c as u32;
        if code < 48 || code > 57 {
            return (i, value, big);
        }
        let d: u128 = (code - 48) as u128;
        proof {
            let before = text@.subrange(from as int, i as int);
            let after = text@.subrange(from as int, i + 1);
            assert(after.drop_last() =~= before);
            assert(after.last() == c);
            assert(digit(c) == d);
            assert(all_digits(after)) by {
                assert forall|j: int| 0 <= j < after.len() implies is_digit(#[trigger] after[j]) by {
                    if j < before.len() {
                        assert(after[j] == before[j]);
                    }
                }
            }
        }
        if !big {
            value = value * 10 + d;
            if value > SCAN_LIMIT {
                big = true;
            }
        }
        i += 1;
    }
    (i, value, big)
}

/// The largest number that is still an amount when ten times as large: ten to the
/// 37th, less one.
const TENTH_LIMIT: u128 = 9_999_999_999_999_999_999_999_999_999_999_999_999u128;

/// The parts of a decimal text, by their positions in it.
struct Shape {
    /// Where the mantissa starts, behind the sign.
    start: usize,
    /// Where the whole digits end.
    point: usize,
    /// Whether a decimal point stands there.
    has_point: bool,
    /// Where the mantissa ends.
    end: usize,
    /// Whether the exponent has a minus sign.
    negative: bool,
    /// The magnitude of the exponent, unless it is far.
    exponent: u128,
    /// Whether the magnitude of the exponent is past `SCAN_LIMIT`.
    far: bool,
}

/// Whether a shape is that of a decimal text.
spec fn shape_fits(text: Seq<char>, shape: Shape) -> bool {
    &&& shape.start <= shape.point <= shape.end <= text.len()
    &&& is_decimal(text)
    &&& whole_digits(text) == text.subrange(shape.start as int, shape.point as int)
    &&& shape.has_point ==> shape.point < shape.end && fraction_digits(text) == text.subrange(
        shape.point + 1,
        shape.end as int,
    )
    &&& !shape.has_point ==> shape.point == shape.end && fraction_digits(text) == Seq::<
        char,
    >::empty()
    &&& !shape.far ==> shape.exponent <= SCAN_LIMIT && exponent_value(text) == (if shape.negative {
        -(shape.exponent as int)
    } else {
        shape.exponent as int
    })
    &&& shape.far ==> (if shape.negative {
        exponent_value(text) < -(SCAN_LIMIT as int)
    } else {
        exponent_value(text) > SCAN_LIMIT as int
    })
}

/// What two scans for digits have found of a text: behind the sign, at `start`, a
/// run of digits to `p`; then, where a point stands at `p`, a run of digits to `q`.
spec fn scanned(text: Seq<char>, start: int, p: int, has_point: bool, q: int) -> bool {
    &&& 0 <= start <= p <= q <= text.len()
    &&& unsigned_part(text) == text.skip(start)
    &&& all_digits(text.subrange(start, p))
    &&& has_point ==> p < q && text[p] == '.' && all_digits(text.subrange(p + 1, q))
    &&& !has_point ==> p == q && (p < text.len() ==> text[p] != '.')
    &&& q < text.len() ==> !is_digit(text[q])
}

/// No exponent mark stands among the characters that the scans went over.
proof fn lemma_scanned_no_mark(text: Seq<char>, start: int, p: int, has_point: bool, q: int)
    requires
        scanned(text, start, p, has_point, q),
    ensures
        forall|j: int| 0 <= j < q - start ==> !is_exponent_mark(#[trigger] unsigned_part(text)[j]),
{
    let body = unsigned_part(text);
    let whole = text.subrange(start, p);
    assert forall|j: int| 0 <= j < q - start implies !is_exponent_mark(#[trigger] body[j]) by {
        if j < p - start {
            assert(body[j] == whole[j]);
            assert(is_digit(whole[j]));
        } else if j == p - start {
            assert(body[j] == '.');
        } else {
            let fraction = text.subrange(p + 1, q);
            assert(body[j] == fraction[j - (p - start) - 1]);
            assert(is_digit(fraction[j - (p - start) - 1]));
        }
    }
}

/// A text whose scans stop at a character that is no exponent mark is no decimal.
proof fn lemma_scanned_refused(text: Seq<char>, start: int, p: int, has_point: bool, q: int)
    requires
        scanned(text, start, p, has_point, q),
        q < text.len(),
        !is_exponent_mark(text[q]),
    ensures
        !is_decimal(text),
{
    let body = unsigned_part(text);
    let whole = text.subrange(start, p);
    let x = q - start;
    lemma_scanned_no_mark(text, start, p, has_point, q);
    assert(body[x] == text[q]);
    assert forall|j: int| 0 <= j <= x implies !is_exponent_mark(#[trigger] body[j]) by {}
    lemma_mantissa_end_after(body, x);
    let m = mantissa(text);
    m.index_of_first_ensures('.');
    assert(forall|j: int| 0 <= j < m.len() ==> m[j] == body[j]);
    assert(m[x] == text[q]);
    if has_point {
        assert(m[p - start] == '.');
        assert forall|j: int| 0 <= j < p - start implies m[j] != '.' by {
            assert(m[j] == whole[j]);
            assert(is_digit(whole[j]));
        }
        assert(m.index_of_first('.') == Some(p - start));
        let f = fraction_digits(text);
        assert(f[q - p - 1] == m[x]);
        assert(!is_digit(f[q - p - 1]));
    } else {
        assert forall|j: int| 0 <= j < x implies m[j] != '.' by {
            assert(m[j] == whole[j]);
            assert(is_digit(whole[j]));
        }
        assert(m[x] != '.');
        let w = whole_digits(text);
        assert(w.len() > x);
        assert(w[x] == m[x]);
        assert(!is_digit(w[x]));
    }
}

/// A text whose scans stop at its end or at an exponent mark has the parts that the
/// scans went over as its whole and fractional digits.
proof fn lemma_scanned_parts(text: Seq<char>, start: int, p: int, has_point: bool, q: int)
    requires
        scanned(text, start, p, has_point, q),
        q < text.len() ==> is_exponent_mark(text[q]),
    ensures
        mantissa_end(unsigned_part(text)) == q - start,
        whole_digits(text) == text.subrange(start, p),
        fraction_digits(text) == if has_point {
            text.subrange(p + 1, q)
        } else {
            Seq::<char>::empty()
        },
        all_digits(whole_digits(text)),
        all_digits(fraction_digits(text)),
{
    let body = unsigned_part(text);
    let whole = text.subrange(start, p);
    lemma_scanned_no_mark(text, start, p, has_point, q);
    if q < text.len() {
        assert(body[q - start] == text[q]);
    }
    lemma_mantissa_end_at(body, q - start);
    let m = mantissa(text);
    assert(m =~= text.subrange(start, q));
    m.index_of_first_ensures('.');
    if has_point {
        assert(m[p - start] == '.');
        assert forall|j: int| 0 <= j < p - start implies m[j] != '.' by {
            assert(m[j] == whole[j]);
            assert(is_digit(whole[j]));
        }
        assert(m.index_of_first('.') == Some(p - start));
        assert(whole_digits(text) =~= whole);
        assert(fraction_digits(text) =~= text.subrange(p + 1, q));
    } else {
        assert(m =~= whole);
        assert forall|j: int| 0 <= j < m.len() implies m[j] != '.' by {
            assert(is_digit(whole[j]));
        }
        assert(m.index_of_first('.') is None);
    }
}

/// What stands behind an exponent mark at `q`: the text from there on, and behind its
/// sign the text from `from` on.
proof fn lemma_exponent_parts(text: Seq<char>, start: int, q: int, from: int)
    requires
        0 <= start <= q < text.len(),
        unsigned_part(text) == text.skip(start),
        mantissa_end(unsigned_part(text)) == q - start,
        q + 1 <= from <= text.len(),
        from == if q + 1 < text.len() && (text[q + 1] == '-' || text[q + 1] == '+') {
            q + 2
        } else {
            q + 1
        },
    ensures
        exponent_part(text) == Some(text.subrange(q + 1, text.len() as int)),
        unsigned_part(text.subrange(q + 1, text.len() as int)) == text.subrange(
            from,
            text.len() as int,
        ),
        exponent_value(text) == if q + 1 < text.len() && text[q + 1] == '-' {
            -number(text.subrange(from, text.len() as int))
        } else {
            number(text.subrange(from, text.len() as int))
        },
{
    let body = unsigned_part(text);
    let t = text.subrange(q + 1, text.len() as int);
    assert(body.skip(q - start + 1) =~= t);
    if t.len() > 0 {
        assert(t[0] == text[q + 1]);
    }
    assert(unsigned_part(t) =~= text.subrange(from, text.len() as int));
}

/// Whether the mantissa of a text has the given parts: it starts at `start`, its
/// whole digits end at `p`, and it ends at `q`, with at least one digit in it.
spec fn mantissa_fits(text: Seq<char>, start: int, p: int, has_point: bool, q: int) -> bool {
    &&& 0 <= start <= p <= q <= text.len()
    &&& unsigned_part(text) == text.skip(start)
    &&& mantissa_end(unsigned_part(text)) == q - start
    &&& whole_digits(text) == text.subrange(start, p)
    &&& has_point ==> p < q && fraction_digits(text) == text.subrange(p + 1, q)
    &&& !has_point ==> p == q && fraction_digits(text) == Seq::<char>::empty()
    &&& all_digits(whole_digits(text))
    &&& all_digits(fraction_digits(text))
    &&& whole_digits(text).len() + fraction_digits(text).len() > 0
}

/// Finds the mantissa of a decimal text, or that the text is none.
fn parse_mantissa(text: &str, n: usize) -> (r: Option<(usize, usize, bool, usize)>)
    requires
        n == text@.len(),
    ensures
        match r {
            Some((start, p, has_point, q)) => mantissa_fits(
                text@,
                start as int,
                p as int,
                has_point,
                q as int,
            ),
            None => !is_decimal(text@),
        },
{
    let mut start: usize = 0;
    if n > 0 {
        let c = text.get_char(0);
        if c == '-' || c == '+' {
            start = 1;
        }
    }
    assert(unsigned_part(text@) =~= text@.skip(start as int));
    let (p, _, _) = scan_digits(text, n, start);
    let mut has_point = false;
    let mut q = p;
    if p < n && text.get_char(p) == '.' {
        has_point = true;
        let (after, _, _) = scan_digits(text, n, p + 1);
        q = after;
    }
    assert(scanned(text@, start as int, p as int, has_point, q as int));
    let marked = if q < n {
        let c = text.get_char(q);
        c == 'e' || c == 'E'
    } else {
        false
    };
    if q < n && !marked {
        proof {
            lemma_scanned_refused(text@, start as int, p as int, has_point, q as int);
        }
        return None;
    }
    proof {
        lemma_scanned_parts(text@, start as int, p as int, has_point, q as int);
    }
    let digits = if has_point {
        (p - start) + (q - p - 1)
    } else {
        p - start
    };
    if digits == 0 {
        return None;
    }
    Some((start, p, has_point, q))
}

/// Finds the parts of a decimal text, or that the text is none.
fn parse_shape(text: &str, n: usize) -> (r: Option<Shape>)
    requires
        n == text@.len(),
    ensures
        match r {
            Some(shape) => shape_fits(text@, shape),
            None => !is_decimal(text@),
        },
{
    let (start, p, has_point, q) = match parse_mantissa(text, n) {
        Some(parts) => parts,
        None => {
            return None;
        },
    };
    if q == n {
        return Some(
            Shape { start, point: p, has_point, end: q, negative: false, exponent: 0, far: false },
        );
    }
    let mut from = q + 1;
    let mut negative = false;
    if from < n {
        let c = text.get_char(from);
        if c == '-' {
            negative = true;
            from = from + 1;
        } else if c == '+' {
            from = from + 1;
        }
    }
    let (r, value, far) = scan_digits(text, n, from);
    proof {
        lemma_exponent_parts(text@, start as int, q as int, from as int);
        let digits = text@.subrange(from as int, n as int);
        if r < n {
            assert(digits[r - from] == text@[r as int]);
        } else {
            assert(text@.subrange(from as int, r as int) =~= digits);
        }
    }
    if r < n || r == from {
        return None;
    }
    Some(Shape { start, point: p, has_point, end: q, negative, exponent: value, far })
}

/// Whether a list of digit values holds the values of a run of digits.
spec fn values_of(values: Seq<u8>, d: Seq<char>) -> bool {
    &&& values.len() == d.len()
    &&& all_digits(d)
    &&& forall|j: int| 0 <= j < d.len() ==> (#[trigger] values[j]) as int == digit(d[j])
}

/// Appends the values of the digits of `text` from `from` to `to`.
fn push_digits(text: &str, from: usize, to: usize, values: &mut Vec<u8>, Ghost(d): Ghost<Seq<char>>)
    requires
        from <= to <= text@.len(),
        all_digits(text@.subrange(from as int, to as int)),
        values_of(old(values)@, d),
    ensures
        values_of(final(values)@, d + text@.subrange(from as int, to as int)),
{
    let ghost run = text@.subrange(from as int, to as int);
    let mut i: usize = from;
    assert(d + run.take(0) =~= d);
    while i < to
        invariant
            from <= i <= to <= text@.len(),
            run == text@.subrange(from as int, to as int),
            all_digits(run),
            values_of(values@, d + run.take(i - from)),
        decreases to - i,
    {
        let code: u32 = text.get_char(i) as u32;
        assert(run[i - from] == text@[i as int]);
        assert(is_digit(run[i - from]));
        let ghost before = d + run.take(i - from);
        values.push((code - 48) as u8);
        proof {
            let after = d + run.take(i + 1 - from);
            assert(after =~= before.push(run[i - from]));
            assert forall|j: int| 0 <= j < after.len() implies is_digit(#[trigger] after[j]) by {
                if j < before.len() {
                    assert(after[j] == before[j]);
                }
            }
        }
        i += 1;
    }
    assert(run.take(to - from) =~= run);
}

/// The number that the first `count` digits write, unless it is past the largest
/// amount, which the flag then says.
fn prefix_number(values: &Vec<u8>, count: usize, Ghost(d): Ghost<Seq<char>>) -> (r: (u128, bool))
    requires
        count <= values@.len(),
        values_of(values@, d),
    ensures
        !r.1 ==> r.0 == number(d.take(count as int)) && r.0 <= MAX_UNSCALED,
        r.1 ==> number(d.take(count as int)) > MAX_UNSCALED,
{
    let mut acc: u128 = 0;
    let mut j: usize = 0;
    assert(d.take(0) =~= Seq::<char>::empty());
    while j < count
        invariant
            j <= count <= values@.len(),
            values_of(values@, d),
            acc == number(d.take(j as int)),
            acc <= MAX_UNSCALED,
        decreases count - j,
    {
        let v = values[j] as u128;
        proof {
            assert(is_digit(d[j as int]));
            assert(d.take(j + 1).drop_last() =~= d.take(j as int));
            assert(d.take(j + 1).last() == d[j as int]);
        }
        if acc > TENTH_LIMIT {
            proof {
                lemma_all_digits_parts(d, j + 1);
                lemma_number_append(d.take(j + 1), d.take(count as int).skip(j + 1));
                assert(d.take(count as int) =~= d.take(j + 1) + d.take(count as int).skip(j + 1));
                lemma_all_digits_parts(d, count as int);
                lemma_all_digits_parts(d.take(count as int), j + 1);
                lemma_number_not_negative(d.take(count as int).skip(j + 1));
                let rest = d.take(count as int).skip(j + 1);
                lemma_pow_positive(10, rest.len());
                let head = number(d.take(j + 1));
                let p = pow(10, rest.len());
                let t = number(rest);
                assert(head * p + t > MAX_UNSCALED) by (nonlinear_arith)
                    requires
                        head > MAX_UNSCALED,
                        p >= 1,
                        t >= 0,
                ;
            }
            return (acc, true);
        }
        acc = acc * 10 + v;
        j += 1;
    }
    (acc, false)
}

/// Amount of a text cell.
pub fn amount_of_text(text: &str) -> (r: Option<i128>)
    ensures
        r == text_amount(text@),
        r matches Some(a) ==> 0 <= a <= MAX_UNSCALED,
{
    let n = text.unicode_len();
    let shape = match parse_shape(text, n) {
        Some(shape) => shape,
        None => {
            return None;
        },
    };
    let ghost whole = whole_digits(text@);
    let ghost fraction = fraction_digits(text@);
    let ghost d = whole + fraction;
    let mut values: Vec<u8> = Vec::new();
    assert(values_of(values@, Seq::<char>::empty()));
    push_digits(text, shape.start, shape.point, &mut values, Ghost(Seq::<char>::empty()));
    assert(Seq::<char>::empty() + whole =~= whole);
    if shape.has_point {
        push_digits(text, shape.point + 1, shape.end, &mut values, Ghost(whole));
    } else {
        assert(whole + fraction =~= whole);
    }
    let len = values.len();
    let places = len - (shape.point - shape.start);
    let ghost shift = exponent_value(text@) - fraction.len() + 2;
    proof {
        lemma_number_below(d);
        lemma_pow10_39();
        assert(d.take(len as int) =~= d);
    }
    // The shift is known unless the exponent is far; `up` and `down` say on which side.
    let mut known: i128 = 0;
    let mut up = false;
    let mut down = false;
    if shape.far {
        if shape.negative {
            down = true;
        } else {
            up = true;
        }
    } else {
        let e: i128 = if shape.negative {
            -(shape.exponent as i128)
        } else {
            shape.exponent as i128
        };
        known = e + 2 - (places as i128);
        if known >= 40 {
            up = true;
        } else if known < 0 && -known > len as i128 {
            down = true;
        }
    }
    assert(up ==> shift >= 40);
    assert(down ==> -shift > len);
    assert(!up && !down ==> shift == known && shift < 40 && -shift <= len);
    if down {
        proof {
            lemma_scaled_far_down(number(d), len as nat, (-shift) as nat);
        }
        return Some(0);
    }
    if up || known >= 0 {
        let (total, big) = prefix_number(&values, len, Ghost(d));
        proof {
            lemma_pow_positive(10, shift as nat);
        }
        if big {
            proof {
                let nd = number(d);
                let p = pow(10, shift as nat);
                assert(nd * p > MAX_UNSCALED) by (nonlinear_arith)
                    requires
                        nd > MAX_UNSCALED,
                        p >= 1,
                ;
            }
            return None;
        }
        if total == 0 {
            proof {
                let p = pow(10, shift as nat);
                assert(0 * p == 0) by (nonlinear_arith);
            }
            return Some(0);
        }
        if up {
            proof {
                lemma_pow_increases(10, 39, shift as nat);
                let nd = number(d);
                let p = pow(10, shift as nat);
                assert(nd * p > MAX_UNSCALED) by (nonlinear_arith)
                    requires
                        nd >= 1,
                        p >= 1_000_000_000_000_000_000_000_000_000_000_000_000_000,
                ;
            }
            return None;
        }
        let steps: u32 = known as u32;
        let mut current: u128 = total;
        let mut j: u32 = 0;
        proof {
            lemma_pow0(10);
        }
        assert(text_hundredths(text@) == number(d) * pow(10, shift as nat));
        while j < steps
            invariant
                j <= steps == shift < 40,
                current == number(d) * pow(10, j as nat),
                1 <= current <= MAX_UNSCALED,
                is_decimal(text@),
                text_hundredths(text@) == number(d) * pow(10, shift as nat),
            decreases steps - j,
        {
            proof {
                lemma_pow_adds(10, j as nat, 1);
                lemma_pow1(10);
                lemma_pow_adds(10, (j + 1) as nat, (steps - j - 1) as nat);
                lemma_pow_positive(10, (steps - j - 1) as nat);
                let nd = number(d);
                let pj = pow(10, j as nat);
                assert(nd * (pj * 10) == (nd * pj) * 10) by (nonlinear_arith);
            }
            if current > TENTH_LIMIT {
                proof {
                    let next = number(d) * pow(10, (j + 1) as nat);
                    let rest = pow(10, (steps - j - 1) as nat);
                    assert(shift as nat == (j + 1) as nat + (steps - j - 1) as nat);
                    assert(number(d) * pow(10, shift as nat) == next * rest) by (nonlinear_arith)
                        requires
                            pow(10, shift as nat) == pow(10, (j + 1) as nat) * rest,
                            next == number(d) * pow(10, (j + 1) as nat),
                    ;
                    assert(next * rest > MAX_UNSCALED) by (nonlinear_arith)
                        requires
                            next > MAX_UNSCALED,
                            rest >= 1,
                    ;
                }
                return None;
            }
            current = current * 10;
            j += 1;
        }
        return Some(current as i128);
    }
    let cut: usize = len - ((-known) as usize);
    let (kept, big) = prefix_number(&values, cut, Ghost(d));
    proof {
        lemma_scaled_cut(d, cut as int);
        lemma_all_digits_parts(d, cut as int);
        lemma_number_not_negative(d.take(cut as int));
        assert(is_digit(d[cut as int]));
    }
    if big {
        return None;
    }
    let round: u128 = if values[cut] >= 5 {
        1
    } else {
        0
    };
    let h: u128 = kept + round;
    if h <= MAX_UNSCALED as u128 {
        Some(h as i128)
    } else {
        None
    }
}

/// Amount of a cell, in hundredths.
pub fn amount_of(cell: &Cell) -> (r: Option<i128>)
    ensures
        r == amount_value(cell@),
        r matches Some(a) ==> 0 <= a <= MAX_UNSCALED,
{
    match cell {
        Cell::Int(v) => Some(amount_of_int(*v)),
        Cell::Float(bits) => amount_of_float(*bits),
        Cell::Str(text) => amount_of_text(text.as_str()),
        _ => None,
    }
}

/// The amount of a cell: numbers and numeric text give the hundredths of their
/// magnitude; every other cell gives null.
pub open spec fn amount_value(v: Value) -> Option<i128> {
    match v {
        Value::Int(i) => Some(int_amount(i) as i128),
        Value::Float(bits) => float_amount(bits),
        Value::Str(s) => text_amount(s),
        _ => None,
    }
}

} // verus!
