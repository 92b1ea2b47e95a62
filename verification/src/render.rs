//! The text of a decimal.
//!
//! A mantissa and an exponent are written as the digits of the integer part
//! without leading zeros, then, where there are digits behind the dot, a dot
//! and exactly those digits. A number below one starts with the dot. The
//! shortest text of a number is the text of the pair from which the zeros
//! at the end of the fraction have been dropped.
use crate::numeral::{
    all_digits, decimal_value, exponent_of, is_digit, is_dot, lemma_digits_have_no_dot,
    lemma_prefix_value_agrees, lemma_prefix_value_concat, mantissa_of, pow10, prefix_value,
    well_formed, without_dot, ASCII_DOT, ASCII_ZERO,
};
use crate::search::lemma_first_index_of_is;
use vstd::arithmetic::div_mod::{
    lemma_fundamental_div_mod, lemma_mod_bound, lemma_mod_breakdown, lemma_multiply_divide_lt,
    lemma_small_mod,
};
use vstd::prelude::*;

verus! {

/// How many decimal digits `n` has; zero has none.
pub open spec fn digit_count(n: nat) -> nat
    decreases n,
{
    if n == 0 {
        0
    } else {
        1 + digit_count(n / 10)
    }
}

/// The last `width` decimal digits of `n` in ASCII, the most significant
/// first, with zeros in front where `n` has fewer.
pub open spec fn digits(n: nat, width: nat) -> Seq<u8>
    decreases width,
{
    if width == 0 {
        Seq::empty()
    } else {
        digits(n / 10, (width - 1) as nat).push((ASCII_ZERO + n % 10) as u8)
    }
}

/// The pair that stands for the same number with no zero at the end of its
/// fraction.
pub open spec fn canonical(mantissa: nat, exponent: nat) -> (nat, nat)
    decreases exponent,
{
    if exponent > 0 && mantissa % 10 == 0 {
        canonical(mantissa / 10, (exponent - 1) as nat)
    } else {
        (mantissa, exponent)
    }
}

/// The text of `mantissa / 10^exponent` with exactly `exponent` digits
/// behind the dot.
pub open spec fn fixed_text(mantissa: nat, exponent: nat) -> Seq<u8> {
    let whole = mantissa / pow10(exponent);
    let fraction = mantissa % pow10(exponent);
    if exponent > 0 {
        digits(whole, digit_count(whole)) + seq![ASCII_DOT] + digits(fraction, exponent)
    } else if mantissa == 0 {
        seq![ASCII_ZERO]
    } else {
        digits(mantissa, digit_count(mantissa))
    }
}

/// The shortest text of `mantissa / 10^exponent`.
pub open spec fn minimal_text(mantissa: nat, exponent: nat) -> Seq<u8> {
    fixed_text(canonical(mantissa, exponent).0, canonical(mantissa, exponent).1)
}

/// Ten to any power is positive.
pub proof fn lemma_pow10_positive(n: nat)
    ensures
        pow10(n) > 0,
    decreases n,
{
    if n > 0 {
        lemma_pow10_positive((n - 1) as nat);
    }
}

/// `digits(n, width)` is `width` digits that spell `n` modulo ten to the
/// `width`.
pub proof fn lemma_digits(n: nat, width: nat)
    ensures
        digits(n, width).len() == width,
        all_digits(digits(n, width)),
        decimal_value(digits(n, width)) == n % pow10(width),
    decreases width,
{
    if width == 0 {
        assert(pow10(0) == 1);
    } else {
        let shorter = (width - 1) as nat;
        let rest = digits(n / 10, shorter);
        let all = digits(n, width);
        lemma_digits(n / 10, shorter);
        assert(all == rest.push((ASCII_ZERO + n % 10) as u8));
        assert forall|i: int| 0 <= i < all.len() implies is_digit(#[trigger] all[i]) by {
            if i < shorter {
                assert(is_digit(rest[i]));
            }
        }
        lemma_prefix_value_agrees(all, rest, shorter as int);
        lemma_pow10_positive(shorter);
        lemma_mod_breakdown(n as int, 10, pow10(shorter) as int);
        assert(all[width - 1] - ASCII_ZERO == n % 10);
        assert(prefix_value(all, width as int) == 10 * prefix_value(all, width - 1) + n % 10);
    }
}

/// A number is below ten to the count of its digits, and not below ten to
/// one less.
pub proof fn lemma_digit_count(n: nat)
    ensures
        n < pow10(digit_count(n)),
        n > 0 ==> pow10((digit_count(n) - 1) as nat) <= n,
    decreases n,
{
    if n > 0 {
        lemma_digit_count(n / 10);
    }
}

/// The digits of a number, as many as it has, spell the number.
pub proof fn lemma_own_digits(n: nat)
    ensures
        digits(n, digit_count(n)).len() == digit_count(n),
        all_digits(digits(n, digit_count(n))),
        decimal_value(digits(n, digit_count(n))) == n,
{
    lemma_digits(n, digit_count(n));
    lemma_digit_count(n);
    lemma_small_mod(n, pow10(digit_count(n)));
}

/// The canonical pair stands for the same number, has no more digits behind
/// the dot, and ends in no zero behind the dot.
pub proof fn lemma_canonical(mantissa: nat, exponent: nat)
    ensures
        canonical(mantissa, exponent).1 <= exponent,
        canonical(mantissa, exponent).0 * pow10(
            (exponent - canonical(mantissa, exponent).1) as nat,
        ) == mantissa,
        canonical(mantissa, exponent).1 == 0 || canonical(mantissa, exponent).0 % 10 != 0,
        exponent == 0 || mantissa % 10 != 0 ==> canonical(mantissa, exponent) == (
            mantissa,
            exponent,
        ),
    decreases exponent,
{
    if exponent > 0 && mantissa % 10 == 0 {
        let less = (exponent - 1) as nat;
        lemma_canonical(mantissa / 10, less);
        let kept = canonical(mantissa, exponent);
        let scale = pow10((less - kept.1) as nat);
        assert(pow10((exponent - kept.1) as nat) == 10 * scale);
        assert(kept.0 * (10 * scale) == 10 * (kept.0 * scale)) by (nonlinear_arith);
    } else {
        assert(pow10(0) == 1);
        assert(mantissa * 1 == mantissa) by (nonlinear_arith);
    }
}

/// The text of a pair is a numeral, and the numeral's mantissa and exponent
/// are the pair.
pub proof fn lemma_fixed_text(mantissa: nat, exponent: nat)
    ensures
        fixed_text(mantissa, exponent).len() >= 1,
        well_formed(fixed_text(mantissa, exponent)),
        mantissa_of(fixed_text(mantissa, exponent)) == mantissa,
        exponent_of(fixed_text(mantissa, exponent)) == exponent,
{
    let text = fixed_text(mantissa, exponent);
    if exponent > 0 {
        let scale = pow10(exponent);
        lemma_pow10_positive(exponent);
        let whole = mantissa / scale;
        let fraction = mantissa % scale;
        let front = digits(whole, digit_count(whole));
        let back = digits(fraction, exponent);
        lemma_own_digits(whole);
        lemma_digits(fraction, exponent);
        lemma_mod_bound(mantissa as int, scale as int);
        lemma_small_mod(fraction, scale);
        lemma_fundamental_div_mod(mantissa as int, scale as int);
        let at = front.len() as int;
        assert(text == front + seq![ASCII_DOT] + back);
        assert(text[at] == ASCII_DOT);
        assert forall|j: int| 0 <= j < at implies text[j] != ASCII_DOT by {
            assert(is_digit(front[j]));
        }
        lemma_first_index_of_is(text, ASCII_DOT, at);
        assert(without_dot(text) =~= front + back);
        lemma_prefix_value_concat(front, back, exponent as int);
        assert(whole * scale == scale * whole) by (nonlinear_arith);
        assert forall|i: int| 0 <= i < text.len() implies is_digit(#[trigger] text[i]) || is_dot(
            text[i],
        ) by {
            if i < at {
                assert(is_digit(front[i]));
            } else if i > at {
                assert(is_digit(back[i - at - 1]));
            }
        }
        assert forall|i: int, j: int| 0 <= i < j < text.len() implies !(is_dot(#[trigger] text[i])
            && is_dot(#[trigger] text[j])) by {
            if i < at {
                assert(is_digit(front[i]));
            } else {
                assert(is_digit(back[j - at - 1]));
            }
        }
    } else if mantissa == 0 {
        assert(is_digit(text[0]));
        lemma_digits_have_no_dot(text);
        assert(prefix_value(text, 1) == 10 * prefix_value(text, 0) + (text[0] - ASCII_ZERO));
    } else {
        lemma_own_digits(mantissa);
        lemma_digits_have_no_dot(text);
    }
}

/// Ten to a power does not shrink when the power grows.
pub proof fn lemma_pow10_grows(small: nat, large: nat)
    requires
        small <= large,
    ensures
        0 < pow10(small) <= pow10(large),
    decreases large,
{
    if large == 0 {
    } else if small < large {
        lemma_pow10_grows(small, (large - 1) as nat);
    } else {
        lemma_pow10_grows((small - 1) as nat, (large - 1) as nat);
    }
}

/// Ten to a sum of powers is the product of ten to each.
pub proof fn lemma_pow10_adds(left: nat, right: nat)
    ensures
        pow10(left + right) == pow10(left) * pow10(right),
    decreases left,
{
    if left == 0 {
        assert(pow10(0) == 1);
        assert(1 * pow10(right) == pow10(right)) by (nonlinear_arith);
    } else {
        let less = (left - 1) as nat;
        lemma_pow10_adds(less, right);
        assert(pow10(left + right) == 10 * pow10(less + right));
        assert(10 * (pow10(less) * pow10(right)) == (10 * pow10(less)) * pow10(right))
            by (nonlinear_arith);
    }
}

/// A number below ten to the `k` has at most `k` digits.
pub proof fn lemma_digit_count_bound(n: nat, k: nat)
    requires
        n < pow10(k),
    ensures
        digit_count(n) <= k,
{
    lemma_digit_count(n);
    if n > 0 && digit_count(n) > k {
        lemma_pow10_grows(k, (digit_count(n) - 1) as nat);
    }
}

/// The shortest text of a number of at most fifteen digits with up to
/// fifteen of them behind the dot, and of an integer of at most sixteen
/// digits, is no longer than sixteen bytes.
pub proof fn lemma_minimal_text_fits(mantissa: nat, exponent: nat)
    requires
        mantissa < pow10(16),
        exponent <= 15,
        exponent == 0 || mantissa < pow10(15),
    ensures
        1 <= minimal_text(mantissa, exponent).len() <= 16,
{
    let kept = canonical(mantissa, exponent);
    lemma_canonical(mantissa, exponent);
    lemma_fixed_text(kept.0, kept.1);
    let gone = (exponent - kept.1) as nat;
    lemma_pow10_positive(gone);
    assert(kept.0 <= mantissa) by (nonlinear_arith)
        requires
            kept.0 * pow10(gone) == mantissa,
            pow10(gone) >= 1,
    ;
    if kept.1 > 0 {
        let scale = pow10(kept.1);
        let room = (15 - kept.1) as nat;
        let whole = kept.0 / scale;
        lemma_pow10_positive(kept.1);
        lemma_pow10_adds(kept.1, room);
        lemma_multiply_divide_lt(kept.0 as int, scale as int, pow10(room) as int);
        lemma_digit_count_bound(whole, room);
        lemma_own_digits(whole);
        lemma_digits(kept.0 % scale, kept.1);
    } else if kept.0 > 0 {
        lemma_digit_count_bound(kept.0, 16);
        lemma_own_digits(kept.0);
    }
}

} // verus!
