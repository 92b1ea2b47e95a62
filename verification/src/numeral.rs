//! What a decimal numeral is and what it is worth.
//!
//! A numeral is a sequence of ASCII bytes: decimal digits with at most one
//! `.` among them. Its mantissa is the integer that the digits spell once the
//! dot is taken out; its exponent is the count of digits behind the dot. The
//! numeral then stands for `mantissa / 10^exponent`.
use crate::search::{first_index_of, lemma_first_index_of};
use vstd::prelude::*;

verus! {

/// ASCII code of `0`.
pub const ASCII_ZERO: u8 = 48;

/// ASCII code of `9`.
pub const ASCII_NINE: u8 = 57;

/// ASCII code of `.`.
pub const ASCII_DOT: u8 = 46;

/// The largest mantissa there is: sixteen nines.
pub const MAX_MANTISSA: u64 = 9999999999999999;

/// `byte` is one of `0` to `9`.
pub open spec fn is_digit(byte: u8) -> bool {
    ASCII_ZERO <= byte <= ASCII_NINE
}

/// `byte` is `.`.
pub open spec fn is_dot(byte: u8) -> bool {
    byte == ASCII_DOT
}

/// Every byte of `s` is a decimal digit.
pub open spec fn all_digits(s: Seq<u8>) -> bool {
    forall|i: int| 0 <= i < s.len() ==> is_digit(#[trigger] s[i])
}

/// Every byte of `s` is a decimal digit or a dot, and no two are dots.
pub open spec fn well_formed(s: Seq<u8>) -> bool {
    &&& forall|i: int| 0 <= i < s.len() ==> is_digit(#[trigger] s[i]) || is_dot(s[i])
    &&& forall|i: int, j: int|
        0 <= i < j < s.len() ==> !(is_dot(#[trigger] s[i]) && is_dot(#[trigger] s[j]))
}

/// Index of the first dot of `s`, or `s.len()` where `s` has none.
pub open spec fn dot_index(s: Seq<u8>) -> int {
    first_index_of(s, ASCII_DOT)
}

/// `s` holds a dot.
pub open spec fn has_dot(s: Seq<u8>) -> bool {
    dot_index(s) < s.len()
}

/// The bytes of `s` without its first dot.
pub open spec fn without_dot(s: Seq<u8>) -> Seq<u8> {
    if has_dot(s) {
        s.remove(dot_index(s))
    } else {
        s
    }
}

/// The integer spelled by the first `n` bytes of the digit string `s`.
pub open spec fn prefix_value(s: Seq<u8>, n: int) -> nat
    decreases n,
{
    if n <= 0 {
        0
    } else {
        10 * prefix_value(s, n - 1) + (s[n - 1] - ASCII_ZERO) as nat
    }
}

/// The integer spelled by the digit string `s`; the empty string spells 0.
pub open spec fn decimal_value(s: Seq<u8>) -> nat {
    prefix_value(s, s.len() as int)
}

/// The digits of `s` read as one integer, the dot left out.
pub open spec fn mantissa_of(s: Seq<u8>) -> nat {
    decimal_value(without_dot(s))
}

/// How many digits of `s` stand behind its dot; 0 where there is no dot.
pub open spec fn exponent_of(s: Seq<u8>) -> nat {
    if has_dot(s) {
        (s.len() - dot_index(s) - 1) as nat
    } else {
        0
    }
}

/// Mantissa and exponent of the numeral `s`.
pub open spec fn value_of(s: Seq<u8>) -> (nat, nat) {
    (mantissa_of(s), exponent_of(s))
}

/// Whether the kernel takes `s` for a numeral. A caller that has promised
/// integers gets dots refused like any other foreign byte.
pub open spec fn accepted(s: Seq<u8>, known_integer: bool) -> bool {
    if known_integer {
        all_digits(s)
    } else {
        well_formed(s)
    }
}

/// Ten to the power `n`.
pub open spec fn pow10(n: nat) -> nat
    decreases n,
{
    if n == 0 {
        1
    } else {
        10 * pow10((n - 1) as nat)
    }
}

/// The integer spelled by the digits before the dot of `s`, or by all of `s`
/// where it has no dot.
pub open spec fn integer_part(s: Seq<u8>) -> nat {
    decimal_value(s.subrange(0, dot_index(s)))
}

/// The integer spelled by the digits behind the dot of `s`; 0 where there is
/// no dot.
pub open spec fn fraction_part(s: Seq<u8>) -> nat {
    if has_dot(s) {
        decimal_value(s.subrange(dot_index(s) + 1, s.len() as int))
    } else {
        0
    }
}

/// A string of digits has no dot.
pub proof fn lemma_digits_have_no_dot(s: Seq<u8>)
    requires
        all_digits(s),
    ensures
        !has_dot(s),
        without_dot(s) == s,
        well_formed(s),
{
    lemma_first_index_of(s, ASCII_DOT);
    if has_dot(s) {
        assert(is_digit(s[dot_index(s)]));
    }
    assert forall|i: int, j: int| 0 <= i < j < s.len() implies !(is_dot(#[trigger] s[i]) && is_dot(
        #[trigger] s[j],
    )) by {
        assert(is_digit(s[i]));
    }
}

/// The bytes of a string without its dot, place by place.
pub proof fn lemma_without_dot_index(s: Seq<u8>, j: int)
    requires
        has_dot(s),
        0 <= j < s.len() - 1,
    ensures
        0 <= dot_index(s) < s.len(),
        without_dot(s).len() == s.len() - 1,
        without_dot(s)[j] == if j < dot_index(s) {
            s[j]
        } else {
            s[j + 1]
        },
{
    lemma_first_index_of(s, ASCII_DOT);
}

/// Digits with at most one dot are digits alone once the dot is taken out.
pub proof fn lemma_well_formed_without_dot(s: Seq<u8>)
    requires
        well_formed(s),
    ensures
        all_digits(without_dot(s)),
{
    lemma_first_index_of(s, ASCII_DOT);
    let d = dot_index(s);
    let t = without_dot(s);
    if has_dot(s) {
        assert(is_dot(s[d]));
        assert forall|j: int| 0 <= j < t.len() implies is_digit(#[trigger] t[j]) by {
            lemma_without_dot_index(s, j);
            if j < d {
                assert(is_digit(s[j]) || is_dot(s[j]));
                assert(s[j] != ASCII_DOT);
            } else {
                assert(is_digit(s[j + 1]) || is_dot(s[j + 1]));
                assert(!(is_dot(s[d]) && is_dot(s[j + 1])));
            }
        }
    } else {
        assert forall|j: int| 0 <= j < s.len() implies is_digit(#[trigger] s[j]) by {
            assert(is_digit(s[j]) || is_dot(s[j]));
            assert(s[j] != ASCII_DOT);
        }
    }
}

/// A string that is digits alone once its first dot is taken out was digits
/// with at most one dot.
pub proof fn lemma_without_dot_well_formed(s: Seq<u8>)
    requires
        all_digits(without_dot(s)),
    ensures
        well_formed(s),
{
    lemma_first_index_of(s, ASCII_DOT);
    let d = dot_index(s);
    let t = without_dot(s);
    if has_dot(s) {
        assert forall|i: int| 0 <= i < s.len() && i != d implies is_digit(s[i]) by {
            if i < d {
                lemma_without_dot_index(s, i);
                assert(is_digit(t[i]));
            } else {
                lemma_without_dot_index(s, i - 1);
                assert(is_digit(t[i - 1]));
            }
        }
        assert forall|i: int| 0 <= i < s.len() implies is_digit(#[trigger] s[i]) || is_dot(
            s[i],
        ) by {
            if i != d {
                assert(is_digit(s[i]));
            }
        }
        assert forall|i: int, j: int| 0 <= i < j < s.len() implies !(is_dot(#[trigger] s[i])
            && is_dot(#[trigger] s[j])) by {
            if i != d {
                assert(is_digit(s[i]));
            } else {
                assert(is_digit(s[j]));
            }
        }
    } else {
        lemma_digits_have_no_dot(s);
    }
}

/// Taking the first dot out leaves digits only exactly when the string was
/// digits with at most one dot.
pub proof fn lemma_without_dot(s: Seq<u8>)
    ensures
        all_digits(without_dot(s)) <==> well_formed(s),
        all_digits(s) ==> !has_dot(s),
        without_dot(s).len() <= s.len(),
{
    lemma_first_index_of(s, ASCII_DOT);
    if well_formed(s) {
        lemma_well_formed_without_dot(s);
    }
    if all_digits(without_dot(s)) {
        lemma_without_dot_well_formed(s);
    }
    if all_digits(s) {
        lemma_digits_have_no_dot(s);
    }
}

/// The value of a prefix depends on the bytes of the prefix alone.
pub proof fn lemma_prefix_value_agrees(x: Seq<u8>, y: Seq<u8>, n: int)
    requires
        forall|i: int| 0 <= i < n ==> x[i] == y[i],
    ensures
        prefix_value(x, n) == prefix_value(y, n),
    decreases n,
{
    if n > 0 {
        lemma_prefix_value_agrees(x, y, n - 1);
    }
}

/// A string of `n` digits spells a number below ten to the `n`.
pub proof fn lemma_prefix_value_bound(s: Seq<u8>, n: int)
    requires
        0 <= n <= s.len(),
        all_digits(s),
    ensures
        prefix_value(s, n) < pow10(n as nat),
    decreases n,
{
    if n > 0 {
        lemma_prefix_value_bound(s, n - 1);
        assert(is_digit(s[n - 1]));
    }
}

/// Appending digits shifts what stood before by as many decimal places:
/// the first `a.len() + n` bytes of `a + b` spell `a`'s number times ten to
/// the `n`, plus the number of the first `n` bytes of `b`.
pub proof fn lemma_prefix_value_concat(a: Seq<u8>, b: Seq<u8>, n: int)
    requires
        0 <= n <= b.len(),
    ensures
        prefix_value(a + b, a.len() + n) == decimal_value(a) * pow10(n as nat) + prefix_value(b, n),
    decreases n,
{
    let whole = a + b;
    let high = decimal_value(a);
    if n == 0 {
        lemma_prefix_value_agrees(whole, a, a.len() as int);
        assert(pow10(0) == 1);
        assert(high * 1 == high) by (nonlinear_arith);
    } else {
        lemma_prefix_value_concat(a, b, n - 1);
        assert(whole[a.len() + n - 1] == b[n - 1]);
        let scale = pow10((n - 1) as nat);
        assert(pow10(n as nat) == 10 * scale);
        assert(prefix_value(whole, a.len() + n - 1) == high * scale + prefix_value(b, n - 1));
        assert(10 * (high * scale) == high * (10 * scale)) by (nonlinear_arith);
    }
}

/// The digit strings before and behind the dot of a numeral are digits, and
/// together they are the numeral without its dot.
pub proof fn lemma_parts(s: Seq<u8>)
    requires
        well_formed(s),
    ensures
        0 <= dot_index(s) <= s.len(),
        all_digits(s.subrange(0, dot_index(s))),
        has_dot(s) ==> all_digits(s.subrange(dot_index(s) + 1, s.len() as int)),
        has_dot(s) ==> without_dot(s) == s.subrange(0, dot_index(s)) + s.subrange(
            dot_index(s) + 1,
            s.len() as int,
        ),
        !has_dot(s) ==> without_dot(s) == s.subrange(0, dot_index(s)),
{
    lemma_first_index_of(s, ASCII_DOT);
    let d = dot_index(s);
    let before = s.subrange(0, d);
    assert forall|i: int| 0 <= i < before.len() implies is_digit(#[trigger] before[i]) by {
        assert(is_digit(s[i]) || is_dot(s[i]));
        assert(s[i] != ASCII_DOT);
    }
    if has_dot(s) {
        let behind = s.subrange(d + 1, s.len() as int);
        assert(is_dot(s[d]));
        assert forall|i: int| 0 <= i < behind.len() implies is_digit(#[trigger] behind[i]) by {
            assert(is_digit(s[d + 1 + i]) || is_dot(s[d + 1 + i]));
            assert(!(is_dot(s[d]) && is_dot(s[d + 1 + i])));
        }
    } else {
        assert(before =~= s);
    }
}

} // verus!
