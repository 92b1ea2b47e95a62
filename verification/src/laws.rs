//! What holds of the kernel for every input.
//!
//! The parsing functions promise that a batch is accepted exactly when each
//! of its numerals is, and that the outputs of an accepted batch are the
//! numerals' values. The statements here say what that verdict and those
//! values are worth.
use crate::numeral::{
    accepted, all_digits, decimal_value, dot_index, exponent_of, fraction_part, has_dot,
    integer_part, is_digit, is_dot, lemma_digits_have_no_dot, lemma_parts,
    lemma_prefix_value_bound, lemma_prefix_value_concat, lemma_without_dot, mantissa_of, pow10,
    value_of, well_formed, without_dot, ASCII_DOT, MAX_MANTISSA,
};
use crate::render::{
    canonical, lemma_canonical, lemma_fixed_text, lemma_minimal_text_fits, lemma_pow10_grows,
    minimal_text,
};
use crate::search::{lemma_first_index_of, lemma_first_index_of_is};
use crate::{batch_accepted, batch_parsed, ParseInput, ParseOutput};
use vstd::prelude::*;

verus! {

/// A string of digits with at most one dot is accepted, and its mantissa
/// and exponent stand for the number it spells: the mantissa is the integer
/// part shifted left by as many decimal places as there are digits behind
/// the dot, plus the fraction's digits, which are fewer than a unit of the
/// integer part. Within sixteen bytes the mantissa is at most sixteen nines,
/// and at most fifteen where one of the bytes is the dot.
pub proof fn law_validity_preservation(s: Seq<u8>)
    requires
        well_formed(s),
    ensures
        accepted(s, false),
        mantissa_of(s) == integer_part(s) * pow10(exponent_of(s)) + fraction_part(s),
        fraction_part(s) < pow10(exponent_of(s)),
        s.len() <= 16 ==> mantissa_of(s) <= MAX_MANTISSA,
        s.len() <= 16 && has_dot(s) ==> mantissa_of(s) <= 999999999999999,
{
    lemma_parts(s);
    let d = dot_index(s);
    let before = s.subrange(0, d);
    if has_dot(s) {
        let behind = s.subrange(d + 1, s.len() as int);
        lemma_prefix_value_concat(before, behind, behind.len() as int);
        lemma_prefix_value_bound(behind, behind.len() as int);
    } else {
        assert(integer_part(s) * 1 == integer_part(s)) by (nonlinear_arith);
    }
    if s.len() <= 16 {
        let digits = without_dot(s);
        lemma_without_dot(s);
        lemma_prefix_value_bound(digits, digits.len() as int);
        assert(pow10(15) == 1000000000000000 && pow10(16) == 10000000000000000) by {
            reveal_with_fuel(pow10, 17);
        }
        if has_dot(s) {
            lemma_pow10_grows(digits.len(), 15);
        } else {
            lemma_pow10_grows(digits.len(), 16);
        }
    }
}

/// A string of digits alone is accepted whether or not integers were
/// promised, and either way its value is the integer it spells with
/// exponent zero.
pub proof fn law_known_integer(s: Seq<u8>)
    requires
        accepted(s, true),
    ensures
        accepted(s, false),
        value_of(s) == (decimal_value(s), 0nat),
{
    lemma_digits_have_no_dot(s);
}

/// A numeral without a dot has exponent zero.
pub proof fn law_integer_exponent_is_zero(s: Seq<u8>)
    requires
        forall|i: int| 0 <= i < s.len() ==> !is_dot(s[i]),
    ensures
        exponent_of(s) == 0,
{
    lemma_first_index_of(s, ASCII_DOT);
}

/// A numeral with its dot at index `d` has as its exponent the count of
/// bytes behind the dot.
pub proof fn law_fraction_exponent(s: Seq<u8>, d: int)
    requires
        well_formed(s),
        0 <= d < s.len(),
        is_dot(s[d]),
    ensures
        exponent_of(s) == s.len() - d - 1,
{
    assert forall|j: int| 0 <= j < d implies s[j] != ASCII_DOT by {
        assert(!(is_dot(s[j]) && is_dot(s[d])));
    }
    lemma_first_index_of_is(s, ASCII_DOT, d);
}

/// A byte that is neither a digit nor a dot makes the numeral rejected,
/// whether or not integers were promised.
pub proof fn law_foreign_byte_rejected(s: Seq<u8>, i: int, known_integer: bool)
    requires
        0 <= i < s.len(),
        !is_digit(s[i]),
        !is_dot(s[i]),
    ensures
        !accepted(s, known_integer),
{
}

/// Two dots make the numeral rejected, whether or not integers were promised.
pub proof fn law_second_dot_rejected(s: Seq<u8>, i: int, j: int, known_integer: bool)
    requires
        0 <= i < j < s.len(),
        is_dot(s[i]),
        is_dot(s[j]),
    ensures
        !accepted(s, known_integer),
{
    if all_digits(s) {
        assert(is_digit(s[i]));
    }
}

/// One rejected numeral makes the whole batch rejected.
pub proof fn law_batch_rejected(inputs: Seq<ParseInput>, n: int, known_integer: bool)
    requires
        0 <= n < inputs.len(),
        !accepted(inputs[n]@, known_integer),
    ensures
        !batch_accepted(inputs, known_integer),
{
}

/// Two inputs of one length whose windows agree up to that length are the
/// same numeral: what lies past the length changes neither the verdict nor
/// the value.
pub proof fn law_garbage_tolerance(first: ParseInput, second: ParseInput, known_integer: bool)
    requires
        first.wf(),
        first.real_length == second.real_length,
        forall|i: int| 0 <= i < first.real_length ==> first.data[i] == second.data[i],
    ensures
        first@ == second@,
        accepted(first@, known_integer) == accepted(second@, known_integer),
        value_of(first@) == value_of(second@),
{
    assert(first@ =~= second@);
}

/// The items of `items` at the places that `picks` names, in that order.
pub open spec fn rearranged<T>(items: Seq<T>, picks: Seq<int>) -> Seq<T> {
    Seq::new(picks.len(), |j: int| items[picks[j]])
}

/// The verdict on a batch is the conjunction of the verdicts on its
/// numerals, and each output depends on its own input alone. So a batch put
/// together from the inputs of another, in any order and with repeats, is
/// accepted where the other is and has the other's outputs at the same
/// places; and where it leaves no input out, it is accepted only where the
/// other is.
pub proof fn law_batch_independence(
    inputs: Seq<ParseInput>,
    outputs: Seq<ParseOutput>,
    picks: Seq<int>,
    known_integer: bool,
)
    requires
        forall|j: int| 0 <= j < picks.len() ==> 0 <= #[trigger] picks[j] < inputs.len(),
    ensures
        batch_accepted(inputs, known_integer) <==> forall|i: int|
            0 <= i < inputs.len() ==> accepted(#[trigger] inputs[i]@, known_integer),
        batch_accepted(inputs, known_integer) ==> batch_accepted(
            rearranged(inputs, picks),
            known_integer,
        ),
        batch_parsed(inputs, outputs) ==> batch_parsed(
            rearranged(inputs, picks),
            rearranged(outputs, picks),
        ),
        (forall|i: int| 0 <= i < inputs.len() ==> #[trigger] picks.contains(i)) && batch_accepted(
            rearranged(inputs, picks),
            known_integer,
        ) ==> batch_accepted(inputs, known_integer),
{
    let dealt = rearranged(inputs, picks);
    if batch_accepted(inputs, known_integer) {
        assert forall|j: int| 0 <= j < dealt.len() implies accepted(
            (#[trigger] dealt[j])@,
            known_integer,
        ) by {
            assert(accepted(inputs[picks[j]]@, known_integer));
        }
    }
    if batch_parsed(inputs, outputs) {
        let dealt_out = rearranged(outputs, picks);
        assert forall|j: int| 0 <= j < dealt.len() implies (#[trigger] dealt_out[j])@ == value_of(
            dealt[j]@,
        ) by {
            assert(outputs[picks[j]]@ == value_of(inputs[picks[j]]@));
        }
    }
    if (forall|i: int| 0 <= i < inputs.len() ==> #[trigger] picks.contains(i)) && batch_accepted(
        dealt,
        known_integer,
    ) {
        assert forall|i: int| 0 <= i < inputs.len() implies accepted(
            (#[trigger] inputs[i])@,
            known_integer,
        ) by {
            assert(picks.contains(i));
            let j = choose|j: int| 0 <= j < picks.len() && picks[j] == i;
            assert(accepted(dealt[j]@, known_integer));
        }
    }
}

/// A pair of mantissa and exponent, written out as the shortest text of
/// its number and handed back in as an input, is accepted and comes out as
/// the pair that stands for the same number with no zero at the end of its
/// fraction; that is the pair itself unless it had such a zero.
pub proof fn law_round_trip(mantissa: nat, exponent: nat, input: ParseInput)
    requires
        mantissa <= MAX_MANTISSA,
        exponent <= 15,
        input.wf(),
        input@ == minimal_text(mantissa, exponent),
    ensures
        accepted(input@, false),
        value_of(input@) == canonical(mantissa, exponent),
        canonical(mantissa, exponent).1 <= exponent,
        canonical(mantissa, exponent).0 * pow10(
            (exponent - canonical(mantissa, exponent).1) as nat,
        ) == mantissa,
        exponent == 0 || mantissa % 10 != 0 ==> value_of(input@) == (mantissa, exponent),
{
    lemma_canonical(mantissa, exponent);
    lemma_fixed_text(canonical(mantissa, exponent).0, canonical(mantissa, exponent).1);
}

/// The shortest text of a pair fits an input's window whenever the
/// mantissa has at most fifteen digits, and for an integer whenever it has
/// at most sixteen.
pub proof fn law_round_trip_fits(mantissa: nat, exponent: nat)
    requires
        mantissa <= MAX_MANTISSA,
        exponent <= 15,
        exponent == 0 || mantissa <= 999999999999999,
    ensures
        1 <= minimal_text(mantissa, exponent).len() <= 16,
{
    assert(pow10(15) == 1000000000000000 && pow10(16) == 10000000000000000) by {
        reveal_with_fuel(pow10, 17);
    }
    lemma_minimal_text_fits(mantissa, exponent);
}

} // verus!
