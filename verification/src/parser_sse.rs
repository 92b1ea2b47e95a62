//! The kernel in the order of operations of a byte-shuffle and
//! pair-multiply-accumulate instruction set.
//!
//! Each stage is a function that runs one lane-wise operation over the whole
//! batch. The dot is found by gathering a comparison into a bit mask and
//! counting its trailing zeros; validation folds the excess of every lane
//! over nine into one vector for the batch; and the sixteen digits are
//! folded into the mantissa by three rounds of multiplying the left lane
//! of each pair and adding the right one.
use crate::batch::{
    batch_digits, clear_exponents, lemma_batch_values, lemma_batch_verdict, load_batch,
};
use crate::kernel::{
    elided, justified, lanes_prefix_value, lanes_value, lemma_stages, loaded, DOT_LANE, MAX_DIGIT,
};
use crate::lanes::{
    all_within, all_zero, equal_mask, excess_over, is_all_zero, lemma_excess_all_zero,
    lemma_or_all_zero, lemma_sentinel_trailing_zeros, multiply_add_pairs_u16x4,
    multiply_add_pairs_u16x8, multiply_add_pairs_u8, or_lanes, pack_saturating, packed,
    pair_sums_u16, pair_sums_u8, shuffle_bytes,
};
use crate::numeral::value_of;
use crate::tables::{DOT_SHUFFLE_CONTROL, EXPONENT_FROM_BITS, LENGTH_SHIFT_CONTROL};
use crate::{batch_accepted, batch_parsed, batch_wf, ParseInput, ParseOutput};
use vstd::prelude::*;

verus! {

/// The two-digit groups of `v`.
pub open spec fn pairs(v: Seq<u8>) -> Seq<u16> {
    pair_sums_u8(v, 10)
}

/// The four-digit groups of `v`.
pub open spec fn quads(v: Seq<u8>) -> Seq<u32> {
    pair_sums_u16(pairs(v), 100)
}

/// The eight-digit groups of `v`, the more significant first.
pub open spec fn halves(v: Seq<u8>) -> Seq<u32> {
    pair_sums_u16(packed(quads(v)), 10000)
}

/// The two eight-digit groups joined into one integer.
pub open spec fn joined(halves: Seq<u32>) -> nat {
    (100000000 * halves[0] + halves[1]) as nat
}

/// Folding sixteen digit lanes pair by pair gives the number they spell.
pub proof fn lemma_joined_halves(v: Seq<u8>)
    requires
        v.len() == 16,
        all_within(v, MAX_DIGIT),
    ensures
        joined(halves(v)) == lanes_value(v),
        joined(halves(v)) <= 9999999999999999,
{
    reveal_with_fuel(lanes_prefix_value, 17);
    let p = pairs(v);
    let q = quads(v);
    let c = packed(q);
    let h = halves(v);
    assert(forall|i: int| 0 <= i < 16 ==> v[i] <= 9);
    assert(forall|j: int| 0 <= j < 8 ==> p[j] == 10 * v[2 * j] + v[2 * j + 1]);
    assert(forall|j: int| 0 <= j < 4 ==> q[j] == 100 * p[2 * j] + p[2 * j + 1]);
    assert(forall|j: int| 0 <= j < 4 ==> c[j] == q[j]);
    assert(h[0] == 10000 * c[0] + c[1]);
    assert(h[1] == 10000 * c[2] + c[3]);
}

/// Moves every numeral of the batch to the right end of its vector and
/// zeroes the lanes before it.
pub fn justify_batch<const N: usize>(inputs: &[ParseInput; N], cleaned: &mut [[u8; 16]; N])
    requires
        batch_wf(inputs@),
        forall|n: int| 0 <= n < N ==> (#[trigger] old(cleaned)[n])@ == loaded(inputs[n].data@),
    ensures
        forall|n: int|
            0 <= n < N ==> (#[trigger] final(cleaned)[n])@ == justified(
                inputs[n].data@,
                inputs[n].real_length as int,
            ),
{
    for i in 0..N
        invariant
            batch_wf(inputs@),
            forall|n: int|
                0 <= n < i ==> (#[trigger] cleaned[n])@ == justified(
                    inputs[n].data@,
                    inputs[n].real_length as int,
                ),
            forall|n: int| i <= n < N ==> (#[trigger] cleaned[n])@ == loaded(inputs[n].data@),
    {
        assert(inputs@[i as int].wf());
        let shifted = shuffle_bytes(&cleaned[i], &LENGTH_SHIFT_CONTROL[inputs[i].real_length]);
        cleaned[i] = shifted;
    }
}

/// Finds the dot of every numeral of the batch, writes the count of digits
/// behind it to the numeral's output, and closes the gap the dot leaves. The
/// mantissas of the outputs stay as they are.
pub fn elide_dots<const N: usize>(
    inputs: &[ParseInput; N],
    cleaned: &mut [[u8; 16]; N],
    outputs: &mut [ParseOutput; N],
)
    requires
        batch_wf(inputs@),
        forall|n: int|
            0 <= n < N ==> (#[trigger] old(cleaned)[n])@ == justified(
                inputs[n].data@,
                inputs[n].real_length as int,
            ),
    ensures
        forall|n: int|
            0 <= n < N ==> (#[trigger] final(cleaned)[n])@ == elided(
                inputs[n].data@,
                inputs[n].real_length as int,
            ),
        forall|n: int|
            0 <= n < N ==> (#[trigger] final(outputs)[n]).exponent == value_of(inputs[n]@).1,
        forall|n: int|
            0 <= n < N ==> (#[trigger] final(outputs)[n]).mantissa == old(outputs)[n].mantissa,
{
    for i in 0..N
        invariant
            batch_wf(inputs@),
            forall|n: int|
                0 <= n < i ==> (#[trigger] cleaned[n])@ == elided(
                    inputs[n].data@,
                    inputs[n].real_length as int,
                ),
            forall|n: int|
                i <= n < N ==> (#[trigger] cleaned[n])@ == justified(
                    inputs[n].data@,
                    inputs[n].real_length as int,
                ),
            forall|n: int| 0 <= n < i ==> (#[trigger] outputs[n]).exponent == value_of(inputs[n]@).1,
            forall|n: int|
                0 <= n < N ==> (#[trigger] outputs[n]).mantissa == old(outputs)[n].mantissa,
    {
        assert(inputs@[i as int].wf());
        // the sixteen bits above the lanes stand for a dot past the last lane
        let dot_mask: u32 = equal_mask(&cleaned[i], DOT_LANE);
        let is_dot_mask: u32 = dot_mask | 0xffff_0000;
        let dot_idx: u32 = is_dot_mask.trailing_zeros();
        proof {
            lemma_sentinel_trailing_zeros(dot_mask, cleaned[i as int]@, DOT_LANE);
            lemma_stages(inputs[i as int].data@, inputs[i as int].real_length as int, false);
        }
        outputs[i].exponent = EXPONENT_FROM_BITS[dot_idx as usize];
        let closed = shuffle_bytes(&cleaned[i], &DOT_SHUFFLE_CONTROL[dot_idx as usize]);
        cleaned[i] = closed;
    }
}

/// Tests in one fold whether every lane of every vector of the batch is a
/// digit.
pub fn validate_batch<const N: usize>(cleaned: &[[u8; 16]; N]) -> (ok: bool)
    ensures
        ok == batch_digits(cleaned@, N as int),
{
    let mut all_masks = [0u8; 16];
    for i in 0..N
        invariant
            all_zero(all_masks@) == batch_digits(cleaned@, i as int),
    {
        let remaining = excess_over(&cleaned[i], MAX_DIGIT);
        let ghost before = all_masks@;
        all_masks = or_lanes(&all_masks, &remaining);
        proof {
            lemma_excess_all_zero(cleaned[i as int]@, MAX_DIGIT);
            lemma_or_all_zero(before, remaining@);
            if batch_digits(cleaned@, i + 1) {
                assert(all_within(cleaned@[i as int]@, MAX_DIGIT));
                assert(batch_digits(cleaned@, i as int));
            }
        }
    }
    is_all_zero(&all_masks)
}

/// Folds the sixteen lanes of every vector of the batch into one integer
/// and writes it to the vector's output as the mantissa.
pub fn reduce_batch<const N: usize>(cleaned: &[[u8; 16]; N], outputs: &mut [ParseOutput; N])
    ensures
        forall|n: int|
            0 <= n < N ==> (#[trigger] final(outputs)[n]).mantissa == joined(halves(cleaned[n]@)),
        forall|n: int|
            0 <= n < N && all_within(cleaned[n]@, MAX_DIGIT) ==> (#[trigger] final(outputs)[n]).mantissa
                == lanes_value(cleaned[n]@),
        forall|n: int|
            0 <= n < N ==> (#[trigger] final(outputs)[n]).exponent == old(outputs)[n].exponent,
{
    // pairs of digits: ten times the left one plus the right one
    let mut two_digits: [[u16; 8]; N] = [[0u16; 8]; N];
    for i in 0..N
        invariant
            forall|n: int| 0 <= n < i ==> (#[trigger] two_digits[n])@ == pairs(cleaned[n]@),
    {
        two_digits[i] = multiply_add_pairs_u8(&cleaned[i], 10);
    }

    // pairs of two-digit groups
    let mut four_digits: [[u32; 4]; N] = [[0u32; 4]; N];
    for i in 0..N
        invariant
            forall|n: int| 0 <= n < N ==> (#[trigger] two_digits[n])@ == pairs(cleaned[n]@),
            forall|n: int| 0 <= n < i ==> (#[trigger] four_digits[n])@ == quads(cleaned[n]@),
    {
        four_digits[i] = multiply_add_pairs_u16x8(&two_digits[i], 100);
    }

    // each group is below ten thousand, so it fits the narrower lane
    let mut narrowed: [[u16; 4]; N] = [[0u16; 4]; N];
    for i in 0..N
        invariant
            forall|n: int| 0 <= n < N ==> (#[trigger] four_digits[n])@ == quads(cleaned[n]@),
            forall|n: int| 0 <= n < i ==> (#[trigger] narrowed[n])@ == packed(quads(cleaned[n]@)),
    {
        narrowed[i] = pack_saturating(&four_digits[i]);
    }

    // pairs of four-digit groups
    let mut eight_digits: [[u32; 2]; N] = [[0u32; 2]; N];
    for i in 0..N
        invariant
            forall|n: int| 0 <= n < N ==> (#[trigger] narrowed[n])@ == packed(quads(cleaned[n]@)),
            forall|n: int| 0 <= n < i ==> (#[trigger] eight_digits[n])@ == halves(cleaned[n]@),
    {
        eight_digits[i] = multiply_add_pairs_u16x4(&narrowed[i], 10000);
    }

    for i in 0..N
        invariant
            forall|n: int| 0 <= n < N ==> (#[trigger] eight_digits[n])@ == halves(cleaned[n]@),
            forall|n: int|
                0 <= n < i ==> (#[trigger] outputs[n]).mantissa == joined(halves(cleaned[n]@)),
            forall|n: int|
                0 <= n < N ==> (#[trigger] outputs[n]).exponent == old(outputs)[n].exponent,
    {
        let large_half: u64 = eight_digits[i][0] as u64;
        let small_bottom: u64 = eight_digits[i][1] as u64;
        outputs[i].mantissa = 100000000 * large_half + small_bottom;
    }
    proof {
        assert forall|n: int| 0 <= n < N && all_within(cleaned[n]@, MAX_DIGIT) implies (
        #[trigger] outputs[n]).mantissa == lanes_value(cleaned[n]@) by {
            lemma_joined_halves(cleaned[n]@);
        }
    }
}

/// Parses a batch of numerals into mantissas and exponents, without a
/// branch before the verdict is returned.
///
/// Returns `true` exactly when every numeral of the batch is made of digits
/// and at most one dot (of digits alone, where `KNOWN_INTEGER` is set), and
/// then every output holds the value of its numeral.
pub fn do_parse_decimals<const N: usize, const KNOWN_INTEGER: bool>(
    inputs: &[ParseInput; N],
    outputs: &mut [ParseOutput; N],
) -> (ok: bool)
    requires
        batch_wf(inputs@),
    ensures
        ok == batch_accepted(inputs@, KNOWN_INTEGER),
        ok ==> batch_parsed(inputs@, final(outputs)@),
{
    let mut cleaned = load_batch(inputs);
    justify_batch(inputs, &mut cleaned);
    if !KNOWN_INTEGER {
        elide_dots(inputs, &mut cleaned, outputs);
    } else {
        clear_exponents(outputs);
    }
    let all_digits = validate_batch(&cleaned);
    reduce_batch(&cleaned, outputs);
    proof {
        lemma_batch_verdict(inputs@, cleaned@, KNOWN_INTEGER);
        if all_digits {
            lemma_batch_values(inputs@, cleaned@, outputs@, KNOWN_INTEGER);
        }
    }
    all_digits
}

} // verus!
