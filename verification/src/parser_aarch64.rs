//! The kernel in the order of operations of a table-lookup and widening
//! multiply-accumulate instruction set.
//!
//! The stages are those of the byte-shuffle kernel. What differs is how the
//! dot is found, from a comparison narrowed to four bits a lane, and how the
//! digits are folded: the lanes are first dealt into an order in which every
//! round can add the low half of the vector to a multiple of its high half.
use crate::batch::{
    batch_digits, clear_exponents, lemma_batch_values, lemma_batch_verdict, load_batch,
};
use crate::kernel::{
    dot_lane, elided, justified, lanes_prefix_value, lanes_value, lemma_stages, loaded, DOT_LANE,
    MAX_DIGIT,
};
use crate::lanes::{
    all_within, all_zero, at_least_mask, equal_nibble_mask, folded_u16, folded_u32, folded_u8,
    is_all_zero, is_equal_nibble_mask, lemma_at_least_all_zero, lemma_lookup_is_shuffle,
    lemma_nibble_trailing_zeros, lemma_or_all_zero, looked_up, or_lanes, plain_control,
    reinterpret_halves, split_lanes, table_lookup, widening_multiply_accumulate_u16,
    widening_multiply_accumulate_u32, widening_multiply_accumulate_u8,
};
use crate::numeral::value_of;
use crate::tables::{
    lemma_dot_shuffle_control, lemma_length_shift_control, DOT_SHUFFLE_CONTROL,
    EXPONENT_FROM_BITS, LENGTH_SHIFT_CONTROL,
};
use crate::{batch_accepted, batch_parsed, batch_wf, ParseInput, ParseOutput};
use vstd::prelude::*;

verus! {

/// Lane of the left digit of the `idx`-th pair of lanes, counting pairs
/// from one.
pub fn a(idx: u8) -> (lane: u8)
    requires
        1 <= idx <= 128,
    ensures
        lane == 2 * (idx - 1),
{
    let base_zero: u8 = idx - 1;
    base_zero * 2
}

/// Lane of the right digit of the `idx`-th pair of lanes, counting pairs
/// from one.
pub fn b(idx: u8) -> (lane: u8)
    requires
        1 <= idx <= 128,
    ensures
        lane == 2 * (idx - 1) + 1,
{
    let base_zero: u8 = idx - 1;
    1 + base_zero * 2
}

/// The order into which the digits are dealt before they are folded: the
/// right digits of the pairs in the low half, the left digits in the high
/// half, and within each half the pairs in the order 8, 4, 6, 2, 7, 3, 5, 1,
/// so that every later round again finds the partners of its low half in its
/// high half.
pub const SHUFFLE_ACC: [u8; 16] = [15, 7, 11, 3, 13, 5, 9, 1, 14, 6, 10, 2, 12, 4, 8, 0];

/// Computes `SHUFFLE_ACC` from the pairs' lanes.
pub fn generate_shuffle_acc() -> (mask: [u8; 16])
    ensures
        mask == SHUFFLE_ACC,
{
    let mask = [
        b(8),
        b(4),
        b(6),
        b(2),
        b(7),
        b(3),
        b(5),
        b(1),
        a(8),
        a(4),
        a(6),
        a(2),
        a(7),
        a(3),
        a(5),
        a(1),
    ];
    assert(mask =~= SHUFFLE_ACC);
    mask
}

/// The lanes of `v` dealt and folded four times; lane 0 of the result holds
/// all sixteen digits.
pub open spec fn accumulated(v: Seq<u8>) -> Seq<u64> {
    folded_u32(
        split_lanes(
            folded_u32(folded_u16(folded_u8(looked_up(v, SHUFFLE_ACC@), 10), 100), 10000),
        ),
        100000000,
    )
}

/// Dealing and folding sixteen lanes gives the number they spell, whatever
/// the lanes hold.
pub proof fn lemma_accumulated(v: Seq<u8>)
    requires
        v.len() == 16,
    ensures
        accumulated(v)[0] == lanes_value(v),
{
    reveal_with_fuel(lanes_prefix_value, 17);
    let dealt = looked_up(v, SHUFFLE_ACC@);
    let two = folded_u8(dealt, 10);
    let four = folded_u16(two, 100);
    let eight = folded_u32(four, 10000);
    let split = split_lanes(eight);
    assert(forall|i: int| 0 <= i < 16 ==> dealt[i] == v[SHUFFLE_ACC[i] as int]);
    assert(forall|j: int| 0 <= j < 8 ==> two[j] == dealt[j] + 10 * dealt[8 + j]);
    assert(forall|j: int| 0 <= j < 4 ==> four[j] == two[j] + 100 * two[4 + j]);
    assert(forall|j: int| 0 <= j < 2 ==> eight[j] == four[j] + 10000 * four[2 + j]);
    assert(split[0] == eight[0]);
    assert(split[2] == eight[1]);
}

/// The control tables hold lane numbers and zero fills only, on which a
/// table lookup and a byte shuffle agree.
pub proof fn lemma_tables_plain(row: int)
    requires
        0 <= row <= 16,
    ensures
        plain_control(LENGTH_SHIFT_CONTROL[row]@),
        plain_control(DOT_SHUFFLE_CONTROL[row]@),
{
    assert forall|i: int| 0 <= i < 16 implies LENGTH_SHIFT_CONTROL[row]@[i] < 16
        || LENGTH_SHIFT_CONTROL[row]@[i] >= 128 by {
        lemma_length_shift_control(row, i);
    }
    assert forall|i: int| 0 <= i < 16 implies DOT_SHUFFLE_CONTROL[row]@[i] < 16
        || DOT_SHUFFLE_CONTROL[row]@[i] >= 128 by {
        lemma_dot_shuffle_control(row, i);
    }
}

/// Moves every numeral of the batch to the right end of its vector and
/// zeroes the lanes before it.
pub fn justify_batch<const N: usize>(inputs: &[ParseInput; N], cleaned: &mut [[u8; 16]; N])
    requires
        batch_wf(inputs@),
        forall|n: int| 0 <= n < N ==> (#[trigger] old(cleaned)[n])@ == loaded(inputs[n].data@),
    ensures
        forall|n: int|
            0 <= n < N ==> (#[trigger] final(cleaned)[n])@ == justified(
                inputs[n].data@,
                inputs[n].real_length as int,
            ),
{
    for i in 0..N
        invariant
            batch_wf(inputs@),
            forall|n: int|
                0 <= n < i ==> (#[trigger] cleaned[n])@ == justified(
                    inputs[n].data@,
                    inputs[n].real_length as int,
                ),
            forall|n: int| i <= n < N ==> (#[trigger] cleaned[n])@ == loaded(inputs[n].data@),
    {
        assert(inputs@[i as int].wf());
        proof {
            lemma_tables_plain(inputs[i as int].real_length as int);
            lemma_lookup_is_shuffle(
                cleaned[i as int]@,
                LENGTH_SHIFT_CONTROL[inputs[i as int].real_length as int]@,
            );
        }
        let shifted = table_lookup(&cleaned[i], &LENGTH_SHIFT_CONTROL[inputs[i].real_length]);
        cleaned[i] = shifted;
    }
}

/// Compares every lane of every vector of the batch with the dot and keeps
/// the outcome at four bits a lane.
pub fn explode_dot_masks<const N: usize>(cleaned: &[[u8; 16]; N]) -> (masks: [u64; N])
    ensures
        forall|n: int|
            0 <= n < N ==> is_equal_nibble_mask(#[trigger] masks[n], cleaned[n]@, DOT_LANE),
{
    let mut exploded_dot_mask: [u64; N] = [0; N];
    for i in 0..N
        invariant
            forall|n: int|
                0 <= n < i ==> is_equal_nibble_mask(
                    #[trigger] exploded_dot_mask[n],
                    cleaned[n]@,
                    DOT_LANE,
                ),
    {
        exploded_dot_mask[i] = equal_nibble_mask(&cleaned[i], DOT_LANE);
    }
    exploded_dot_mask
}

/// Turns every four-bits-a-lane mask of the batch into the number of the
/// first lane it marks, or 16 where it marks none.
pub fn locate_dots<const N: usize>(masks: &[u64; N]) -> (dot_idx: [u32; N])
    ensures
        forall|n: int| 0 <= n < N ==> (#[trigger] dot_idx[n]) == masks[n].trailing_zeros() / 4,
{
    let mut dot_idx: [u32; N] = [0; N];
    for i in 0..N
        invariant
            forall|n: int| 0 <= n < i ==> (#[trigger] dot_idx[n]) == masks[n].trailing_zeros() / 4,
    {
        dot_idx[i] = masks[i].trailing_zeros() / 4;
    }
    dot_idx
}

/// Writes to every output of the batch the count of digits behind its
/// numeral's dot, and closes the gap the dot leaves. The mantissas of the
/// outputs stay as they are.
pub fn elide_dots<const N: usize>(
    inputs: &[ParseInput; N],
    dot_idx: &[u32; N],
    cleaned: &mut [[u8; 16]; N],
    outputs: &mut [ParseOutput; N],
)
    requires
        batch_wf(inputs@),
        forall|n: int|
            0 <= n < N ==> (#[trigger] old(cleaned)[n])@ == justified(
                inputs[n].data@,
                inputs[n].real_length as int,
            ),
        forall|n: int|
            0 <= n < N ==> (#[trigger] dot_idx[n]) == dot_lane(
                inputs[n].data@,
                inputs[n].real_length as int,
            ),
    ensures
        forall|n: int|
            0 <= n < N ==> (#[trigger] final(cleaned)[n])@ == elided(
                inputs[n].data@,
                inputs[n].real_length as int,
            ),
        forall|n: int|
            0 <= n < N ==> (#[trigger] final(outputs)[n]).exponent == value_of(inputs[n]@).1,
        forall|n: int|
            0 <= n < N ==> (#[trigger] final(outputs)[n]).mantissa == old(outputs)[n].mantissa,
{
    for i in 0..N
        invariant
            batch_wf(inputs@),
            forall|n: int|
                0 <= n < N ==> (#[trigger] dot_idx[n]) == dot_lane(
                    inputs[n].data@,
                    inputs[n].real_length as int,
                ),
            forall|n: int|
                0 <= n < i ==> (#[trigger] cleaned[n])@ == elided(
                    inputs[n].data@,
                    inputs[n].real_length as int,
                ),
            forall|n: int|
                i <= n < N ==> (#[trigger] cleaned[n])@ == justified(
                    inputs[n].data@,
                    inputs[n].real_length as int,
                ),
            forall|n: int| 0 <= n < i ==> (#[trigger] outputs[n]).exponent == value_of(inputs[n]@).1,
            forall|n: int|
                0 <= n < N ==> (#[trigger] outputs[n]).mantissa == old(outputs)[n].mantissa,
    {
        assert(inputs@[i as int].wf());
        proof {
            lemma_stages(inputs[i as int].data@, inputs[i as int].real_length as int, false);
            lemma_tables_plain(dot_idx[i as int] as int);
            lemma_lookup_is_shuffle(
                cleaned[i as int]@,
                DOT_SHUFFLE_CONTROL[dot_idx[i as int] as int]@,
            );
        }
        outputs[i].exponent = EXPONENT_FROM_BITS[dot_idx[i] as usize];
        let closed = table_lookup(&cleaned[i], &DOT_SHUFFLE_CONTROL[dot_idx[i] as usize]);
        cleaned[i] = closed;
    }
}

/// Tests in one fold whether no lane of any vector of the batch reaches ten.
pub fn validate_batch<const N: usize>(cleaned: &[[u8; 16]; N]) -> (ok: bool)
    ensures
        ok == batch_digits(cleaned@, N as int),
{
    let mut all_masks = [0u8; 16];
    for i in 0..N
        invariant
            all_zero(all_masks@) == batch_digits(cleaned@, i as int),
    {
        let greater_equal_ten = at_least_mask(&cleaned[i], 10);
        let ghost before = all_masks@;
        all_masks = or_lanes(&all_masks, &greater_equal_ten);
        proof {
            lemma_at_least_all_zero(cleaned[i as int]@, 10);
            lemma_or_all_zero(before, greater_equal_ten@);
            if batch_digits(cleaned@, i + 1) {
                assert(all_within(cleaned@[i as int]@, MAX_DIGIT));
                assert(batch_digits(cleaned@, i as int));
            }
        }
    }
    is_all_zero(&all_masks)
}

/// Deals the lanes of every vector of the batch into folding order, folds
/// them into one integer and writes it to the vector's output as the
/// mantissa.
pub fn accumulate_batch<const N: usize>(cleaned: &[[u8; 16]; N], outputs: &mut [ParseOutput; N])
    ensures
        forall|n: int|
            0 <= n < N ==> (#[trigger] final(outputs)[n]).mantissa == lanes_value(cleaned[n]@),
        forall|n: int|
            0 <= n < N ==> (#[trigger] final(outputs)[n]).exponent == old(outputs)[n].exponent,
{
    let acc_shuffle = SHUFFLE_ACC;
    let mut dealt: [[u8; 16]; N] = [[0u8; 16]; N];
    for i in 0..N
        invariant
            acc_shuffle == SHUFFLE_ACC,
            forall|n: int|
                0 <= n < i ==> (#[trigger] dealt[n])@ == looked_up(cleaned[n]@, SHUFFLE_ACC@),
    {
        dealt[i] = table_lookup(&cleaned[i], &acc_shuffle);
    }

    // right digits plus ten times the left digits
    let mut two_digits: [[u16; 8]; N] = [[0u16; 8]; N];
    for i in 0..N
        invariant
            forall|n: int| 0 <= n < i ==> (#[trigger] two_digits[n])@ == folded_u8(dealt[n]@, 10),
    {
        two_digits[i] = widening_multiply_accumulate_u8(&dealt[i], 10);
    }

    let mut four_digits: [[u32; 4]; N] = [[0u32; 4]; N];
    for i in 0..N
        invariant
            forall|n: int|
                0 <= n < i ==> (#[trigger] four_digits[n])@ == folded_u16(two_digits[n]@, 100),
    {
        four_digits[i] = widening_multiply_accumulate_u16(&two_digits[i], 100);
    }

    let mut eight_digits: [[u64; 2]; N] = [[0u64; 2]; N];
    for i in 0..N
        invariant
            forall|n: int|
                0 <= n < i ==> (#[trigger] eight_digits[n])@ == folded_u32(
                    four_digits[n]@,
                    10000,
                ),
    {
        eight_digits[i] = widening_multiply_accumulate_u32(&four_digits[i], 10000);
    }

    // each half is below 2^32, so read as narrower lanes the halves sit in
    // lanes 0 and 2, and one more round joins them
    for i in 0..N
        invariant
            forall|n: int|
                0 <= n < N ==> (#[trigger] dealt[n])@ == looked_up(cleaned[n]@, SHUFFLE_ACC@),
            forall|n: int| 0 <= n < N ==> (#[trigger] two_digits[n])@ == folded_u8(dealt[n]@, 10),
            forall|n: int|
                0 <= n < N ==> (#[trigger] four_digits[n])@ == folded_u16(two_digits[n]@, 100),
            forall|n: int|
                0 <= n < N ==> (#[trigger] eight_digits[n])@ == folded_u32(
                    four_digits[n]@,
                    10000,
                ),
            forall|n: int|
                0 <= n < i ==> (#[trigger] outputs[n]).mantissa == lanes_value(cleaned[n]@),
            forall|n: int|
                0 <= n < N ==> (#[trigger] outputs[n]).exponent == old(outputs)[n].exponent,
    {
        let as_32 = reinterpret_halves(&eight_digits[i]);
        let acc = widening_multiply_accumulate_u32(&as_32, 100000000);
        proof {
            lemma_accumulated(cleaned[i as int]@);
        }
        outputs[i].mantissa = acc[0];
    }
}

/// Parses a batch of numerals into mantissas and exponents.
///
/// Returns `true` exactly when every numeral of the batch is made of digits
/// and at most one dot (of digits alone, where `KNOWN_INTEGER` is set), and
/// then every output holds the value of its numeral.
pub fn parse_decimals<const N: usize, const KNOWN_INTEGER: bool>(
    inputs: &[ParseInput; N],
    outputs: &mut [ParseOutput; N],
) -> (ok: bool)
    requires
        batch_wf(inputs@),
    ensures
        ok == batch_accepted(inputs@, KNOWN_INTEGER),
        ok ==> batch_parsed(inputs@, final(outputs)@),
{
    let mut cleaned = load_batch(inputs);
    justify_batch(inputs, &mut cleaned);
    if !KNOWN_INTEGER {
        let exploded_dot_mask = explode_dot_masks(&cleaned);
        let dot_idx = locate_dots(&exploded_dot_mask);
        proof {
            assert forall|n: int| 0 <= n < N implies (#[trigger] dot_idx[n]) == dot_lane(
                inputs[n].data@,
                inputs[n].real_length as int,
            ) by {
                lemma_nibble_trailing_zeros(exploded_dot_mask[n], cleaned[n]@, DOT_LANE);
            }
        }
        elide_dots(inputs, &dot_idx, &mut cleaned, outputs);
    } else {
        clear_exponents(outputs);
    }
    let all_digits = validate_batch(&cleaned);
    proof {
        lemma_batch_verdict(inputs@, cleaned@, KNOWN_INTEGER);
    }
    if !all_digits {
        return false;
    }
    accumulate_batch(&cleaned, outputs);
    proof {
        lemma_batch_values(inputs@, cleaned@, outputs@, KNOWN_INTEGER);
    }
    true
}

} // verus!
