//! The stages of the kernel as functions of one input, and the proof that
//! they compute what the numeral model says.
//!
//! An input is sixteen bytes and a length. The kernel subtracts `'0'` from
//! every byte, moves the numeral to the right end of the vector with zeros
//! in front, finds the dot and closes the gap it leaves, and is then left
//! with sixteen lanes that each hold one digit, if the numeral was sound.
use crate::lanes::{all_within, shuffled, subtracted};
use crate::numeral::{
    accepted, all_digits, decimal_value, dot_index, exponent_of, has_dot, is_digit,
    lemma_without_dot, lemma_without_dot_index, mantissa_of, prefix_value, without_dot,
    ASCII_DOT, ASCII_ZERO,
};
use crate::search::{first_index_of, lemma_first_index_of, lemma_first_index_of_is};
use crate::tables::{
    lemma_dot_shuffle_control, lemma_exponent_from_bits, lemma_length_shift_control,
    DOT_SHUFFLE_CONTROL, EXPONENT_FROM_BITS, LENGTH_SHIFT_CONTROL,
};
use vstd::prelude::*;

verus! {

/// What a `.` turns into when `'0'` is subtracted from it.
pub const DOT_LANE: u8 = 254;

/// The largest value a lane may hold to count as a digit.
pub const MAX_DIGIT: u8 = 9;

/// The lanes after loading: every byte less `'0'`.
pub open spec fn loaded(data: Seq<u8>) -> Seq<u8> {
    subtracted(data, ASCII_ZERO)
}

/// The lanes after right-justification.
pub open spec fn justified(data: Seq<u8>, length: int) -> Seq<u8> {
    shuffled(loaded(data), LENGTH_SHIFT_CONTROL[length]@)
}

/// The lane of the right-justified vector that holds the first dot, or 16.
pub open spec fn dot_lane(data: Seq<u8>, length: int) -> int {
    first_index_of(justified(data, length), DOT_LANE)
}

/// The lanes after the dot has been closed.
pub open spec fn elided(data: Seq<u8>, length: int) -> Seq<u8> {
    shuffled(justified(data, length), DOT_SHUFFLE_CONTROL[dot_lane(data, length)]@)
}

/// The lanes that validation and reduction see. Where the caller has
/// promised integers the dot stage is left out.
pub open spec fn digit_lanes(data: Seq<u8>, length: int, known_integer: bool) -> Seq<u8> {
    if known_integer {
        justified(data, length)
    } else {
        elided(data, length)
    }
}

/// Sixteen lanes with the bytes of `t`, less `'0'`, at the right end and
/// zeros before them.
pub open spec fn right_justified(t: Seq<u8>) -> Seq<u8> {
    Seq::new(
        16,
        |i: int|
            if i < 16 - t.len() {
                0u8
            } else {
                t[i - (16 - t.len())].wrapping_sub(ASCII_ZERO)
            },
    )
}

/// The integer whose decimal digits are the first `n` lanes of `v`.
pub open spec fn lanes_prefix_value(v: Seq<u8>, n: int) -> nat
    decreases n,
{
    if n <= 0 {
        0
    } else {
        10 * lanes_prefix_value(v, n - 1) + v[n - 1] as nat
    }
}

/// The integer whose decimal digits are the sixteen lanes of `v`, lane 0
/// the most significant.
pub open spec fn lanes_value(v: Seq<u8>) -> nat {
    lanes_prefix_value(v, 16)
}

/// Right-justification puts the numeral, less `'0'`, at the right end of the
/// vector and zeros before it; what lay past the numeral is gone.
pub proof fn lemma_justified(data: Seq<u8>, length: int)
    requires
        data.len() == 16,
        0 <= length <= 16,
    ensures
        justified(data, length) =~= right_justified(data.subrange(0, length)),
{
    let s = data.subrange(0, length);
    assert forall|i: int| 0 <= i < 16 implies justified(data, length)[i] == right_justified(s)[i] by {
        lemma_length_shift_control(length, i);
    }
}

/// The first lane of a right-justified numeral that holds the dot's image
/// is the lane of the numeral's first dot.
pub proof fn lemma_dot_lane(s: Seq<u8>)
    requires
        s.len() <= 16,
    ensures
        first_index_of(right_justified(s), DOT_LANE) == if has_dot(s) {
            16 - s.len() + dot_index(s)
        } else {
            16
        },
{
    let lanes = right_justified(s);
    let pad = 16 - s.len();
    lemma_first_index_of(s, ASCII_DOT);
    let d = dot_index(s);
    let k = if has_dot(s) {
        pad + d
    } else {
        16
    };
    assert forall|j: int| 0 <= j < k implies lanes[j] != DOT_LANE by {
        if j >= pad {
            assert(s[j - pad] != ASCII_DOT);
        }
    }
    if has_dot(s) {
        assert(lanes[k] == s[d].wrapping_sub(ASCII_ZERO));
    }
    lemma_first_index_of_is(lanes, DOT_LANE, k);
}

/// Closing the dot of a right-justified numeral gives the right-justified
/// numeral without its dot.
pub proof fn lemma_elided(s: Seq<u8>)
    requires
        s.len() <= 16,
    ensures
        shuffled(
            right_justified(s),
            DOT_SHUFFLE_CONTROL[first_index_of(right_justified(s), DOT_LANE)]@,
        ) =~= right_justified(without_dot(s)),
{
    let lanes = right_justified(s);
    let k = first_index_of(lanes, DOT_LANE);
    lemma_dot_lane(s);
    let control = DOT_SHUFFLE_CONTROL[k]@;
    let closed = shuffled(lanes, control);
    let t = without_dot(s);
    let pad = 16 - s.len();
    if has_dot(s) {
        lemma_first_index_of(s, ASCII_DOT);
        assert(t.len() == s.len() - 1);
        assert forall|i: int| 0 <= i < 16 implies closed[i] == right_justified(t)[i] by {
            lemma_dot_shuffle_control(k, i);
            if i == 0 {
                assert(control[i] == 255);
            } else if i <= k {
                assert(control[i] == i - 1);
                assert(closed[i] == lanes[i - 1]);
                if i - 1 >= pad {
                    lemma_without_dot_index(s, i - 1 - pad);
                }
            } else {
                assert(control[i] == i);
                assert(closed[i] == lanes[i]);
                lemma_without_dot_index(s, i - 1 - pad);
            }
        }
    } else {
        assert forall|i: int| 0 <= i < 16 implies closed[i] == lanes[i] by {
            lemma_dot_shuffle_control(16, i);
        }
    }
}

/// The lanes of a right-justified string are all digits exactly when its
/// bytes are.
pub proof fn lemma_digit_lanes(t: Seq<u8>)
    requires
        t.len() <= 16,
    ensures
        all_within(right_justified(t), MAX_DIGIT) <==> all_digits(t),
{
    let lanes = right_justified(t);
    let pad = 16 - t.len();
    if all_within(lanes, MAX_DIGIT) {
        assert forall|j: int| 0 <= j < t.len() implies is_digit(#[trigger] t[j]) by {
            assert(lanes[pad + j] <= MAX_DIGIT);
        }
    }
    if all_digits(t) {
        assert forall|i: int| 0 <= i < 16 implies lanes[i] <= MAX_DIGIT by {
            if i >= pad {
                assert(is_digit(t[i - pad]));
            }
        }
    }
}

/// The lanes of a right-justified digit string, read as one decimal number,
/// give the integer that the string spells.
pub proof fn lemma_lanes_value(t: Seq<u8>)
    requires
        t.len() <= 16,
        all_digits(t),
    ensures
        lanes_value(right_justified(t)) == decimal_value(t),
{
    lemma_lanes_prefix_value(t, t.len() as int);
}

proof fn lemma_lanes_prefix_value(t: Seq<u8>, n: int)
    requires
        t.len() <= 16,
        all_digits(t),
        0 <= n <= t.len(),
    ensures
        lanes_prefix_value(right_justified(t), 16 - t.len() + n) == prefix_value(t, n),
    decreases n,
{
    let lanes = right_justified(t);
    let pad = 16 - t.len();
    if n == 0 {
        lemma_leading_zeros(lanes, pad);
    } else {
        lemma_lanes_prefix_value(t, n - 1);
        assert(is_digit(t[n - 1]));
        assert(lanes[pad + n - 1] == t[n - 1] - ASCII_ZERO);
    }
}

proof fn lemma_leading_zeros(v: Seq<u8>, n: int)
    requires
        0 <= n <= v.len(),
        forall|i: int| 0 <= i < n ==> v[i] == 0,
    ensures
        lanes_prefix_value(v, n) == 0,
    decreases n,
{
    if n > 0 {
        lemma_leading_zeros(v, n - 1);
    }
}

/// The exponent table, looked up at the dot's lane, gives the count of
/// digits behind the numeral's first dot.
pub proof fn lemma_exponent(s: Seq<u8>)
    requires
        s.len() <= 16,
    ensures
        0 <= first_index_of(right_justified(s), DOT_LANE) <= 16,
        EXPONENT_FROM_BITS[first_index_of(right_justified(s), DOT_LANE)] == exponent_of(s),
{
    lemma_dot_lane(s);
    lemma_first_index_of(s, ASCII_DOT);
    lemma_exponent_from_bits(first_index_of(right_justified(s), DOT_LANE));
}

/// What the stages leave behind for one input: lanes that are all digits
/// exactly when the numeral is accepted, and that then spell its mantissa;
/// and a dot lane whose table entry is the numeral's exponent.
pub proof fn lemma_stages(data: Seq<u8>, length: int, known_integer: bool)
    requires
        data.len() == 16,
        0 <= length <= 16,
    ensures
        0 <= dot_lane(data, length) <= 16,
        EXPONENT_FROM_BITS[dot_lane(data, length)] == exponent_of(data.subrange(0, length)),
        all_within(digit_lanes(data, length, known_integer), MAX_DIGIT) <==> accepted(
            data.subrange(0, length),
            known_integer,
        ),
        accepted(data.subrange(0, length), known_integer) ==> {
            &&& lanes_value(digit_lanes(data, length, known_integer)) == mantissa_of(
                data.subrange(0, length),
            )
            &&& known_integer ==> exponent_of(data.subrange(0, length)) == 0
        },
{
    let s = data.subrange(0, length);
    lemma_justified(data, length);
    lemma_exponent(s);
    lemma_without_dot(s);
    if known_integer {
        lemma_digit_lanes(s);
        if all_digits(s) {
            lemma_lanes_value(s);
        }
    } else {
        lemma_elided(s);
        let t = without_dot(s);
        lemma_digit_lanes(t);
        if all_digits(t) {
            lemma_lanes_value(t);
        }
    }
}

} // verus!
