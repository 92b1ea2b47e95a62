//! Control tables of the parsing kernel.
//!
//! Everything the kernel does that depends on the data (the numeral's length
//! and the position of its dot) goes through one of three lookups: a shuffle
//! mask chosen by the length, a shuffle mask chosen by the dot's lane, and the
//! count of fractional digits chosen by the dot's lane. The masks are stored
//! as literal tables; the generator functions compute the same tables from
//! their defining formulas and are proved equal to the literals.
use vstd::prelude::*;

verus! {

/// Mask byte that makes a shuffle write zero into the lane.
pub const ZERO_FILL: u8 = 255;

/// Mask byte of lane `i` in the right-justifying shuffle for a numeral of
/// `length` bytes: the lane reads `16 - length` lanes to its left, or zero
/// where no such lane exists.
pub open spec fn length_shift_field(length: int, i: int) -> int {
    if i < 16 - length {
        255
    } else {
        i - (16 - length)
    }
}

/// Mask byte of lane `i` in the shuffle that closes a dot sitting in lane
/// `dot`: lanes up to and including the dot read their left neighbour (lane 0
/// reads zero), lanes past the dot keep their value. A `dot` of 16 or more
/// means there is no dot and gives the identity.
pub open spec fn dot_shuffle_field(dot: int, i: int) -> int {
    if i > dot || dot >= 16 {
        i
    } else if i > 0 {
        i - 1
    } else {
        255
    }
}

/// Count of fractional digits for a dot in lane `k` of a right-justified
/// numeral; lane 16 stands for "no dot".
pub open spec fn exponent_for_lane(k: int) -> int {
    if k < 16 {
        15 - k
    } else {
        0
    }
}

/// Right-justifying shuffle masks, one row per numeral length `0..=16`.
pub const LENGTH_SHIFT_CONTROL: [[u8; 16]; 17] = [
    [255, 255, 255, 255, 255, 255, 255, 255, 255, 255, 255, 255, 255, 255, 255, 255],
    [255, 255, 255, 255, 255, 255, 255, 255, 255, 255, 255, 255, 255, 255, 255, 0],
    [255, 255, 255, 255, 255, 255, 255, 255, 255, 255, 255, 255, 255, 255, 0, 1],
    [255, 255, 255, 255, 255, 255, 255, 255, 255, 255, 255, 255, 255, 0, 1, 2],
    [255, 255, 255, 255, 255, 255, 255, 255, 255, 255, 255, 255, 0, 1, 2, 3],
    [255, 255, 255, 255, 255, 255, 255, 255, 255, 255, 255, 0, 1, 2, 3, 4],
    [255, 255, 255, 255, 255, 255, 255, 255, 255, 255, 0, 1, 2, 3, 4, 5],
    [255, 255, 255, 255, 255, 255, 255, 255, 255, 0, 1, 2, 3, 4, 5, 6],
    [255, 255, 255, 255, 255, 255, 255, 255, 0, 1, 2, 3, 4, 5, 6, 7],
    [255, 255, 255, 255, 255, 255, 255, 0, 1, 2, 3, 4, 5, 6, 7, 8],
    [255, 255, 255, 255, 255, 255, 0, 1, 2, 3, 4, 5, 6, 7, 8, 9],
    [255, 255, 255, 255, 255, 0, 1, 2, 3, 4, 5, 6, 7, 8, 9, 10],
    [255, 255, 255, 255, 0, 1, 2, 3, 4, 5, 6, 7, 8, 9, 10, 11],
    [255, 255, 255, 0, 1, 2, 3, 4, 5, 6, 7, 8, 9, 10, 11, 12],
    [255, 255, 0, 1, 2, 3, 4, 5, 6, 7, 8, 9, 10, 11, 12, 13],
    [255, 0, 1, 2, 3, 4, 5, 6, 7, 8, 9, 10, 11, 12, 13, 14],
    [0, 1, 2, 3, 4, 5, 6, 7, 8, 9, 10, 11, 12, 13, 14, 15],
];

/// Dot-closing shuffle masks, one row per dot lane `0..=15` and a last row,
/// the identity, for "no dot".
pub const DOT_SHUFFLE_CONTROL: [[u8; 16]; 17] = [
    [255, 1, 2, 3, 4, 5, 6, 7, 8, 9, 10, 11, 12, 13, 14, 15],
    [255, 0, 2, 3, 4, 5, 6, 7, 8, 9, 10, 11, 12, 13, 14, 15],
    [255, 0, 1, 3, 4, 5, 6, 7, 8, 9, 10, 11, 12, 13, 14, 15],
    [255, 0, 1, 2, 4, 5, 6, 7, 8, 9, 10, 11, 12, 13, 14, 15],
    [255, 0, 1, 2, 3, 5, 6, 7, 8, 9, 10, 11, 12, 13, 14, 15],
    [255, 0, 1, 2, 3, 4, 6, 7, 8, 9, 10, 11, 12, 13, 14, 15],
    [255, 0, 1, 2, 3, 4, 5, 7, 8, 9, 10, 11, 12, 13, 14, 15],
    [255, 0, 1, 2, 3, 4, 5, 6, 8, 9, 10, 11, 12, 13, 14, 15],
    [255, 0, 1, 2, 3, 4, 5, 6, 7, 9, 10, 11, 12, 13, 14, 15],
    [255, 0, 1, 2, 3, 4, 5, 6, 7, 8, 10, 11, 12, 13, 14, 15],
    [255, 0, 1, 2, 3, 4, 5, 6, 7, 8, 9, 11, 12, 13, 14, 15],
    [255, 0, 1, 2, 3, 4, 5, 6, 7, 8, 9, 10, 12, 13, 14, 15],
    [255, 0, 1, 2, 3, 4, 5, 6, 7, 8, 9, 10, 11, 13, 14, 15],
    [255, 0, 1, 2, 3, 4, 5, 6, 7, 8, 9, 10, 11, 12, 14, 15],
    [255, 0, 1, 2, 3, 4, 5, 6, 7, 8, 9, 10, 11, 12, 13, 15],
    [255, 0, 1, 2, 3, 4, 5, 6, 7, 8, 9, 10, 11, 12, 13, 14],
    [0, 1, 2, 3, 4, 5, 6, 7, 8, 9, 10, 11, 12, 13, 14, 15],
];

/// Count of fractional digits, indexed by the dot's lane; the last entry is
/// for "no dot".
pub const EXPONENT_FROM_BITS: [u8; 17] = [15, 14, 13, 12, 11, 10, 9, 8, 7, 6, 5, 4, 3, 2, 1, 0, 0];

/// Every entry of `LENGTH_SHIFT_CONTROL` is the value of `length_shift_field`
/// at its row and lane.
pub proof fn lemma_length_shift_control(length: int, i: int)
    requires
        0 <= length <= 16,
        0 <= i < 16,
    ensures
        LENGTH_SHIFT_CONTROL[length][i] == length_shift_field(length, i),
{
}

/// Every entry of `DOT_SHUFFLE_CONTROL` is the value of `dot_shuffle_field`
/// at its row and lane.
pub proof fn lemma_dot_shuffle_control(dot: int, i: int)
    requires
        0 <= dot <= 16,
        0 <= i < 16,
    ensures
        DOT_SHUFFLE_CONTROL[dot][i] == dot_shuffle_field(dot, i),
{
}

/// Every entry of `EXPONENT_FROM_BITS` is the value of `exponent_for_lane`
/// at its index.
pub proof fn lemma_exponent_from_bits(k: int)
    requires
        0 <= k <= 16,
    ensures
        EXPONENT_FROM_BITS[k] == exponent_for_lane(k),
{
}

/// Computes one byte of a dot-closing mask: the source lane for lane `i`
/// when the dot sits in lane `dot`.
pub fn generate_single_dot_field(dot: u8, i: u8) -> (field: u8)
    ensures
        field == dot_shuffle_field(dot as int, i as int),
{
    if i > dot || dot >= 16 {
        i
    } else if i > 0 {
        i - 1
    } else {
        // lane 0 has no left neighbour: fill with zero
        ZERO_FILL
    }
}

/// Computes the dot-closing mask for a dot in lane `dot`.
pub fn generate_dot_for(dot: u8) -> (mask: [u8; 16])
    ensures
        forall|i: int| 0 <= i < 16 ==> mask[i] == dot_shuffle_field(dot as int, i),
        dot <= 16 ==> mask == DOT_SHUFFLE_CONTROL[dot as int],
{
    let mask = [
        generate_single_dot_field(dot, 0),
        generate_single_dot_field(dot, 1),
        generate_single_dot_field(dot, 2),
        generate_single_dot_field(dot, 3),
        generate_single_dot_field(dot, 4),
        generate_single_dot_field(dot, 5),
        generate_single_dot_field(dot, 6),
        generate_single_dot_field(dot, 7),
        generate_single_dot_field(dot, 8),
        generate_single_dot_field(dot, 9),
        generate_single_dot_field(dot, 10),
        generate_single_dot_field(dot, 11),
        generate_single_dot_field(dot, 12),
        generate_single_dot_field(dot, 13),
        generate_single_dot_field(dot, 14),
        generate_single_dot_field(dot, 15),
    ];
    proof {
        if dot <= 16 {
            assert forall|i: int| 0 <= i < 16 implies mask[i] == DOT_SHUFFLE_CONTROL[dot as int][i] by {
                lemma_dot_shuffle_control(dot as int, i);
            }
            assert(mask =~= DOT_SHUFFLE_CONTROL[dot as int]);
        }
    }
    mask
}

/// Computes the whole table of dot-closing masks.
pub fn generate_dot_shuffle_control() -> (table: [[u8; 16]; 17])
    ensures
        table == DOT_SHUFFLE_CONTROL,
        forall|dot: int, i: int|
            0 <= dot <= 16 && 0 <= i < 16 ==> #[trigger] table[dot][i] == dot_shuffle_field(dot, i),
{
    let table = [
        generate_dot_for(0),
        generate_dot_for(1),
        generate_dot_for(2),
        generate_dot_for(3),
        generate_dot_for(4),
        generate_dot_for(5),
        generate_dot_for(6),
        generate_dot_for(7),
        generate_dot_for(8),
        generate_dot_for(9),
        generate_dot_for(10),
        generate_dot_for(11),
        generate_dot_for(12),
        generate_dot_for(13),
        generate_dot_for(14),
        generate_dot_for(15),
        generate_dot_for(16),
    ];
    proof {
        assert(table =~= DOT_SHUFFLE_CONTROL);
    }
    table
}

/// Computes one byte of a right-justifying mask: the source lane for lane
/// `i` when the numeral is `length` bytes long.
pub fn generate_length_shift_field(length: u8, i: u8) -> (field: u8)
    requires
        length <= 16,
    ensures
        field == length_shift_field(length as int, i as int),
{
    // moving everything right by `16 - length` lanes shifts and masks in one go
    let shift_up_front = 16 - length;
    if i < shift_up_front {
        ZERO_FILL
    } else {
        i - shift_up_front
    }
}

/// Computes the right-justifying mask for a numeral of `length` bytes.
pub fn generate_length_shift_for(length: u8) -> (mask: [u8; 16])
    requires
        length <= 16,
    ensures
        forall|i: int| 0 <= i < 16 ==> mask[i] == length_shift_field(length as int, i),
        mask == LENGTH_SHIFT_CONTROL[length as int],
{
    let mask = [
        generate_length_shift_field(length, 0),
        generate_length_shift_field(length, 1),
        generate_length_shift_field(length, 2),
        generate_length_shift_field(length, 3),
        generate_length_shift_field(length, 4),
        generate_length_shift_field(length, 5),
        generate_length_shift_field(length, 6),
        generate_length_shift_field(length, 7),
        generate_length_shift_field(length, 8),
        generate_length_shift_field(length, 9),
        generate_length_shift_field(length, 10),
        generate_length_shift_field(length, 11),
        generate_length_shift_field(length, 12),
        generate_length_shift_field(length, 13),
        generate_length_shift_field(length, 14),
        generate_length_shift_field(length, 15),
    ];
    proof {
        assert forall|i: int| 0 <= i < 16 implies mask[i] == LENGTH_SHIFT_CONTROL[length as int][i] by {
            lemma_length_shift_control(length as int, i);
        }
        assert(mask =~= LENGTH_SHIFT_CONTROL[length as int]);
    }
    mask
}

/// Computes the whole table of right-justifying masks.
pub fn generate_length_shift_control() -> (table: [[u8; 16]; 17])
    ensures
        table == LENGTH_SHIFT_CONTROL,
        forall|length: int, i: int|
            0 <= length <= 16 && 0 <= i < 16 ==> #[trigger] table[length][i] == length_shift_field(
                length,
                i,
            ),
{
    let table = [
        generate_length_shift_for(0),
        generate_length_shift_for(1),
        generate_length_shift_for(2),
        generate_length_shift_for(3),
        generate_length_shift_for(4),
        generate_length_shift_for(5),
        generate_length_shift_for(6),
        generate_length_shift_for(7),
        generate_length_shift_for(8),
        generate_length_shift_for(9),
        generate_length_shift_for(10),
        generate_length_shift_for(11),
        generate_length_shift_for(12),
        generate_length_shift_for(13),
        generate_length_shift_for(14),
        generate_length_shift_for(15),
        generate_length_shift_for(16),
    ];
    proof {
        assert(table =~= LENGTH_SHIFT_CONTROL);
    }
    table
}

} // verus!
