//! Sixteen-lane byte vectors and the lane-wise operations of the kernel.
//!
//! A vector is a `[u8; 16]`; lane 0 is the first byte in memory. Each
//! operation is a straight loop over the lanes with no branch on anything
//! but the lane's own value, and each is specified by a function on `Seq`
//! that says what every lane of the result holds.
use crate::search::{first_index_of, lemma_first_index_of_is};
use vstd::prelude::*;

verus! {

/// Lane-wise `v[i] - k`, wrapping around at zero.
pub open spec fn subtracted(v: Seq<u8>, k: u8) -> Seq<u8> {
    Seq::new(v.len(), |i: int| v[i].wrapping_sub(k))
}

/// What one lane of a byte shuffle reads: zero when the control byte has its
/// top bit set, else the source lane named by the control byte's low four
/// bits.
pub open spec fn shuffle_lane(v: Seq<u8>, control: u8) -> u8 {
    if control >= 128 {
        0
    } else {
        v[(control % 16) as int]
    }
}

/// The byte shuffle of `v` under `control`.
pub open spec fn shuffled(v: Seq<u8>, control: Seq<u8>) -> Seq<u8> {
    Seq::new(16, |i: int| shuffle_lane(v, control[i]))
}

/// Subtracts `k` from every lane, wrapping.
pub fn subtract_splat(v: &[u8; 16], k: u8) -> (out: [u8; 16])
    ensures
        out@ == subtracted(v@, k),
{
    let mut out = [0u8; 16];
    for i in 0..16usize
        invariant
            forall|j: int| 0 <= j < i ==> out[j] == v[j].wrapping_sub(k),
    {
        out[i] = v[i].wrapping_sub(k);
    }
    out
}

/// Permutes the lanes of `v` as `control` says, writing zero where a control
/// byte has its top bit set.
pub fn shuffle_bytes(v: &[u8; 16], control: &[u8; 16]) -> (out: [u8; 16])
    ensures
        out@ == shuffled(v@, control@),
{
    let mut out = [0u8; 16];
    for i in 0..16usize
        invariant
            forall|j: int| 0 <= j < i ==> out[j] == shuffle_lane(v@, control[j]),
    {
        let c: u8 = control[i];
        out[i] = if c >= 128 {
            0
        } else {
            v[(c % 16) as usize]
        };
    }
    out
}

/// Whether bit `i` of `mask` is set.
pub open spec fn bit_is_set(mask: u32, i: u32) -> bool {
    (mask >> i) & 1u32 == 1u32
}

/// `mask` has exactly the bits of the lanes of `v` that hold `k`: bit `i` for
/// lane `i`, and nothing above bit 15.
pub open spec fn is_equal_mask(mask: u32, v: Seq<u8>, k: u8) -> bool {
    &&& mask <= 0xffff
    &&& forall|i: u32| i < 16 ==> (#[trigger] bit_is_set(mask, i) <==> v[i as int] == k)
}

/// Compares every lane with `k` and gathers the outcomes into a bit mask,
/// bit `i` for lane `i`.
pub fn equal_mask(v: &[u8; 16], k: u8) -> (mask: u32)
    ensures
        is_equal_mask(mask, v@, k),
{
    let mut mask: u32 = 0;
    assert(forall|j: u32| j < 16 ==> !bit_is_set(0u32, j)) by {
        assert(forall|j: u32| j < 16 ==> (0u32 >> j) & 1u32 == 0u32) by (bit_vector);
    }
    for i in 0..16usize
        invariant
            mask < 0x1_0000,
            forall|j: u32| j < i ==> (#[trigger] bit_is_set(mask, j) <==> v[j as int] == k),
            forall|j: u32| i <= j < 16 ==> !#[trigger] bit_is_set(mask, j),
    {
        let hit: u32 = if v[i] == k {
            1
        } else {
            0
        };
        let ghost before = mask;
        let ghost lane = i as u32;
        mask = mask | (hit << (i as u32));
        assert(mask < 0x1_0000) by (bit_vector)
            requires
                mask == before | (hit << lane),
                before < 0x1_0000,
                lane < 16,
                hit <= 1,
        ;
        assert forall|j: u32| j < 16 implies (#[trigger] bit_is_set(mask, j) <==> (bit_is_set(
            before,
            j,
        ) || (j == lane && hit == 1))) by {
            assert(((mask >> j) & 1u32 == 1u32) <==> ((before >> j) & 1u32 == 1u32 || (j == lane
                && hit == 1))) by (bit_vector)
                requires
                    mask == before | (hit << lane),
                    j < 16,
                    lane < 16,
                    hit <= 1,
            ;
        }
    }
    mask
}

/// With the sixteen bits above the lanes forced on, the count of trailing
/// zeros of an equality mask is the first lane that holds `k`, or 16.
pub proof fn lemma_sentinel_trailing_zeros(mask: u32, v: Seq<u8>, k: u8)
    requires
        v.len() == 16,
        is_equal_mask(mask, v, k),
    ensures
        (mask | 0xffff_0000u32).trailing_zeros() == first_index_of(v, k),
{
    let guarded = mask | 0xffff_0000u32;
    let zeros = guarded.trailing_zeros();
    vstd::std_specs::bits::axiom_u32_trailing_zeros(guarded);
    assert(forall|j: u32| j < 16 ==> ((guarded >> j) & 1u32) == ((mask >> j) & 1u32)) by (bit_vector)
        requires
            guarded == mask | 0xffff_0000u32,
    ;
    assert((guarded >> 16u32) & 1u32 == 1u32) by (bit_vector)
        requires
            guarded == mask | 0xffff_0000u32,
    ;
    assert(zeros <= 16);
    assert forall|j: int| 0 <= j < zeros implies v[j] != k by {
        let lane = j as u32;
        assert((guarded >> lane) & 1u32 == 0u32);
        assert(!bit_is_set(mask, lane));
    }
    if zeros < 16 {
        assert(bit_is_set(mask, zeros));
    }
    lemma_first_index_of_is(v, k, zeros as int);
}

/// Lane-wise amount by which `v[i]` exceeds `limit`: `max(limit, v[i]) - limit`.
pub open spec fn excess(v: Seq<u8>, limit: u8) -> Seq<u8> {
    Seq::new(
        16,
        |i: int|
            if v[i] > limit {
                (v[i] - limit) as u8
            } else {
                0u8
            },
    )
}

/// Lane-wise bitwise OR.
pub open spec fn lanes_or(a: Seq<u8>, b: Seq<u8>) -> Seq<u8> {
    Seq::new(16, |i: int| a[i] | b[i])
}

/// Every lane is zero.
pub open spec fn all_zero(v: Seq<u8>) -> bool {
    forall|i: int| 0 <= i < v.len() ==> v[i] == 0
}

/// No lane is above `limit`.
pub open spec fn all_within(v: Seq<u8>, limit: u8) -> bool {
    forall|i: int| 0 <= i < v.len() ==> v[i] <= limit
}

/// The excess over `limit` vanishes in every lane exactly when no lane is
/// above `limit`.
pub proof fn lemma_excess_all_zero(v: Seq<u8>, limit: u8)
    requires
        v.len() == 16,
    ensures
        all_zero(excess(v, limit)) <==> all_within(v, limit),
{
    if all_zero(excess(v, limit)) {
        assert forall|i: int| 0 <= i < 16 implies v[i] <= limit by {
            assert(excess(v, limit)[i] == 0);
        }
    }
}

/// An OR of two vectors is zero in every lane exactly when both are.
pub proof fn lemma_or_all_zero(a: Seq<u8>, b: Seq<u8>)
    requires
        a.len() == 16,
        b.len() == 16,
    ensures
        all_zero(lanes_or(a, b)) <==> all_zero(a) && all_zero(b),
{
    assert forall|i: int| 0 <= i < 16 implies (lanes_or(a, b)[i] == 0 <==> a[i] == 0 && b[i]
        == 0) by {
        let x = a[i];
        let y = b[i];
        assert((x | y) == 0 <==> x == 0 && y == 0) by (bit_vector);
    }
    if all_zero(lanes_or(a, b)) {
        assert forall|i: int| 0 <= i < 16 implies a[i] == 0 && b[i] == 0 by {
            assert(lanes_or(a, b)[i] == 0);
        }
    }
}

/// Takes the unsigned maximum of `limit` and each lane, less `limit`: zero
/// in the lanes that are within the limit and nonzero in the others.
pub fn excess_over(v: &[u8; 16], limit: u8) -> (out: [u8; 16])
    ensures
        out@ == excess(v@, limit),
{
    let mut out = [0u8; 16];
    for i in 0..16usize
        invariant
            forall|j: int| 0 <= j < i ==> out[j] == excess(v@, limit)[j],
    {
        let lane: u8 = v[i];
        let top: u8 = if lane > limit {
            lane
        } else {
            limit
        };
        out[i] = top - limit;
    }
    out
}

/// Bitwise OR of two vectors.
pub fn or_lanes(a: &[u8; 16], b: &[u8; 16]) -> (out: [u8; 16])
    ensures
        out@ == lanes_or(a@, b@),
{
    let mut out = [0u8; 16];
    for i in 0..16usize
        invariant
            forall|j: int| 0 <= j < i ==> out[j] == a[j] | b[j],
    {
        out[i] = a[i] | b[i];
    }
    out
}

/// Tests whether every lane is zero.
pub fn is_all_zero(v: &[u8; 16]) -> (zero: bool)
    ensures
        zero == all_zero(v@),
{
    let mut folded: u8 = 0;
    for i in 0..16usize
        invariant
            folded == 0 <==> forall|j: int| 0 <= j < i ==> v[j] == 0,
    {
        let ghost before = folded;
        let lane: u8 = v[i];
        folded = folded | lane;
        assert(folded == 0 <==> before == 0 && lane == 0) by (bit_vector)
            requires
                folded == before | lane,
        ;
        if folded == 0 {
            assert forall|j: int| 0 <= j < i + 1 implies v[j] == 0 by {
                if j == i {
                    assert(lane == 0);
                }
            }
        }
    }
    folded == 0
}

/// Weighted sums of adjacent lanes: lane `j` of the result is
/// `weight * v[2j] + v[2j + 1]`.
pub open spec fn pair_sums_u8(v: Seq<u8>, weight: u8) -> Seq<u16> {
    Seq::new(8, |j: int| (weight * v[2 * j] + v[2 * j + 1]) as u16)
}

/// Weighted sums of adjacent lanes, half as many as `v` has: lane `j` of the
/// result is `weight * v[2j] + v[2j + 1]`.
pub open spec fn pair_sums_u16(v: Seq<u16>, weight: u16) -> Seq<u32> {
    Seq::new(v.len() / 2, |j: int| (weight * v[2 * j] + v[2 * j + 1]) as u32)
}

/// Lane-wise narrowing to sixteen bits that stops at `i16::MAX`.
pub open spec fn packed(v: Seq<u32>) -> Seq<u16> {
    Seq::new(
        v.len(),
        |j: int|
            if v[j] > 0x7fff {
                0x7fffu16
            } else {
                v[j] as u16
            },
    )
}

/// Multiplies the even lanes by `weight` and adds each to its odd right
/// neighbour, widening to sixteen bits.
pub fn multiply_add_pairs_u8(v: &[u8; 16], weight: u8) -> (out: [u16; 8])
    ensures
        out@ == pair_sums_u8(v@, weight),
{
    let mut out = [0u16; 8];
    for j in 0..8usize
        invariant
            forall|n: int| 0 <= n < j ==> out[n] == weight * v[2 * n] + v[2 * n + 1],
    {
        let high: u16 = v[2 * j] as u16;
        let low: u16 = v[2 * j + 1] as u16;
        assert(weight * high <= 255 * 255) by (nonlinear_arith)
            requires
                weight <= 255,
                high <= 255,
        ;
        out[j] = weight as u16 * high + low;
    }
    out
}

/// Multiplies the even lanes by `weight` and adds each to its odd right
/// neighbour, widening to thirty-two bits.
pub fn multiply_add_pairs_u16x8(v: &[u16; 8], weight: u16) -> (out: [u32; 4])
    ensures
        out@ == pair_sums_u16(v@, weight),
{
    let mut out = [0u32; 4];
    for j in 0..4usize
        invariant
            forall|n: int| 0 <= n < j ==> out[n] == weight * v[2 * n] + v[2 * n + 1],
    {
        let high: u32 = v[2 * j] as u32;
        let low: u32 = v[2 * j + 1] as u32;
        assert(weight * high <= 0xffff * 0xffff) by (nonlinear_arith)
            requires
                weight <= 0xffff,
                high <= 0xffff,
        ;
        out[j] = weight as u32 * high + low;
    }
    out
}

/// Multiplies the even lanes by `weight` and adds each to its odd right
/// neighbour, widening to thirty-two bits.
pub fn multiply_add_pairs_u16x4(v: &[u16; 4], weight: u16) -> (out: [u32; 2])
    ensures
        out@ == pair_sums_u16(v@, weight),
{
    let mut out = [0u32; 2];
    for j in 0..2usize
        invariant
            forall|n: int| 0 <= n < j ==> out[n] == weight * v[2 * n] + v[2 * n + 1],
    {
        let high: u32 = v[2 * j] as u32;
        let low: u32 = v[2 * j + 1] as u32;
        assert(weight * high <= 0xffff * 0xffff) by (nonlinear_arith)
            requires
                weight <= 0xffff,
                high <= 0xffff,
        ;
        out[j] = weight as u32 * high + low;
    }
    out
}

/// Narrows every lane to sixteen bits, saturating at `i16::MAX`.
pub fn pack_saturating(v: &[u32; 4]) -> (out: [u16; 4])
    ensures
        out@ == packed(v@),
{
    let mut out = [0u16; 4];
    for j in 0..4usize
        invariant
            forall|n: int| 0 <= n < j ==> out[n] == packed(v@)[n],
    {
        let wide: u32 = v[j];
        out[j] = if wide > 0x7fff {
            0x7fff
        } else {
            wide as u16
        };
    }
    out
}

/// What one lane of a table lookup reads: the table's lane named by the
/// index byte, or zero when the index is past the table.
pub open spec fn lookup_lane(table: Seq<u8>, index: u8) -> u8 {
    if index < 16 {
        table[index as int]
    } else {
        0
    }
}

/// The lookup of every byte of `indices` in `table`.
pub open spec fn looked_up(table: Seq<u8>, indices: Seq<u8>) -> Seq<u8> {
    Seq::new(16, |i: int| lookup_lane(table, indices[i]))
}

/// Every byte of `control` either names a lane or has its top bit set.
pub open spec fn plain_control(control: Seq<u8>) -> bool {
    forall|i: int| 0 <= i < control.len() ==> control[i] < 16 || control[i] >= 128
}

/// Under such a control a table lookup and a byte shuffle read the same.
pub proof fn lemma_lookup_is_shuffle(v: Seq<u8>, control: Seq<u8>)
    requires
        control.len() == 16,
        plain_control(control),
    ensures
        looked_up(v, control) =~= shuffled(v, control),
{
    assert forall|i: int| 0 <= i < 16 implies looked_up(v, control)[i] == shuffled(v, control)[i] by {
        assert(control[i] < 16 || control[i] >= 128);
    }
}

/// Looks every byte of `indices` up in `table`, reading zero for an index
/// past the table.
pub fn table_lookup(table: &[u8; 16], indices: &[u8; 16]) -> (out: [u8; 16])
    ensures
        out@ == looked_up(table@, indices@),
{
    let mut out = [0u8; 16];
    for i in 0..16usize
        invariant
            forall|j: int| 0 <= j < i ==> out[j] == lookup_lane(table@, indices[j]),
    {
        let index: u8 = indices[i];
        out[i] = if index < 16 {
            table[index as usize]
        } else {
            0
        };
    }
    out
}

/// Whether bit `i` of `mask` is set.
pub open spec fn wide_bit_is_set(mask: u64, i: u64) -> bool {
    (mask >> i) & 1u64 == 1u64
}

/// `mask` has four bits for every lane of `v`, bits `4i..4i + 4` for lane
/// `i`, all set where the lane holds `k` and all clear where it does not.
pub open spec fn is_equal_nibble_mask(mask: u64, v: Seq<u8>, k: u8) -> bool {
    forall|bit: u64| bit < 64 ==> (#[trigger] wide_bit_is_set(mask, bit) <==> v[(bit / 4) as int] == k)
}

/// Compares every lane with `k` and narrows the outcomes to four bits a
/// lane.
pub fn equal_nibble_mask(v: &[u8; 16], k: u8) -> (mask: u64)
    ensures
        is_equal_nibble_mask(mask, v@, k),
{
    let mut mask: u64 = 0;
    assert forall|bit: u64| bit < 64 implies !#[trigger] wide_bit_is_set(0u64, bit) by {
        assert((0u64 >> bit) & 1u64 == 0u64) by (bit_vector);
    }
    for i in 0..16usize
        invariant
            forall|bit: u64|
                bit < 4 * i ==> (#[trigger] wide_bit_is_set(mask, bit) <==> v[(bit / 4) as int]
                    == k),
            forall|bit: u64| 4 * i <= bit < 64 ==> !#[trigger] wide_bit_is_set(mask, bit),
    {
        let hit: u64 = if v[i] == k {
            0xf
        } else {
            0
        };
        let ghost before = mask;
        let ghost lane = i as u64;
        mask = mask | (hit << (4 * i as u64));
        assert forall|bit: u64| bit < 64 implies (#[trigger] wide_bit_is_set(mask, bit) <==> (
        wide_bit_is_set(before, bit) || (bit / 4 == lane && hit == 0xf))) by {
            assert(((mask >> bit) & 1u64 == 1u64) <==> ((before >> bit) & 1u64 == 1u64 || (bit / 4
                == lane && hit == 0xf))) by (bit_vector)
                requires
                    mask == before | (hit << (4 * lane)),
                    bit < 64,
                    lane < 16,
                    hit == 0 || hit == 0xf,
            ;
        }
    }
    mask
}

/// A quarter of the count of trailing zeros of a four-bits-a-lane equality
/// mask is the first lane that holds `k`, or 16.
pub proof fn lemma_nibble_trailing_zeros(mask: u64, v: Seq<u8>, k: u8)
    requires
        v.len() == 16,
        is_equal_nibble_mask(mask, v, k),
    ensures
        mask.trailing_zeros() / 4 == first_index_of(v, k),
{
    let zeros = mask.trailing_zeros();
    vstd::std_specs::bits::axiom_u64_trailing_zeros(mask);
    let lane = (zeros / 4) as int;
    assert forall|j: int| 0 <= j < lane implies v[j] != k by {
        let bit = (4 * j) as u64;
        assert((mask >> bit) & 1u64 == 0u64);
        assert(!wide_bit_is_set(mask, bit));
    }
    if zeros < 64 {
        assert(wide_bit_is_set(mask, zeros as u64));
    }
    lemma_first_index_of_is(v, k, lane);
}

/// Lane-wise test for `v[i] >= k`: all bits set where it holds, none where
/// it does not.
pub open spec fn at_least(v: Seq<u8>, k: u8) -> Seq<u8> {
    Seq::new(
        16,
        |i: int|
            if v[i] >= k {
                0xffu8
            } else {
                0u8
            },
    )
}

/// No lane reaches `k` exactly when the test for `>= k` is zero in every lane.
pub proof fn lemma_at_least_all_zero(v: Seq<u8>, k: u8)
    requires
        v.len() == 16,
        k > 0,
    ensures
        all_zero(at_least(v, k)) <==> all_within(v, (k - 1) as u8),
{
    if all_zero(at_least(v, k)) {
        assert forall|i: int| 0 <= i < 16 implies v[i] <= k - 1 by {
            assert(at_least(v, k)[i] == 0);
        }
    }
}

/// Compares every lane with `k`, unsigned, for greater or equal.
pub fn at_least_mask(v: &[u8; 16], k: u8) -> (out: [u8; 16])
    ensures
        out@ == at_least(v@, k),
{
    let mut out = [0u8; 16];
    for i in 0..16usize
        invariant
            forall|j: int| 0 <= j < i ==> out[j] == at_least(v@, k)[j],
    {
        out[i] = if v[i] >= k {
            0xff
        } else {
            0
        };
    }
    out
}

/// Sums of each lane of the low half with `weight` times its partner in the
/// high half: lane `j` of the result is `v[j] + weight * v[8 + j]`.
pub open spec fn folded_u8(v: Seq<u8>, weight: u8) -> Seq<u16> {
    Seq::new(8, |j: int| (v[j] + weight * v[8 + j]) as u16)
}

/// Lane `j` of the result is `v[j] + weight * v[4 + j]`.
pub open spec fn folded_u16(v: Seq<u16>, weight: u16) -> Seq<u32> {
    Seq::new(4, |j: int| (v[j] + weight * v[4 + j]) as u32)
}

/// Lane `j` of the result is `v[j] + weight * v[2 + j]`.
pub open spec fn folded_u32(v: Seq<u32>, weight: u32) -> Seq<u64> {
    Seq::new(2, |j: int| (v[j] + weight * v[2 + j]) as u64)
}

/// The two halves of every lane as lanes of their own, the low half first.
pub open spec fn split_lanes(v: Seq<u64>) -> Seq<u32> {
    Seq::new(
        4,
        |j: int|
            if j % 2 == 0 {
                (v[j / 2] % 0x1_0000_0000) as u32
            } else {
                (v[j / 2] / 0x1_0000_0000) as u32
            },
    )
}

/// Widens the low half of the vector and adds to it `weight` times the high
/// half, lane by lane.
pub fn widening_multiply_accumulate_u8(v: &[u8; 16], weight: u8) -> (out: [u16; 8])
    ensures
        out@ == folded_u8(v@, weight),
{
    let mut out = [0u16; 8];
    for j in 0..8usize
        invariant
            forall|n: int| 0 <= n < j ==> out[n] == v[n] + weight * v[8 + n],
    {
        let small: u16 = v[j] as u16;
        let large: u16 = v[8 + j] as u16;
        assert(weight * large <= 255 * 255) by (nonlinear_arith)
            requires
                weight <= 255,
                large <= 255,
        ;
        out[j] = small + weight as u16 * large;
    }
    out
}

/// Widens the low half of the vector and adds to it `weight` times the high
/// half, lane by lane.
pub fn widening_multiply_accumulate_u16(v: &[u16; 8], weight: u16) -> (out: [u32; 4])
    ensures
        out@ == folded_u16(v@, weight),
{
    let mut out = [0u32; 4];
    for j in 0..4usize
        invariant
            forall|n: int| 0 <= n < j ==> out[n] == v[n] + weight * v[4 + n],
    {
        let small: u32 = v[j] as u32;
        let large: u32 = v[4 + j] as u32;
        assert(weight * large <= 0xffff * 0xffff) by (nonlinear_arith)
            requires
                weight <= 0xffff,
                large <= 0xffff,
        ;
        out[j] = small + weight as u32 * large;
    }
    out
}

/// Widens the low half of the vector and adds to it `weight` times the high
/// half, lane by lane.
pub fn widening_multiply_accumulate_u32(v: &[u32; 4], weight: u32) -> (out: [u64; 2])
    ensures
        out@ == folded_u32(v@, weight),
{
    let mut out = [0u64; 2];
    for j in 0..2usize
        invariant
            forall|n: int| 0 <= n < j ==> out[n] == v[n] + weight * v[2 + n],
    {
        let small: u64 = v[j] as u64;
        let large: u64 = v[2 + j] as u64;
        assert(weight * large <= 0xffff_ffff * 0xffff_ffff) by (nonlinear_arith)
            requires
                weight <= 0xffff_ffff,
                large <= 0xffff_ffff,
        ;
        out[j] = small + weight as u64 * large;
    }
    out
}

/// Reads two wide lanes as four lanes of half the width, the low half of
/// each first.
pub fn reinterpret_halves(v: &[u64; 2]) -> (out: [u32; 4])
    ensures
        out@ == split_lanes(v@),
{
    let first: u64 = v[0];
    let second: u64 = v[1];
    let out: [u32; 4] = [
        (first & 0xffff_ffff) as u32,
        (first >> 32) as u32,
        (second & 0xffff_ffff) as u32,
        (second >> 32) as u32,
    ];
    assert(first & 0xffff_ffff == first % 0x1_0000_0000) by (bit_vector);
    assert(first >> 32 == first / 0x1_0000_0000) by (bit_vector);
    assert(second & 0xffff_ffff == second % 0x1_0000_0000) by (bit_vector);
    assert(second >> 32 == second / 0x1_0000_0000) by (bit_vector);
    assert(out@ =~= split_lanes(v@));
    out
}

} // verus!
