use simd_decimal::lanes::{
    at_least_mask, equal_mask, equal_nibble_mask, excess_over, is_all_zero,
    multiply_add_pairs_u16x4, multiply_add_pairs_u16x8, multiply_add_pairs_u8, or_lanes,
    pack_saturating, reinterpret_halves, shuffle_bytes, subtract_splat, table_lookup,
    widening_multiply_accumulate_u16, widening_multiply_accumulate_u32,
    widening_multiply_accumulate_u8,
};

const COUNT: [u8; 16] = [0, 1, 2, 3, 4, 5, 6, 7, 8, 9, 10, 11, 12, 13, 14, 15];

#[test]
fn subtract_splat_wraps() {
    let out = subtract_splat(b"09./:_\x00\xff12345678", b'0');
    assert_eq!(
        out,
        [0, 9, 254, 255, 10, 47, 208, 207, 1, 2, 3, 4, 5, 6, 7, 8]
    );
}

#[test]
fn shuffle_bytes_reads_low_four_bits_and_zeroes_on_top_bit() {
    let v: [u8; 16] = [
        100, 101, 102, 103, 104, 105, 106, 107, 108, 109, 110, 111, 112, 113, 114, 115,
    ];
    let control: [u8; 16] = [15, 0, 255, 128, 16, 17, 127, 3, 3, 3, 0x8f, 1, 2, 14, 13, 12];
    assert_eq!(
        shuffle_bytes(&v, &control),
        [115, 100, 0, 0, 100, 101, 115, 103, 103, 103, 0, 101, 102, 114, 113, 112]
    );
    assert_eq!(shuffle_bytes(&v, &COUNT), v);
}

#[test]
fn table_lookup_zeroes_past_the_table() {
    let v: [u8; 16] = [
        100, 101, 102, 103, 104, 105, 106, 107, 108, 109, 110, 111, 112, 113, 114, 115,
    ];
    let indices: [u8; 16] = [15, 0, 255, 128, 16, 17, 127, 3, 3, 3, 0x8f, 1, 2, 14, 13, 12];
    assert_eq!(
        table_lookup(&v, &indices),
        [115, 100, 0, 0, 0, 0, 0, 103, 103, 103, 0, 101, 102, 114, 113, 112]
    );
    assert_eq!(table_lookup(&v, &COUNT), v);
}

#[test]
fn equal_mask_has_one_bit_a_lane() {
    let v: [u8; 16] = [0, 254, 0, 0, 254, 0, 0, 0, 0, 0, 0, 0, 0, 0, 0, 254];
    assert_eq!(equal_mask(&v, 254), 0b1000_0000_0001_0010);
    assert_eq!(equal_mask(&v, 7), 0);
    assert_eq!(equal_mask(&[9u8; 16], 9), 0xffff);
    assert_eq!((equal_mask(&v, 254) | 0xffff_0000).trailing_zeros(), 1);
    assert_eq!((equal_mask(&v, 7) | 0xffff_0000).trailing_zeros(), 16);
}

#[test]
fn equal_nibble_mask_has_four_bits_a_lane() {
    let v: [u8; 16] = [0, 254, 0, 0, 254, 0, 0, 0, 0, 0, 0, 0, 0, 0, 0, 254];
    assert_eq!(equal_nibble_mask(&v, 254), 0xf000_0000_000f_00f0);
    assert_eq!(equal_nibble_mask(&v, 7), 0);
    assert_eq!(equal_nibble_mask(&[9u8; 16], 9), u64::MAX);
    assert_eq!(equal_nibble_mask(&v, 254).trailing_zeros() / 4, 1);
    assert_eq!(equal_nibble_mask(&v, 7).trailing_zeros() / 4, 16);
}

#[test]
fn excess_over_nine() {
    let v: [u8; 16] = [0, 9, 10, 254, 255, 1, 2, 3, 4, 5, 6, 7, 8, 9, 11, 47];
    assert_eq!(
        excess_over(&v, 9),
        [0, 0, 1, 245, 246, 0, 0, 0, 0, 0, 0, 0, 0, 0, 2, 38]
    );
    assert!(is_all_zero(&excess_over(&COUNT, 15)));
    assert!(!is_all_zero(&excess_over(&COUNT, 14)));
}

#[test]
fn at_least_ten() {
    let v: [u8; 16] = [0, 9, 10, 254, 255, 1, 2, 3, 4, 5, 6, 7, 8, 9, 11, 47];
    assert_eq!(
        at_least_mask(&v, 10),
        [0, 0, 255, 255, 255, 0, 0, 0, 0, 0, 0, 0, 0, 0, 255, 255]
    );
    assert!(is_all_zero(&at_least_mask(&[9u8; 16], 10)));
}

#[test]
fn or_lanes_and_zero_test() {
    let left: [u8; 16] = [1, 0, 0, 0, 0, 0, 0, 0, 0, 0, 0, 0, 0, 0, 0, 0x80];
    let right: [u8; 16] = [2, 0, 0, 0, 0, 0, 0, 0, 4, 0, 0, 0, 0, 0, 0, 0x01];
    assert_eq!(
        or_lanes(&left, &right),
        [3, 0, 0, 0, 0, 0, 0, 0, 4, 0, 0, 0, 0, 0, 0, 0x81]
    );
    assert!(is_all_zero(&[0u8; 16]));
    assert!(!is_all_zero(&left));
    let mut last = [0u8; 16];
    last[15] = 1;
    assert!(!is_all_zero(&last));
}

#[test]
fn multiply_add_pairs_cascade() {
    let digits: [u8; 16] = [1, 2, 3, 4, 5, 6, 7, 8, 9, 8, 7, 6, 5, 4, 3, 2];
    let two = multiply_add_pairs_u8(&digits, 10);
    assert_eq!(two, [12, 34, 56, 78, 98, 76, 54, 32]);
    let four = multiply_add_pairs_u16x8(&two, 100);
    assert_eq!(four, [1234, 5678, 9876, 5432]);
    let narrow = pack_saturating(&four);
    assert_eq!(narrow, [1234, 5678, 9876, 5432]);
    let eight = multiply_add_pairs_u16x4(&narrow, 10000);
    assert_eq!(eight, [12345678, 98765432]);
}

#[test]
fn multiply_add_pairs_takes_the_largest_lanes() {
    assert_eq!(multiply_add_pairs_u8(&[255u8; 16], 255), [65280u16; 8]);
    assert_eq!(
        multiply_add_pairs_u16x8(&[65535u16; 8], 65535),
        [4294901760u32; 4]
    );
    assert_eq!(
        multiply_add_pairs_u16x4(&[65535u16; 4], 65535),
        [4294901760u32; 2]
    );
}

#[test]
fn pack_saturating_stops_at_i16_max() {
    assert_eq!(
        pack_saturating(&[0, 32767, 32768, u32::MAX]),
        [0, 32767, 32767, 32767]
    );
}

#[test]
fn widening_multiply_accumulate_cascade() {
    // right digits of the pairs 8, 4, 6, 2, 7, 3, 5, 1, then their left digits
    let dealt: [u8; 16] = [2, 8, 6, 4, 4, 6, 8, 2, 3, 7, 7, 3, 5, 5, 9, 1];
    let two = widening_multiply_accumulate_u8(&dealt, 10);
    assert_eq!(two, [32, 78, 76, 34, 54, 56, 98, 12]);
    let four = widening_multiply_accumulate_u16(&two, 100);
    assert_eq!(four, [5432, 5678, 9876, 1234]);
    let eight = widening_multiply_accumulate_u32(&four, 10000);
    assert_eq!(eight, [98765432, 12345678]);
    let split = reinterpret_halves(&eight);
    assert_eq!(split, [98765432, 0, 12345678, 0]);
    let whole = widening_multiply_accumulate_u32(&split, 100000000);
    assert_eq!(whole, [1234567898765432, 0]);
}

#[test]
fn widening_multiply_accumulate_takes_the_largest_lanes() {
    assert_eq!(
        widening_multiply_accumulate_u8(&[255u8; 16], 255),
        [65280u16; 8]
    );
    assert_eq!(
        widening_multiply_accumulate_u16(&[65535u16; 8], 65535),
        [4294901760u32; 4]
    );
    assert_eq!(
        widening_multiply_accumulate_u32(&[u32::MAX; 4], u32::MAX),
        [18446744069414584320u64; 2]
    );
}

#[test]
fn reinterpret_halves_puts_the_low_half_first() {
    assert_eq!(
        reinterpret_halves(&[0x1122_3344_5566_7788, 0xffff_ffff_0000_0001]),
        [0x5566_7788, 0x1122_3344, 0x0000_0001, 0xffff_ffff]
    );
}
