use simd_decimal::parser_aarch64::{a, b, generate_shuffle_acc, SHUFFLE_ACC};
use simd_decimal::tables::{
    generate_dot_for, generate_dot_shuffle_control, generate_length_shift_control,
    generate_length_shift_field, generate_length_shift_for, generate_single_dot_field,
    DOT_SHUFFLE_CONTROL, EXPONENT_FROM_BITS, LENGTH_SHIFT_CONTROL, ZERO_FILL,
};

#[test]
fn length_shift_field_fills_the_front_with_zero() {
    assert_eq!(generate_length_shift_field(3, 0), ZERO_FILL);
    assert_eq!(generate_length_shift_field(3, 12), ZERO_FILL);
    assert_eq!(generate_length_shift_field(3, 13), 0);
    assert_eq!(generate_length_shift_field(3, 15), 2);
}

#[test]
fn length_shift_for_the_extremes() {
    assert_eq!(generate_length_shift_for(0), [255u8; 16]);
    assert_eq!(
        generate_length_shift_for(16),
        [0, 1, 2, 3, 4, 5, 6, 7, 8, 9, 10, 11, 12, 13, 14, 15]
    );
    assert_eq!(
        generate_length_shift_for(1),
        [255, 255, 255, 255, 255, 255, 255, 255, 255, 255, 255, 255, 255, 255, 255, 0]
    );
}

#[test]
fn length_shift_table_is_what_the_generator_computes() {
    assert_eq!(generate_length_shift_control(), LENGTH_SHIFT_CONTROL);
    for length in 0..=16u8 {
        assert_eq!(
            generate_length_shift_for(length),
            LENGTH_SHIFT_CONTROL[length as usize]
        );
        for lane in 0..16u8 {
            let expected = if lane < 16 - length {
                255
            } else {
                lane - (16 - length)
            };
            assert_eq!(
                LENGTH_SHIFT_CONTROL[length as usize][lane as usize],
                expected
            );
        }
    }
}

#[test]
fn single_dot_field_shifts_up_to_the_dot() {
    // lanes past the dot stay
    assert_eq!(generate_single_dot_field(5, 6), 6);
    assert_eq!(generate_single_dot_field(5, 15), 15);
    // the dot's lane and those before it read their left neighbour
    assert_eq!(generate_single_dot_field(5, 5), 4);
    assert_eq!(generate_single_dot_field(5, 1), 0);
    // lane 0 has none
    assert_eq!(generate_single_dot_field(5, 0), ZERO_FILL);
    assert_eq!(generate_single_dot_field(0, 0), ZERO_FILL);
    // no dot: identity
    assert_eq!(generate_single_dot_field(16, 0), 0);
    assert_eq!(generate_single_dot_field(16, 7), 7);
    assert_eq!(generate_single_dot_field(200, 3), 3);
}

#[test]
fn dot_for_the_extremes() {
    assert_eq!(
        generate_dot_for(0),
        [255, 1, 2, 3, 4, 5, 6, 7, 8, 9, 10, 11, 12, 13, 14, 15]
    );
    assert_eq!(
        generate_dot_for(15),
        [255, 0, 1, 2, 3, 4, 5, 6, 7, 8, 9, 10, 11, 12, 13, 14]
    );
    assert_eq!(
        generate_dot_for(16),
        [0, 1, 2, 3, 4, 5, 6, 7, 8, 9, 10, 11, 12, 13, 14, 15]
    );
    assert_eq!(generate_dot_for(33), generate_dot_for(16));
}

#[test]
fn dot_shuffle_table_is_what_the_generator_computes() {
    assert_eq!(generate_dot_shuffle_control(), DOT_SHUFFLE_CONTROL);
    for dot in 0..=16u8 {
        assert_eq!(generate_dot_for(dot), DOT_SHUFFLE_CONTROL[dot as usize]);
        for lane in 0..16u8 {
            assert_eq!(
                DOT_SHUFFLE_CONTROL[dot as usize][lane as usize],
                generate_single_dot_field(dot, lane)
            );
        }
    }
}

#[test]
fn exponent_table_counts_down_from_fifteen() {
    for lane in 0..16usize {
        assert_eq!(EXPONENT_FROM_BITS[lane] as usize, 15 - lane);
    }
    assert_eq!(EXPONENT_FROM_BITS[16], 0);
    assert_eq!(EXPONENT_FROM_BITS.len(), 17);
}

#[test]
fn pair_lanes_count_from_one() {
    assert_eq!(a(1), 0);
    assert_eq!(b(1), 1);
    assert_eq!(a(8), 14);
    assert_eq!(b(8), 15);
    assert_eq!(a(128), 254);
    assert_eq!(b(128), 255);
}

#[test]
fn shuffle_acc_is_what_the_generator_computes() {
    assert_eq!(generate_shuffle_acc(), SHUFFLE_ACC);
    assert_eq!(
        SHUFFLE_ACC,
        [15, 7, 11, 3, 13, 5, 9, 1, 14, 6, 10, 2, 12, 4, 8, 0]
    );
    let mut seen = [false; 16];
    for lane in SHUFFLE_ACC {
        seen[lane as usize] = true;
    }
    assert_eq!(seen, [true; 16]);
}
