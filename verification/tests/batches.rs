use simd_decimal::parser::do_parse_many_decimals;
use simd_decimal::parser_aarch64::parse_decimals as parse_decimals_by_lookup;
use simd_decimal::parser_sse::do_parse_decimals;
use simd_decimal::{parse_decimals, ParseInput, ParseOutput};

/// Runs one numeral through each of the four entry points and checks that
/// they agree; returns the value, or `None` where the numeral is rejected.
fn parse_one(data: &[u8; 16], real_length: usize) -> Option<(u64, u8)> {
    let input = [ParseInput { data, real_length }];
    let stale = ParseOutput {
        mantissa: 77,
        exponent: 77,
    };
    let mut first = [stale];
    let mut second = [stale];
    let mut third = [stale];
    let mut fourth = [stale];
    let ok = parse_decimals::<1, false>(&input, &mut first);
    assert_eq!(ok, do_parse_decimals::<1, false>(&input, &mut second));
    assert_eq!(ok, do_parse_many_decimals::<1, false>(&input, &mut third));
    assert_eq!(ok, parse_decimals_by_lookup::<1, false>(&input, &mut fourth));
    if ok {
        assert_eq!(first, second);
        assert_eq!(first, third);
        assert_eq!(first, fourth);
        Some((first[0].mantissa, first[0].exponent))
    } else {
        None
    }
}

/// The same with the caller's promise that the numeral has no dot.
fn parse_one_integer(data: &[u8; 16], real_length: usize) -> Option<(u64, u8)> {
    let input = [ParseInput { data, real_length }];
    let stale = ParseOutput {
        mantissa: 77,
        exponent: 77,
    };
    let mut first = [stale];
    let mut second = [stale];
    let mut third = [stale];
    let mut fourth = [stale];
    let ok = parse_decimals::<1, true>(&input, &mut first);
    assert_eq!(ok, do_parse_decimals::<1, true>(&input, &mut second));
    assert_eq!(ok, do_parse_many_decimals::<1, true>(&input, &mut third));
    assert_eq!(ok, parse_decimals_by_lookup::<1, true>(&input, &mut fourth));
    if ok {
        assert_eq!(first, second);
        assert_eq!(first, third);
        assert_eq!(first, fourth);
        Some((first[0].mantissa, first[0].exponent))
    } else {
        None
    }
}

/// Puts `text` at the front of a window and fills the rest with `fill`.
fn window(text: &[u8], fill: u8) -> [u8; 16] {
    let mut data = [fill; 16];
    data[..text.len()].copy_from_slice(text);
    data
}

fn parse_text(text: &[u8]) -> Option<(u64, u8)> {
    parse_one(&window(text, b'#'), text.len())
}

/// The shortest text of `mantissa / 10^exponent`: no zero at the end of the
/// fraction, no zero before the dot.
fn minimal_text(mantissa: u64, exponent: u8) -> Vec<u8> {
    let mut mantissa = mantissa;
    let mut exponent = exponent;
    while exponent > 0 && mantissa % 10 == 0 {
        mantissa /= 10;
        exponent -= 1;
    }
    let mut reversed = Vec::new();
    let mut rest = mantissa;
    let mut behind = 0;
    while rest > 0 || behind < exponent {
        if behind == exponent && exponent > 0 {
            reversed.push(b'.');
        }
        reversed.push(b'0' + (rest % 10) as u8);
        rest /= 10;
        behind += 1;
    }
    if behind == exponent && exponent > 0 {
        reversed.push(b'.');
    }
    if reversed.is_empty() {
        reversed.push(b'0');
    }
    reversed.reverse();
    reversed
}

#[test]
fn known_numerals_by_every_entry_point() {
    assert_eq!(parse_one(b"987654321.123_..", 13), Some((987654321123, 3)));
    assert_eq!(parse_one(b"987654321123_..9", 12), Some((987654321123, 0)));
    assert_eq!(
        parse_one(b"1234567898765432", 16),
        Some((1234567898765432, 0))
    );
    assert_eq!(
        parse_one(b"9999999999999999", 16),
        Some((9999999999999999, 0))
    );
    assert_eq!(parse_one(b".000000000000001", 16), Some((1, 15)));
    assert_eq!(parse_one(b"987654321.------", 10), Some((987654321, 0)));
    assert_eq!(parse_one(b".987654321------", 10), Some((987654321, 9)));
    assert_eq!(parse_one(b"..987654321-----", 4), None);
    assert_eq!(parse_one(b".9876_54321-----", 10), None);
    assert_eq!(parse_one(b".9876\x0054321-----", 10), None);
}

#[test]
fn zeros_of_every_length() {
    for real_length in 0..=16 {
        assert_eq!(parse_one(b"0000000000000000", real_length), Some((0, 0)));
        assert_eq!(
            parse_one_integer(b"0000000000000000", real_length),
            Some((0, 0))
        );
    }
}

#[test]
fn the_empty_numeral_is_zero() {
    assert_eq!(parse_one(b"garbage, garbage", 0), Some((0, 0)));
    assert_eq!(parse_one_integer(b"garbage, garbage", 0), Some((0, 0)));
}

#[test]
fn a_lone_dot_is_zero() {
    assert_eq!(parse_text(b"."), Some((0, 0)));
}

#[test]
fn leading_zeros_do_not_count() {
    assert_eq!(parse_text(b"0007"), Some((7, 0)));
    assert_eq!(parse_text(b"00.50"), Some((50, 2)));
    assert_eq!(parse_text(b"0.0"), Some((0, 1)));
}

#[test]
fn mantissa_joins_two_groups_of_eight_digits() {
    assert_eq!(
        parse_text(b"1234567800000000"),
        Some((12345678 * 100000000, 0))
    );
    assert_eq!(parse_text(b"0000000012345678"), Some((12345678, 0)));
    assert_eq!(
        parse_text(b"0000000100000001"),
        Some((100000000 + 1, 0))
    );
    assert_eq!(
        parse_text(b"9000000000000009"),
        Some((9000000000000009, 0))
    );
}

#[test]
fn every_digit_in_every_lane() {
    let mut weight: u64 = 1;
    for lane in (0..16).rev() {
        for digit in 0..10u8 {
            let mut data = *b"0000000000000000";
            data[lane] = b'0' + digit;
            assert_eq!(parse_one(&data, 16), Some((digit as u64 * weight, 0)));
        }
        weight *= 10;
    }
}

#[test]
fn exponent_is_zero_without_a_dot() {
    for real_length in 1..=16 {
        let (_, exponent) = parse_one(b"1234567898765432", real_length).unwrap();
        assert_eq!(exponent, 0);
    }
}

#[test]
fn exponent_counts_the_bytes_behind_the_dot() {
    for real_length in 1..=16usize {
        for dot in 0..real_length {
            let mut data = *b"1111111111111111";
            data[dot] = b'.';
            let (mantissa, exponent) = parse_one(&data, real_length).unwrap();
            assert_eq!(exponent as usize, real_length - dot - 1);
            let mut ones: u64 = 0;
            for _ in 1..real_length {
                ones = ones * 10 + 1;
            }
            assert_eq!(mantissa, ones);
        }
    }
}

#[test]
fn mantissa_is_integer_part_shifted_plus_fraction() {
    let (mantissa, exponent) = parse_text(b"120.034").unwrap();
    assert_eq!(exponent, 3);
    assert_eq!(mantissa, 120 * 10u64.pow(3) + 34);
    let (mantissa, exponent) = parse_text(b"31415.9265358979").unwrap();
    assert_eq!(exponent, 10);
    assert_eq!(mantissa, 31415 * 10u64.pow(10) + 9265358979);
}

#[test]
fn every_foreign_byte_is_rejected_in_every_place() {
    for byte in 0..=255u8 {
        let foreign = !(byte.is_ascii_digit() || byte == b'.');
        for place in 0..16 {
            let mut data = *b"1234567898765432";
            data[place] = byte;
            assert_eq!(parse_one(&data, 16).is_none(), foreign);
            assert_eq!(
                parse_one_integer(&data, 16).is_none(),
                !byte.is_ascii_digit()
            );
        }
    }
}

#[test]
fn foreign_bytes_next_to_the_dot_are_rejected() {
    assert_eq!(parse_text(b"12\x00.5"), None);
    assert_eq!(parse_text(b"12/.5"), None);
    assert_eq!(parse_text(b"12.:5"), None);
    assert_eq!(parse_text(b"-1.5"), None);
    assert_eq!(parse_text(b"+1.5"), None);
    assert_eq!(parse_text(b"1e5"), None);
    assert_eq!(parse_text(b" 15"), None);
    assert_eq!(parse_text(b"1,5"), None);
}

#[test]
fn two_dots_are_rejected_wherever_they_stand() {
    for real_length in 2..=16usize {
        for first in 0..real_length {
            for second in first + 1..real_length {
                let mut data = *b"1234567898765432";
                data[first] = b'.';
                data[second] = b'.';
                assert_eq!(parse_one(&data, real_length), None);
            }
        }
    }
    assert_eq!(parse_text(b".."), None);
    assert_eq!(parse_text(b"1.2.3"), None);
    assert_eq!(parse_text(b"..."), None);
}

#[test]
fn what_lies_past_the_numeral_does_not_matter() {
    let texts: [&[u8]; 6] = [b"7", b"12.5", b".5", b"5.", b"1_2", b"3..4"];
    for text in texts {
        let plain = parse_one(&window(text, b'0'), text.len());
        for fill in [b'.', b'9', b'_', 0u8, 255u8, b' '] {
            assert_eq!(parse_one(&window(text, fill), text.len()), plain);
        }
    }
    assert_eq!(parse_one(&window(b"12.5", b'.'), 4), Some((125, 1)));
}

#[test]
fn known_integers_have_exponent_zero_and_refuse_dots() {
    assert_eq!(
        parse_one_integer(b"987654321123_..9", 12),
        Some((987654321123, 0))
    );
    assert_eq!(
        parse_one_integer(b"9999999999999999", 16),
        Some((9999999999999999, 0))
    );
    assert_eq!(parse_one_integer(b"987654321.123_..", 13), None);
    assert_eq!(parse_one_integer(b"987654321.------", 10), None);
    assert_eq!(parse_one_integer(b".987654321------", 10), None);
    assert_eq!(parse_one_integer(b"98765_4321------", 10), None);
}

const TEXTS: [(&[u8], u64, u8); 16] = [
    (b"0", 0, 0),
    (b"1", 1, 0),
    (b"12.5", 125, 1),
    (b".001", 1, 3),
    (b"987654321.123", 987654321123, 3),
    (b"9999999999999999", 9999999999999999, 0),
    (b".000000000000001", 1, 15),
    (b"100", 100, 0),
    (b"100.", 100, 0),
    (b"1.00", 100, 2),
    (b"42", 42, 0),
    (b"0.5", 5, 1),
    (b"314159.26535", 31415926535, 5),
    (b"00000000.0000000", 0, 7),
    (b"7.", 7, 0),
    (b".7", 7, 1),
];

fn check_batch<const N: usize>() {
    let mut windows = [[0u8; 16]; N];
    for n in 0..N {
        windows[n] = window(TEXTS[n].0, b'x');
    }
    let mut inputs = Vec::new();
    for n in 0..N {
        inputs.push(ParseInput {
            data: &windows[n],
            real_length: TEXTS[n].0.len(),
        });
    }
    let inputs: [ParseInput; N] = inputs.try_into().unwrap();
    let mut expected = [ParseOutput::default(); N];
    for n in 0..N {
        expected[n] = ParseOutput {
            mantissa: TEXTS[n].1,
            exponent: TEXTS[n].2,
        };
    }

    let mut outputs = [ParseOutput::default(); N];
    assert!(parse_decimals::<N, false>(&inputs, &mut outputs));
    assert_eq!(outputs, expected);
    let mut outputs = [ParseOutput::default(); N];
    assert!(do_parse_decimals::<N, false>(&inputs, &mut outputs));
    assert_eq!(outputs, expected);
    let mut outputs = [ParseOutput::default(); N];
    assert!(do_parse_many_decimals::<N, false>(&inputs, &mut outputs));
    assert_eq!(outputs, expected);
    let mut outputs = [ParseOutput::default(); N];
    assert!(parse_decimals_by_lookup::<N, false>(&inputs, &mut outputs));
    assert_eq!(outputs, expected);

    // one malformed numeral, wherever it stands, fails the batch
    let bad = window(b"1x", b'0');
    for place in 0..N {
        let mut spoiled = inputs;
        spoiled[place] = ParseInput {
            data: &bad,
            real_length: 2,
        };
        let mut outputs = [ParseOutput::default(); N];
        assert!(!parse_decimals::<N, false>(&spoiled, &mut outputs));
        assert!(!do_parse_decimals::<N, false>(&spoiled, &mut outputs));
        assert!(!do_parse_many_decimals::<N, false>(&spoiled, &mut outputs));
        assert!(!parse_decimals_by_lookup::<N, false>(&spoiled, &mut outputs));
    }
}

#[test]
fn batch_of_one() {
    check_batch::<1>();
}

#[test]
fn batch_of_two() {
    check_batch::<2>();
}

#[test]
fn batch_of_four() {
    check_batch::<4>();
}

#[test]
fn batch_of_eight() {
    check_batch::<8>();
}

#[test]
fn batch_of_sixteen() {
    check_batch::<16>();
}

#[test]
fn batch_of_none_is_accepted() {
    let inputs: [ParseInput; 0] = [];
    let mut outputs: [ParseOutput; 0] = [];
    assert!(parse_decimals::<0, false>(&inputs, &mut outputs));
    assert!(do_parse_decimals::<0, true>(&inputs, &mut outputs));
    assert!(do_parse_many_decimals::<0, false>(&inputs, &mut outputs));
    assert!(parse_decimals_by_lookup::<0, true>(&inputs, &mut outputs));
}

#[test]
fn outputs_follow_their_inputs_when_the_batch_is_rearranged() {
    let windows: Vec<[u8; 16]> = TEXTS.iter().map(|text| window(text.0, b'?')).collect();
    let make = |n: usize| ParseInput {
        data: &windows[n],
        real_length: TEXTS[n].0.len(),
    };
    let straight = [make(2), make(3), make(4), make(5)];
    let mut straight_out = [ParseOutput::default(); 4];
    assert!(parse_decimals::<4, false>(&straight, &mut straight_out));

    let picks = [3, 0, 0, 2, 1, 3, 1, 0];
    let dealt = [
        straight[3],
        straight[0],
        straight[0],
        straight[2],
        straight[1],
        straight[3],
        straight[1],
        straight[0],
    ];
    let mut dealt_out = [ParseOutput::default(); 8];
    assert!(parse_decimals::<8, false>(&dealt, &mut dealt_out));
    for place in 0..8 {
        assert_eq!(dealt_out[place], straight_out[picks[place]]);
    }
}

#[test]
fn known_integer_batch_clears_stale_exponents() {
    let first = window(b"15", b'.');
    let second = window(b"0000000000000016", b'.');
    let inputs = [
        ParseInput {
            data: &first,
            real_length: 2,
        },
        ParseInput {
            data: &second,
            real_length: 16,
        },
    ];
    let stale = ParseOutput {
        mantissa: 1,
        exponent: 9,
    };
    let expected = [
        ParseOutput {
            mantissa: 15,
            exponent: 0,
        },
        ParseOutput {
            mantissa: 16,
            exponent: 0,
        },
    ];
    let mut outputs = [stale; 2];
    assert!(parse_decimals::<2, true>(&inputs, &mut outputs));
    assert_eq!(outputs, expected);
    let mut outputs = [stale; 2];
    assert!(do_parse_decimals::<2, true>(&inputs, &mut outputs));
    assert_eq!(outputs, expected);
    let mut outputs = [stale; 2];
    assert!(do_parse_many_decimals::<2, true>(&inputs, &mut outputs));
    assert_eq!(outputs, expected);
    let mut outputs = [stale; 2];
    assert!(parse_decimals_by_lookup::<2, true>(&inputs, &mut outputs));
    assert_eq!(outputs, expected);
}

#[test]
fn shortest_text_parses_back_to_the_same_pair() {
    let mantissas = [
        0u64,
        1,
        7,
        12,
        125,
        1001,
        987654321123,
        123456789012345,
        999999999999999,
        100000000000001,
    ];
    for mantissa in mantissas {
        for exponent in 0..=15u8 {
            let text = minimal_text(mantissa, exponent);
            assert!(text.len() <= 16);
            let (mut kept, mut places) = (mantissa, exponent);
            while places > 0 && kept % 10 == 0 {
                kept /= 10;
                places -= 1;
            }
            assert_eq!(parse_text(&text), Some((kept, places)));
            if exponent == 0 || mantissa % 10 != 0 {
                assert_eq!(parse_text(&text), Some((mantissa, exponent)));
            }
        }
    }
}

#[test]
fn shortest_text_of_sixteen_digit_integers_parses_back() {
    for mantissa in [
        9999999999999999u64,
        1000000000000000,
        1234567898765432,
        9007199254740993,
    ] {
        let text = minimal_text(mantissa, 0);
        assert_eq!(text.len(), 16);
        assert_eq!(parse_text(&text), Some((mantissa, 0)));
    }
    // zeros at the end of the fraction go, and with them the dot
    assert_eq!(minimal_text(1230000000000000, 13), b"123".to_vec());
    assert_eq!(parse_text(&minimal_text(1230000000000000, 13)), Some((123, 0)));
    assert_eq!(minimal_text(5, 1), b".5".to_vec());
    assert_eq!(minimal_text(50, 2), b".5".to_vec());
    assert_eq!(minimal_text(1, 15), b".000000000000001".to_vec());
    assert_eq!(minimal_text(0, 7), b"0".to_vec());
    assert_eq!(minimal_text(1500, 2), b"15".to_vec());
    assert_eq!(minimal_text(1505, 2), b"15.05".to_vec());
}

#[test]
fn default_output_is_zero() {
    assert_eq!(
        ParseOutput::default(),
        ParseOutput {
            mantissa: 0,
            exponent: 0
        }
    );
}
