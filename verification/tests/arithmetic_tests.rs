use binpack_reader::arithmetic::{
    nth_set_bit_index, nth_set_bit_index_naive, signed_to_unsigned, unsigned_to_signed, used_bits,
};

#[test]
fn test_nth_set_bit_index() {
    let test_value = 0b10110110u64;
    assert_eq!(nth_set_bit_index(test_value, 0), 1);
    assert_eq!(nth_set_bit_index(test_value, 1), 2);
    assert_eq!(nth_set_bit_index(test_value, 2), 4);
    assert_eq!(nth_set_bit_index(test_value, 3), 5);
    assert_eq!(nth_set_bit_index(test_value, 4), 7);
}

#[test]
fn nth_set_bit_is_set_and_has_n_bits_below() {
    let samples = [
        1u64,
        0x8000_0000_0000_0000,
        0xFFFF_FFFF_FFFF_FFFF,
        0x0123_4567_89AB_CDEF,
        0xAAAA_AAAA_5555_5555,
        0x0000_0001_0000_0000,
    ];
    for v in samples {
        for n in 0..v.count_ones() as u64 {
            let i = nth_set_bit_index(v, n);
            assert!(i < 64);
            assert_eq!((v >> i) & 1, 1);
            let below = if i == 0 { 0 } else { v & (u64::MAX >> (64 - i)) };
            assert_eq!(below.count_ones() as u64, n);
        }
    }
}

#[test]
fn nth_set_bit_in_the_high_half() {
    assert_eq!(nth_set_bit_index(0x8000_0000_0000_0001, 1), 63);
    assert_eq!(nth_set_bit_index(0x0000_0100_0000_0000, 0), 40);
}

#[test]
fn zigzag_exact_values() {
    assert_eq!(signed_to_unsigned(0), 0);
    assert_eq!(signed_to_unsigned(-1), 1);
    assert_eq!(signed_to_unsigned(1), 2);
    assert_eq!(signed_to_unsigned(-2), 3);
    assert_eq!(signed_to_unsigned(2), 4);
    assert_eq!(signed_to_unsigned(25), 50);
    assert_eq!(signed_to_unsigned(i16::MAX), 65534);
    assert_eq!(signed_to_unsigned(i16::MIN), 65535);
    assert_eq!(unsigned_to_signed(0), 0);
    assert_eq!(unsigned_to_signed(1), -1);
    assert_eq!(unsigned_to_signed(2), 1);
    assert_eq!(unsigned_to_signed(3), -2);
    assert_eq!(unsigned_to_signed(65535), i16::MIN);
    assert_eq!(unsigned_to_signed(65534), i16::MAX);
}

#[test]
fn zigzag_round_trips_for_every_value() {
    for x in i16::MIN..=i16::MAX {
        assert_eq!(unsigned_to_signed(signed_to_unsigned(x)), x);
    }
    for r in 0..=u16::MAX {
        assert_eq!(signed_to_unsigned(unsigned_to_signed(r)), r);
    }
}

#[test]
fn zigzag_grows_with_the_magnitude() {
    let values = [0i16, -1, 1, -2, 2, -100, 100, -32767, 32767];
    for x in values {
        for y in values {
            if (x as i32).abs() < (y as i32).abs() {
                assert!(signed_to_unsigned(x) < signed_to_unsigned(y));
            }
        }
    }
}

#[test]
fn used_bits_exact_values() {
    assert_eq!(used_bits(0), 0);
    assert_eq!(used_bits(1), 1);
    assert_eq!(used_bits(2), 2);
    assert_eq!(used_bits(3), 2);
    assert_eq!(used_bits(4), 3);
    assert_eq!(used_bits(7), 3);
    assert_eq!(used_bits(8), 4);
    assert_eq!(used_bits(16), 5);
    assert_eq!(used_bits(255), 8);
    assert_eq!(used_bits(256), 9);
    assert_eq!(used_bits(u64::MAX), 64);
}

#[test]
fn both_ways_of_finding_the_nth_set_bit_agree() {
    let mut v = 0x9E37_79B9_7F4A_7C15u64;
    for _ in 0..200 {
        v = v.wrapping_mul(6_364_136_223_846_793_005).wrapping_add(1_442_695_040_888_963_407);
        for n in 0..v.count_ones() as u64 {
            assert_eq!(nth_set_bit_index(v, n), nth_set_bit_index_naive(v, n));
        }
    }
    for i in 0..64u32 {
        assert_eq!(nth_set_bit_index(1u64 << i, 0), i);
        assert_eq!(nth_set_bit_index(u64::MAX, i as u64), i);
    }
}
