use binc::bits::{mask_from_bit_to_bit, mask_n_ones_from_right, next_power_of_two_rounded_up};
use binc::number::{bits_of_flags, BitsIndex, BitsIndexRange, Number, NumberType};

fn full() -> BitsIndexRange {
    BitsIndexRange(BitsIndex::HighestBit, BitsIndex::LowestBit)
}

fn bits(high: usize, low: usize) -> BitsIndexRange {
    BitsIndexRange(BitsIndex::IndexedBit(high), BitsIndex::IndexedBit(low))
}

#[test]
fn mask_n_ones_from_right_test() {
    assert_eq!(0, mask_n_ones_from_right(0));
    assert_eq!(1, mask_n_ones_from_right(1));
    assert_eq!(0b11, mask_n_ones_from_right(2));
    assert_eq!(0b111, mask_n_ones_from_right(3));
    assert_eq!(0b1111, mask_n_ones_from_right(4));
    assert_eq!(0b11111, mask_n_ones_from_right(5));
    assert_eq!(0xff_ff_ff_ff, mask_n_ones_from_right(32));
    assert_eq!(0x7f_ff_ff_ff_ff_ff_ff_ff, mask_n_ones_from_right(63));
    assert_eq!(0xff_ff_ff_ff_ff_ff_ff_ff, mask_n_ones_from_right(64));
    assert_eq!(0x3f_ff_ff_ff_ff_ff_ff_ff_ff_ff_ff_ff_ff_ff_ff_ff, mask_n_ones_from_right(126));
    assert_eq!(0x7f_ff_ff_ff_ff_ff_ff_ff_ff_ff_ff_ff_ff_ff_ff_ff, mask_n_ones_from_right(127));
    assert_eq!(0xff_ff_ff_ff_ff_ff_ff_ff_ff_ff_ff_ff_ff_ff_ff_ff, mask_n_ones_from_right(128));
}

#[test]
fn mask_from_bit_to_bit_test() {
    assert_eq!(0b1, mask_from_bit_to_bit(0, 0));
    assert_eq!(0b11, mask_from_bit_to_bit(1, 0));
    assert_eq!(0b111, mask_from_bit_to_bit(2, 0));
    assert_eq!(0b1111, mask_from_bit_to_bit(3, 0));
    assert_eq!(0b10, mask_from_bit_to_bit(1, 1));
    assert_eq!(0b110, mask_from_bit_to_bit(2, 1));
    assert_eq!(0b1110, mask_from_bit_to_bit(3, 1));
}

#[test]
fn from_char() {
    let n = Number::from_char('a').unwrap();
    assert_eq!(0b01100001u128, n.get_bits(BitsIndexRange(BitsIndex::HighestBit, BitsIndex::LowestBit)));

    let n = Number::from_char('λ').unwrap();
    assert_eq!(0b0000001110111011, n.get_bits(BitsIndexRange(BitsIndex::HighestBit, BitsIndex::LowestBit)));

    let n = Number::from_char('心').unwrap();
    assert_eq!(0b0101111111000011u128, n.get_bits(BitsIndexRange(BitsIndex::HighestBit, BitsIndex::LowestBit)));
}

#[test]
fn from_negative_str_r10() {
    let n = Number::from_str("-0", 10).unwrap();
    assert_eq!(0, n.to_usize());

    let n = Number::from_str("-1", 10).unwrap();
    assert_eq!(0b11111111, n.to_usize());
}

#[test]
fn number_from_str_r10() {
    let n = Number::from_str("0", 10).unwrap();
    assert_eq!(0, n.to_usize());

    let n = Number::from_str("1", 10).unwrap();
    assert_eq!(1, n.to_usize());

    let n = Number::from_str("2", 10).unwrap();
    assert_eq!(0b10, n.to_usize());

    let n = Number::from_str("9", 10).unwrap();
    assert_eq!(0b1001, n.to_usize());

    let n = Number::from_str("10", 10).unwrap();
    assert_eq!(0b1010, n.to_usize());

    let n = Number::from_str("15", 10).unwrap();
    assert_eq!(0b1111, n.to_usize());

    let n = Number::from_str("16", 10).unwrap();
    assert_eq!(0b10000, n.to_usize());

    let n = Number::from_str(&*u8::MAX.to_string(), 10).unwrap();
    assert_eq!(0b11111111, n.to_usize());

    let n = Number::from_str(&*u32::MAX.to_string(), 10).unwrap();
    assert_eq!("0b11111111111111111111111111111111", n.to_string_prefixed(2));

    let n = Number::from_str("2147483648", 10).unwrap();
    assert_eq!("0b10000000000000000000000000000000", n.to_string_prefixed(2));
}

#[test]
fn number_from_str_r2() {
    let n = Number::from_str("10000000000000000000000000000000", 2).unwrap();
    assert_eq!("0b10000000000000000000000000000000", n.to_string_prefixed(2));

    let n = Number::from_str("0", 2).unwrap();
    assert_eq!(0, n.to_usize());

    let n = Number::from_str("1", 2).unwrap();
    assert_eq!(0b1, n.to_usize());

    let n = Number::from_str("10", 2).unwrap();
    assert_eq!(0b10, n.to_usize());

    let n = Number::from_str("1010", 2).unwrap();
    assert_eq!(0b1010, n.to_usize());

    let n = Number::from_str("1111", 2).unwrap();
    assert_eq!(0b1111, n.to_usize());

    let n = Number::from_str("11111", 2).unwrap();
    assert_eq!(0b11111, n.to_usize());

    let n = Number::from_str("1111111111111111111111111111111111111111", 2).unwrap();
    assert_eq!("0b1111111111111111111111111111111111111111", n.to_string_prefixed(2));
}

#[test]
fn number_from_str_r8() {
    let n = Number::from_str("1111", 8).unwrap();
    assert_eq!(0b1001001001, n.to_usize());
}

#[test]
fn number_from_str_r16() {
    let n = Number::from_str("F", 16).unwrap();
    assert_eq!(0b1111, n.to_usize());

    let n = Number::from_str("10", 16).unwrap();
    assert_eq!(0b10000, n.to_usize());

    let n = Number::from_str("1F", 16).unwrap();
    assert_eq!(0b11111, n.to_usize());

    let n = Number::from_str("AF", 16).unwrap();
    assert_eq!(0b10101111, n.to_usize());
}

#[test]
fn number_number_get_bits() {
    let n = Number::from_str("F", 16).unwrap();
    let bits = n.get_bits(BitsIndexRange(BitsIndex::HighestBit, BitsIndex::LowestBit));
    assert_eq!(0xf, bits);

    let n = Number::from_str("1E", 16).unwrap();
    let bits = n.get_bits(BitsIndexRange(BitsIndex::IndexedBit(3), BitsIndex::IndexedBit(0)));
    assert_eq!(0b1110, bits);
    let bits = n.get_bits(BitsIndexRange(BitsIndex::IndexedBit(4), BitsIndex::IndexedBit(1)));
    assert_eq!(0xf, bits);
    let bits = n.get_bits(BitsIndexRange(BitsIndex::HighestBit, BitsIndex::LowestBit));
    assert_eq!(0b00011110, bits);
}

#[test]
fn number_number_set_bits() {
    let mut n = Number::from_str("0", 16).unwrap();
    n.set_bits(BitsIndexRange(BitsIndex::HighestBit, BitsIndex::LowestBit), 0b11);
    assert_eq!(0b11, n.to_usize());
}

#[test]
fn number_to_usize() {
    let n = Number::from_str("0", 10).unwrap();
    assert_eq!(0, n.to_usize());

    let n = Number::from_str("1", 10).unwrap();
    assert_eq!(1, n.to_usize());

    let n = Number::from_str(&usize::MAX.to_string(), 10).unwrap();
    assert_eq!(usize::MAX, n.to_usize());
}

#[test]
fn number_range_add_bits() {
    let mut n = Number::from_str("0", 10).unwrap();
    assert_eq!(0, n.to_usize());
    n.range_add_bits(BitsIndexRange(BitsIndex::HighestBit, BitsIndex::LowestBit), 1);
    assert_eq!(1, n.to_usize());

    let mut n = Number::from_str("ffff00", 16).unwrap();
    n.range_add_bits(BitsIndexRange(BitsIndex::IndexedBit(23), BitsIndex::IndexedBit(8)), 1);
    assert_eq!(0x00_0000_00, n.to_usize());

    let mut n = Number::from_str("fffe00", 16).unwrap();
    n.range_add_bits(BitsIndexRange(BitsIndex::IndexedBit(23), BitsIndex::IndexedBit(8)), 1);
    assert_eq!(0xffff00, n.to_usize());

    let mut n = Number::from_str("0", 16).unwrap();
    n.range_add_bits(BitsIndexRange(BitsIndex::HighestBit, BitsIndex::IndexedBit(0)), 1);
    assert_eq!(1, n.to_usize());

    let mut n = Number::from_str("0", 16).unwrap();
    n.range_add_bits(BitsIndexRange(BitsIndex::IndexedBit(7), BitsIndex::IndexedBit(7)), 1);
    assert_eq!(0x80, n.to_usize());
}

#[test]
fn number_signed_shift_left() {
    let mut n = Number::from_str("1", 10).unwrap();
    assert_eq!(0b1, n.to_usize());
    n.signed_shift_left(BitsIndexRange(BitsIndex::HighestBit, BitsIndex::LowestBit), 1);
    assert_eq!(0b10, n.to_usize());
    n.signed_shift_left(BitsIndexRange(BitsIndex::HighestBit, BitsIndex::LowestBit), 1);
    assert_eq!(0b100, n.to_usize());

    let mut n = Number::new(NumberType::Integer, false, 32).unwrap();
    n.set_bits(BitsIndexRange(BitsIndex::HighestBit, BitsIndex::HighestBit), 1);
    n.signed_shift_left(BitsIndexRange(BitsIndex::HighestBit, BitsIndex::LowestBit), 1);
    assert_eq!(0, n.to_usize());

    let mut n = Number::new(NumberType::Integer, false, 32).unwrap();
    n.set_bits(BitsIndexRange(BitsIndex::IndexedBit(23), BitsIndex::IndexedBit(12)), 0xfff);
    n.signed_shift_left(BitsIndexRange(BitsIndex::HighestBit, BitsIndex::LowestBit), 1);
    assert_eq!(0x01_ff_e0_00, n.to_usize());

    n.signed_shift_left(BitsIndexRange(BitsIndex::IndexedBit(24), BitsIndex::IndexedBit(12)), 1);
    assert_eq!(0x01_ff_c0_00, n.to_usize());

    n.signed_shift_left(BitsIndexRange(BitsIndex::IndexedBit(24), BitsIndex::IndexedBit(12)), 1);
    assert_eq!(0x01_ff_80_00, n.to_usize());
}

#[test]
fn rounding_up_to_the_next_power_of_two() {
    assert_eq!(8, next_power_of_two_rounded_up(1).unwrap());
    assert_eq!(8, next_power_of_two_rounded_up(2).unwrap());
    assert_eq!(8, next_power_of_two_rounded_up(7).unwrap());
    assert_eq!(8, next_power_of_two_rounded_up(8).unwrap());
    assert_eq!(16, next_power_of_two_rounded_up(9).unwrap());
    assert_eq!(16, next_power_of_two_rounded_up(16).unwrap());
    assert_eq!(32, next_power_of_two_rounded_up(17).unwrap());
    assert_eq!(32, next_power_of_two_rounded_up(32).unwrap());
    assert_eq!(64, next_power_of_two_rounded_up(33).unwrap());
    assert_eq!(64, next_power_of_two_rounded_up(64).unwrap());
    assert_eq!(128, next_power_of_two_rounded_up(65).unwrap());
    assert_eq!(128, next_power_of_two_rounded_up(128).unwrap());
    assert_eq!(256, next_power_of_two_rounded_up(129).unwrap());
    assert_eq!(256, next_power_of_two_rounded_up(256).unwrap());
    assert_eq!(512, next_power_of_two_rounded_up(257).unwrap());
    assert_eq!(512, next_power_of_two_rounded_up(512).unwrap());
}

#[test]
fn width_rounding_of_zero_and_too_wide() {
    assert_eq!(8, next_power_of_two_rounded_up(0).unwrap());
    assert!(next_power_of_two_rounded_up(513).is_err());
    for n in 1..=512usize {
        let p = next_power_of_two_rounded_up(n).unwrap();
        assert!(p.is_power_of_two() && p >= 8 && p <= 512 && p >= n);
        assert!(p == 8 || p / 2 < n);
    }
}

#[test]
fn new_register_width_limits() {
    let n = Number::new(NumberType::Integer, true, 20).unwrap();
    assert_eq!(32, n.max_size());
    assert!(n.signed());
    assert_eq!(0, n.to_u128());
    assert!(Number::new(NumberType::Integer, true, 513).is_err());
}

#[test]
fn minus_one_literal_fills_eight_bits() {
    let n = Number::from_str("-1", 10).unwrap();
    assert_eq!(0b1111_1111, n.to_u128());
    assert!(n.signed());
    assert_eq!(8, n.max_size());
    assert_eq!("-1", n.to_string(10, false, false));
}

#[test]
fn literal_errors() {
    assert!(Number::from_str("12", 2).is_err());
    assert!(Number::from_str("1.5", 10).is_err());
    assert!(Number::from_str("1000000000000000000000000000000000000000000", 10).is_err());
    assert!(Number::from_str("z", 36).is_ok());
}

#[test]
fn set_then_get_round_trip() {
    let mut n = Number::new(NumberType::Integer, false, 32).unwrap();
    n.set_bits(bits(15, 8), 0x1ab);
    assert_eq!(0xab, n.get_bits(bits(15, 8)));
    assert_eq!(0xab00, n.to_u128());
    n.set_bits(bits(3, 0), 0xffff);
    assert_eq!(0xab0f, n.to_u128());
}

#[test]
fn literal_decimal_round_trip() {
    for v in [0u128, 1, 9, 10, 255, 256, 65535, 4294967296, u64::MAX as u128, u128::MAX] {
        let text = v.to_string();
        let n = Number::from_str(&text, 10).unwrap();
        assert_eq!(text, n.to_string(10, false, false));
    }
}

#[test]
fn negate_twice_is_identity() {
    let mut n = Number::from_str("5", 10).unwrap();
    n.convert(NumberType::Integer, true, 16);
    n.negate();
    assert_eq!(0xfffb, n.to_u128());
    assert_eq!("-5", n.to_string(10, false, false));
    n.negate();
    assert_eq!(5, n.to_u128());
    let mut z = Number::new(NumberType::Integer, true, 8).unwrap();
    z.negate();
    assert_eq!(0, z.to_u128());
}

#[test]
fn division_by_zero_leaves_register() {
    let mut n = Number::from_str("1234", 10).unwrap();
    assert!(n.range_div_bits(full(), 0).is_err());
    assert!(n.range_mod_bits(full(), 0).is_err());
    assert_eq!(1234, n.to_u128());
    assert_eq!(16, n.max_size());
    assert!(n.range_div_bits(full(), 10).is_ok());
    assert_eq!(123, n.to_u128());
    assert!(n.range_mod_bits(full(), 10).is_ok());
    assert_eq!(3, n.to_u128());
}

#[test]
fn range_arithmetic_wraps_in_range() {
    let mut n = Number::from_str("ff", 16).unwrap();
    n.range_subtract_bits(bits(3, 0), 1);
    assert_eq!(0xfe, n.to_u128());
    n.range_subtract_bits(bits(3, 0), 0xf);
    assert_eq!(0xff, n.to_u128());
    let mut n = Number::new(NumberType::Integer, false, 8).unwrap();
    n.set_bits(full(), 7);
    n.range_multiply_bits(full(), 40);
    assert_eq!(280 % 256, n.to_u128());
    n.set_bits(full(), 3);
    n.range_pow_bits(full(), 5);
    assert_eq!(243, n.to_u128());
    n.range_pow_bits(full(), 2);
    assert_eq!((243 * 243) % 256, n.to_u128());
    n.set_bits(full(), 0b1100);
    n.range_xor_bits(full(), 0b1010);
    assert_eq!(0b0110, n.to_u128());
    n.range_and_bits(full(), 0b0100);
    assert_eq!(0b0100, n.to_u128());
    n.range_or_bits(full(), 0b1001);
    assert_eq!(0b1101, n.to_u128());
}

#[test]
fn range_root_rounds_down() {
    let mut n = Number::new(NumberType::Integer, false, 32).unwrap();
    n.set_bits(full(), 1000);
    assert!(n.range_root_bits(full(), 3).is_ok());
    assert_eq!(10, n.to_u128());
    n.set_bits(full(), 99);
    assert!(n.range_root_bits(full(), 2).is_ok());
    assert_eq!(9, n.to_u128());
    assert!(n.range_root_bits(full(), 0).is_err());
    assert_eq!(9, n.to_u128());
}

#[test]
fn shifts_within_a_range() {
    let mut n = Number::new(NumberType::Integer, false, 8).unwrap();
    n.set_bits(full(), 0b1001_0110);
    n.signed_shift_right(bits(7, 4), 1);
    assert_eq!(0b1100_0110, n.to_u128());
    n.signed_shift_right(bits(3, 0), 2);
    assert_eq!(0b1100_0001, n.to_u128());
    n.unsigned_shift_right(full(), 3);
    assert_eq!(0b0001_1000, n.to_u128());
    n.signed_shift_left(full(), 200);
    assert_eq!(0, n.to_u128());
    n.set_bits(full(), 0b1000_0000);
    n.signed_shift_right(full(), 20);
    assert_eq!(0xff, n.to_u128());
}

#[test]
fn rotations_within_a_range() {
    let mut n = Number::new(NumberType::Integer, false, 8).unwrap();
    n.set_bits(full(), 0b1000_0001);
    n.unsigned_cyclic_shift_left(full(), 1);
    assert_eq!(0b0000_0011, n.to_u128());
    n.unsigned_cyclic_shift_right(full(), 2);
    assert_eq!(0b1100_0000, n.to_u128());
    n.unsigned_cyclic_shift_left(bits(7, 6), 3);
    assert_eq!(0b1100_0000, n.to_u128());
    n.unsigned_cyclic_shift_right(full(), 8);
    assert_eq!(0b1100_0000, n.to_u128());
}

#[test]
fn count_and_reverse_bits() {
    let mut n = Number::new(NumberType::Integer, false, 16).unwrap();
    n.set_bits(full(), 0b1011_0000_0000_0001);
    assert_eq!(4, n.range_count_bits(full(), 1));
    assert_eq!(12, n.range_count_bits(full(), 0));
    assert_eq!(usize::MAX, n.range_count_bits(full(), 2));
    n.range_reverse_bits(bits(7, 0));
    assert_eq!(0b1011_0000_1000_0000, n.to_u128());
    n.range_reverse_bits(full());
    assert_eq!(0b0000_0001_0000_1101, n.to_u128());
}

#[test]
fn shuffle_keeps_set_bit_count() {
    let mut n = Number::new(NumberType::Integer, false, 32).unwrap();
    n.set_bits(full(), 0xf0f0_0000);
    n.range_shuffle_bits(bits(15, 0));
    assert_eq!(0xf0f0_0000, n.to_u128());
    n.range_shuffle_bits(bits(31, 16));
    assert_eq!(8, n.range_count_bits(full(), 1));
    assert_eq!(0, n.to_u128() & 0xffff);
}

#[test]
fn sign_extension_and_conversion() {
    let mut n = Number::from_str("-2", 10).unwrap();
    assert_eq!(0xfe, n.to_u128());
    n.signed_extend_to(32);
    assert_eq!(0xffff_fffe, n.to_u128());
    assert_eq!(32, n.max_size());
    n.convert(NumberType::Integer, false, 16);
    assert_eq!(0xfffe, n.to_u128());
    assert!(!n.signed());
    let mut p = Number::from_str("7f", 16).unwrap();
    p.signed_extend_to(16);
    assert_eq!(0x7f, p.to_u128());
}

#[test]
fn formatting_in_radixes() {
    let mut n = Number::new(NumberType::Integer, false, 16).unwrap();
    n.set_bits(full(), 0xbeef);
    assert_eq!("0xbeef", n.to_string(16, true, false));
    assert_eq!("0d48879", n.to_string_prefixed(10));
    assert_eq!("137357", n.to_string(8, false, false));
    n.set_bits(full(), 0x2a);
    assert_eq!("002a", n.to_string(16, false, true));
    assert_eq!("0b0000000000101010", n.to_string(2, true, true));
    let m = Number::from_str("-128", 10).unwrap();
    assert!(m.is_negative());
    assert_eq!("-0", m.to_string(10, false, false));
}

#[test]
fn character_view() {
    let n = Number::from_char('a').unwrap();
    assert_eq!("'a'", n.to_string_as_char());
    let c = Number::from_str("7", 10).unwrap();
    assert_eq!(" ? ", c.to_string_as_char());
    let s = Number::from_str("d800", 16).unwrap();
    assert_eq!(" ? ", s.to_string_as_char());
}

#[test]
fn bits_of_flags_places_flag_j_at_bit_j() {
    assert_eq!(0, bits_of_flags(&vec![]));
    assert_eq!(0b0110, bits_of_flags(&vec![false, true, true, false]));
    assert_eq!(0b1, bits_of_flags(&vec![true, false, false]));
    let mut all = vec![false; 128];
    all[127] = true;
    all[0] = true;
    assert_eq!((1u128 << 127) | 1, bits_of_flags(&all));
}
