use snap_coin_pool::bytes::{from_le_bytes, same_bytes, to_be_bytes, to_le_bytes};
use snap_coin_pool::difficulty::{
    biguint_is_zero, biguint_to_u128, compute_work_units_q64_64, ease_target,
    leading_zero_nibbles_256, max_target_bytes, network_difficulty, share_difficulty_from_hash,
    target_difficulty_ratio, target_leading_zero_bits, TargetRatio,
};
use snap_coin_pool::handle_share::block_difficulty_from_hash;
use snap_coin_pool::magnitude::Magnitude;

fn target(byte: usize, value: u8) -> [u8; 32] {
    let mut t = [0u8; 32];
    t[byte] = value;
    t
}

#[test]
fn largest_target_is_all_ones() {
    assert_eq!(max_target_bytes(), [0xFF; 32]);
}

#[test]
fn difficulty_of_the_easiest_hash_is_one() {
    assert_eq!(share_difficulty_from_hash(&[0xFF; 32]), 1);
    assert_eq!(block_difficulty_from_hash(&[0xFF; 32]), 1);
}

#[test]
fn difficulty_of_the_zero_hash_is_zero() {
    assert_eq!(share_difficulty_from_hash(&[0; 32]), 0);
    assert_eq!(share_difficulty_from_hash(&[]), 0);
    assert_eq!(block_difficulty_from_hash(&[0; 32]), 0);
}

#[test]
fn difficulty_is_the_quotient_of_the_largest_target() {
    // (2^256 - 1) / 2^248 = 255, (2^256 - 1) / 2^240 = 65535
    assert_eq!(share_difficulty_from_hash(&target(0, 1)), 255);
    assert_eq!(share_difficulty_from_hash(&target(1, 1)), 65535);
    assert_eq!(block_difficulty_from_hash(&target(1, 1)), 65535);
    // (2^256 - 1) / (3 * 2^248) = 85
    assert_eq!(share_difficulty_from_hash(&target(0, 3)), 85);
}

#[test]
fn difficulty_is_clamped_to_64_bits() {
    // (2^256 - 1) / 2^192 = 2^64 - 1 still fits.
    assert_eq!(share_difficulty_from_hash(&target(7, 1)), u64::MAX);
    assert_eq!(share_difficulty_from_hash(&target(8, 1)), u64::MAX);
    assert_eq!(share_difficulty_from_hash(&target(31, 1)), u64::MAX);
    assert_eq!(share_difficulty_from_hash(&target(7, 2)), u64::MAX / 2);
}

#[test]
fn network_difficulty_of_the_zero_target_is_the_largest() {
    assert_eq!(network_difficulty(&[0; 32]), u64::MAX);
    assert_eq!(network_difficulty(&[0xFF; 32]), 1);
    assert_eq!(network_difficulty(&target(1, 1)), 65535);
    assert_eq!(network_difficulty(&target(31, 1)), u64::MAX);
}

#[test]
fn larger_hashes_are_less_difficult() {
    let mut last = u64::MAX;
    for v in 1..=255u8 {
        let d = share_difficulty_from_hash(&target(2, v));
        assert!(d <= last);
        last = d;
    }
}

#[test]
fn easing_doubles_a_target() {
    assert_eq!(ease_target(&target(31, 5), 2), target(31, 10));
    assert_eq!(ease_target(&target(31, 128), 2), target(30, 1));
    assert_eq!(ease_target(&target(31, 1), 65536), target(29, 1));
}

#[test]
fn easing_stops_at_the_largest_target() {
    assert_eq!(ease_target(&target(0, 128), 2), [0xFF; 32]);
    assert_eq!(ease_target(&[0xFF; 32], 2), [0xFF; 32]);
    let mut almost = [0xFF; 32];
    almost[0] = 0x7F;
    let mut doubled = [0xFF; 32];
    doubled[31] = 0xFE;
    assert_eq!(ease_target(&almost, 2), doubled);
}

#[test]
fn easing_leaves_the_zero_target_alone() {
    assert_eq!(ease_target(&[0; 32], 2), [0; 32]);
    assert_eq!(ease_target(&target(5, 9), 0), [0; 32]);
    assert_eq!(ease_target(&target(5, 9), 1), target(5, 9));
}

#[test]
fn base_share_is_worth_one_unit() {
    for v in [1u8, 3, 127, 255] {
        let t = target(2, v);
        assert_eq!(compute_work_units_q64_64(&t, &t), 1u128 << 64);
    }
}

#[test]
fn easier_shares_are_worth_less() {
    let base = target(4, 1);
    assert_eq!(compute_work_units_q64_64(&base, &target(4, 2)), 1u128 << 63);
    assert_eq!(compute_work_units_q64_64(&base, &target(4, 3)), (1u128 << 64) / 3);
    assert_eq!(compute_work_units_q64_64(&base, &target(5, 1)), 1u128 << 72);
}

#[test]
fn work_units_are_clamped() {
    assert_eq!(compute_work_units_q64_64(&target(31, 1), &[0xFF; 32]), 1);
    assert_eq!(compute_work_units_q64_64(&[0xFF; 32], &target(31, 1)), u128::MAX);
    assert_eq!(compute_work_units_q64_64(&[0xFF; 32], &[0; 32]), 1);
    assert_eq!(compute_work_units_q64_64(&[0; 32], &target(31, 1)), 1);
}

#[test]
fn leading_zero_bits_are_counted() {
    assert_eq!(target_leading_zero_bits(&[0xFF; 32]), 0);
    assert_eq!(target_leading_zero_bits(&target(0, 1)), 7);
    assert_eq!(target_leading_zero_bits(&target(2, 0x10)), 19);
    assert_eq!(target_leading_zero_bits(&target(31, 1)), 255);
    assert_eq!(target_leading_zero_bits(&[0; 32]), 256);
}

#[test]
fn leading_zero_digits_are_counted() {
    assert_eq!(leading_zero_nibbles_256(&[0xFF; 32]), 0);
    assert_eq!(leading_zero_nibbles_256(&target(0, 0x0F)), 1);
    assert_eq!(leading_zero_nibbles_256(&target(2, 0x10)), 4);
    assert_eq!(leading_zero_nibbles_256(&target(2, 0x0F)), 5);
    assert_eq!(leading_zero_nibbles_256(&[0; 32]), 64);
}

#[test]
fn a_digit_is_four_bits() {
    for i in 0..32 {
        for v in [1u8, 2, 9, 15, 16, 77, 128, 255] {
            let t = target(i, v);
            assert_eq!(leading_zero_nibbles_256(&t), target_leading_zero_bits(&t) / 4);
        }
    }
}

#[test]
fn ratios_are_in_millionths() {
    let base = target(3, 1);
    assert_eq!(target_difficulty_ratio(&base, &base), TargetRatio::Millionths(1_000_000));
    assert_eq!(target_difficulty_ratio(&base, &target(3, 2)), TargetRatio::Millionths(2_000_000));
    assert_eq!(target_difficulty_ratio(&target(3, 3), &base), TargetRatio::Millionths(333_333));
    assert_eq!(target_difficulty_ratio(&[0; 32], &base), TargetRatio::Undefined);
    assert_eq!(target_difficulty_ratio(&base, &[0; 32]), TargetRatio::Undefined);
    assert_eq!(target_difficulty_ratio(&target(31, 1), &[0xFF; 32]), TargetRatio::TooLarge);
}

#[test]
fn numbers_fit_into_128_bits_or_not() {
    assert!(biguint_is_zero(&Magnitude { bytes: vec![0] }));
    assert!(!biguint_is_zero(&Magnitude { bytes: vec![1] }));
    assert_eq!(biguint_to_u128(&Magnitude { bytes: vec![0] }), Some(0));
    assert_eq!(biguint_to_u128(&Magnitude { bytes: vec![1, 0] }), Some(256));
    assert_eq!(biguint_to_u128(&Magnitude { bytes: vec![0xFF; 16] }), Some(u128::MAX));
    assert_eq!(biguint_to_u128(&Magnitude { bytes: vec![1; 17] }), None);
}

#[test]
fn byte_strings_are_numbers() {
    assert_eq!(to_le_bytes(0x0102_0304, 8), 0x0102_0304u64.to_le_bytes().to_vec());
    assert_eq!(to_le_bytes(u128::MAX - 5, 16), (u128::MAX - 5).to_le_bytes().to_vec());
    assert_eq!(from_le_bytes(&vec![4, 3, 2, 1]), 0x0102_0304);
    assert_eq!(to_be_bytes(0x0102_0304_0506_0708), vec![1, 2, 3, 4, 5, 6, 7, 8]);
    assert!(same_bytes(&[1, 2], &[1, 2]));
    assert!(!same_bytes(&[1, 2], &[1, 3]));
    assert!(!same_bytes(&[1, 2], &[1]));
}
