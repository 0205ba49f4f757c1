use snap_coin_pool::text::{
    difficulty_full_int_from_target, hex_encode, hex_short, human_pool_difficulty_from_target_bytes,
};

#[test]
fn hex_has_two_lower_case_digits_a_byte() {
    let mut b = [0u8; 32];
    b[0] = 0xAB;
    b[1] = 0x05;
    b[31] = 0xF0;
    let want = format!("ab05{}f0", "00".repeat(29));
    assert_eq!(hex_encode(&b), want);
}

#[test]
fn short_hex_is_the_first_eight_digits() {
    let mut b = [0x11u8; 32];
    b[0] = 0xDE;
    b[3] = 0x0F;
    assert_eq!(hex_short(&b), "de11110f");
    assert_eq!(hex_short(&b), hex_encode(&b)[..8]);
}

#[test]
fn different_bytes_have_different_hex() {
    let mut seen: Vec<String> = Vec::new();
    for v in 0..=255u8 {
        let mut b = [7u8; 32];
        b[9] = v;
        let h = hex_encode(&b);
        assert!(!seen.contains(&h));
        assert_eq!(h[18..20], format!("{:02x}", v));
        seen.push(h);
    }
}

#[test]
fn difficulty_is_a_power_of_sixteen_in_full() {
    let mut t = [0xFFu8; 32];
    assert_eq!(difficulty_full_int_from_target(&t), "1");
    t[0] = 0;
    t[1] = 0;
    assert_eq!(difficulty_full_int_from_target(&t), "65536");
    assert_eq!(human_pool_difficulty_from_target_bytes(&t), "65536");
    t[2] = 0x0F;
    assert_eq!(difficulty_full_int_from_target(&t), "1048576");
    assert_eq!(human_pool_difficulty_from_target_bytes(&t), "1048576");
}

#[test]
fn difficulty_of_every_digit_count_is_exact() {
    for n in 0..=64u32 {
        let mut t = [0u8; 32];
        if n < 64 {
            t[n as usize / 2] = if n % 2 == 0 { 0x10 } else { 0x01 };
        }
        let want = format!("{:.0}", 16f64.powi(n as i32));
        assert_eq!(difficulty_full_int_from_target(&t), want);
        assert_eq!(human_pool_difficulty_from_target_bytes(&t), want);
    }
}
