use snap_coin::crypto::keys::Private;
use snap_coin_pool::config::{
    default_data_dir, default_max_conn, default_port, ensure_data_dir, parse_hex_difficulty,
    parse_trimmed_difficulty, Config, ConfigError, DataDirStep, HexError, RawConfig,
};
use snap_coin_pool::text::hex_encode;

fn keys() -> (Private, Private) {
    (Private::new_from_buf(&[9; 32]), Private::new_from_buf(&[10; 32]))
}

fn raw() -> RawConfig {
    let (pool, dev) = keys();
    RawConfig {
        pool_private: pool.dump_base36(),
        pool_dev: dev.to_public().dump_base36(),
        pool_difficulty: "00".repeat(2) + &"ff".repeat(30),
        pool_port: 5333,
        pool_max_conn: 5,
    }
}

#[test]
fn there_are_defaults() {
    assert_eq!(default_port(), 5333);
    assert_eq!(default_data_dir(), "./pool-data");
    assert_eq!(default_max_conn(), 5);
}

#[test]
fn a_difficulty_is_64_digits() {
    let mut want = [0xFFu8; 32];
    want[0] = 0;
    want[1] = 0x1A;
    let text = "001a".to_string() + &"ff".repeat(30);
    assert_eq!(parse_hex_difficulty(&text), Ok(want));
    assert_eq!(parse_hex_difficulty(&text.to_uppercase()), Ok(want));
    assert_eq!(parse_hex_difficulty(&format!("0x{}", text)), Ok(want));
    assert_eq!(parse_hex_difficulty(&format!(" \t0x{}\r\n\u{a0}", text)), Ok(want));
    assert_eq!(parse_trimmed_difficulty(&text), Ok(want));
}

#[test]
fn a_spelled_target_is_read_back() {
    for v in 0..=255u8 {
        let mut t = [v; 32];
        t[7] = v.wrapping_mul(31);
        assert_eq!(parse_hex_difficulty(&hex_encode(&t)), Ok(t));
        assert_eq!(parse_hex_difficulty(&format!("0x{}", hex_encode(&t))), Ok(t));
        assert_eq!(parse_hex_difficulty(&hex_encode(&t).to_uppercase()), Ok(t));
        assert_eq!(parse_hex_difficulty(&format!("\n 0x{}\t", hex_encode(&t).to_uppercase())), Ok(t));
    }
}

#[test]
fn a_difficulty_of_another_length_is_refused() {
    assert_eq!(parse_hex_difficulty(""), Err(HexError::Length(0)));
    assert_eq!(parse_hex_difficulty("0x"), Err(HexError::Length(0)));
    assert_eq!(parse_hex_difficulty(&"f".repeat(63)), Err(HexError::Length(63)));
    assert_eq!(parse_hex_difficulty(&"f".repeat(65)), Err(HexError::Length(65)));
    assert_eq!(parse_hex_difficulty(&format!("0X{}", "f".repeat(64))), Err(HexError::Length(66)));
    assert_eq!(parse_hex_difficulty(&format!("0x0x{}", "f".repeat(64))), Err(HexError::Length(66)));
    assert_eq!(parse_hex_difficulty(&"é".repeat(64)), Err(HexError::Length(128)));
}

#[test]
fn other_characters_are_refused_where_they_stand() {
    let mut text = "f".repeat(64);
    text.replace_range(10..11, "g");
    assert_eq!(parse_hex_difficulty(&text), Err(HexError::Invalid(10)));
    text.replace_range(5..6, "-");
    assert_eq!(parse_hex_difficulty(&text), Err(HexError::Invalid(4)));
    let inner = "f".repeat(20) + " " + &"f".repeat(43);
    assert_eq!(parse_hex_difficulty(&inner), Err(HexError::Invalid(20)));
    assert_eq!(parse_hex_difficulty(&"é".repeat(32)), Err(HexError::Invalid(0)));
}

#[test]
fn signs_are_no_digits() {
    assert_eq!(parse_hex_difficulty(&"+f".repeat(32)), Err(HexError::Invalid(0)));
    assert_eq!(parse_hex_difficulty(&format!("ff{}", "-1".repeat(31))), Err(HexError::Invalid(2)));
}

#[test]
fn white_space_is_trimmed_and_nothing_else() {
    let digits = "0f".repeat(32);
    for code in 0..=0x10FFFFu32 {
        if let Some(c) = char::from_u32(code) {
            let white = matches!(code, 9..=13 | 32 | 0x85 | 0xA0 | 0x1680 | 0x2000..=0x200A
                | 0x2028 | 0x2029 | 0x202F | 0x205F | 0x3000);
            assert_eq!(c.is_whitespace(), white);
            if white {
                assert_eq!(parse_hex_difficulty(&format!("{}0x{}{}{}", c, digits, c, c)), Ok([0x0F; 32]));
            }
        }
    }
    assert_eq!(parse_hex_difficulty(&format!("{}\u{200b}", digits)), Err(HexError::Length(67)));
}

#[test]
fn pairs_of_digits_are_read_as_by_the_standard_library() {
    for high in 0..128u8 {
        for low in 0..128u8 {
            let pair = format!("{}{}", high as char, low as char);
            let text = format!("a{}{}", "0".repeat(1), pair) + &"0".repeat(60);
            let got = parse_trimmed_difficulty(&text).map(|t| t[1]).ok();
            let digits = high.is_ascii_hexdigit() && low.is_ascii_hexdigit();
            assert_eq!(got, u8::from_str_radix(&pair, 16).ok().filter(|_| digits));
        }
    }
}

#[test]
fn good_settings_are_accepted() {
    let (pool, dev) = keys();
    let c = Config::check(&raw(), true, true).unwrap();
    assert_eq!(c.pool_private, [9; 32]);
    assert_eq!(c.pool_public, *pool.to_public().dump_buf());
    assert_eq!(c.pool_dev, *dev.to_public().dump_buf());
    assert_eq!(c.pool_difficulty[..3], [0, 0, 0xFF]);
    assert_eq!((c.port, c.max_conn_per_ip), (5333, 5));
    assert!(!c.operator_is_pool());
    assert!(c.confirm().is_ok());
}

#[test]
fn the_operator_may_be_the_pool() {
    let (pool, _) = keys();
    let mut r = raw();
    r.pool_dev = pool.to_public().dump_base36();
    assert!(Config::check(&r, true, true).unwrap().operator_is_pool());
}

#[test]
fn the_first_wrong_setting_is_named() {
    let mut r = raw();
    r.pool_private = "not a key!".to_string();
    r.pool_dev = "neither".repeat(20);
    r.pool_difficulty = "12".to_string();
    r.pool_port = 0;
    assert!(matches!(Config::check(&r, false, false), Err(ConfigError::NodeAddress)));
    assert!(matches!(Config::check(&r, true, false), Err(ConfigError::PrivateKey)));
    r.pool_private = raw().pool_private;
    assert!(matches!(Config::check(&r, true, false), Err(ConfigError::DevKey)));
    r.pool_dev = raw().pool_dev;
    assert!(matches!(
        Config::check(&r, true, false),
        Err(ConfigError::Difficulty(HexError::Length(2)))
    ));
    r.pool_difficulty = raw().pool_difficulty;
    assert!(matches!(Config::check(&r, true, false), Err(ConfigError::Fee)));
    assert!(matches!(Config::check(&r, true, true), Err(ConfigError::Port)));
    r.pool_port = 1;
    assert!(Config::check(&r, true, true).is_ok());
}

#[test]
fn some_connections_must_be_allowed() {
    let mut r = raw();
    r.pool_max_conn = 0;
    let c = Config::check(&r, true, true).unwrap();
    assert!(matches!(c.confirm(), Err(ConfigError::MaxConn)));
}

#[test]
fn settings_are_settled_in_order() {
    let s = Config::settle(true, Some([1; 32]), Some([2; 32]), Ok([3; 32]), true, 4, 5).unwrap();
    assert_eq!((s.pool_private, s.pool_dev, s.pool_difficulty), ([1; 32], [2; 32], [3; 32]));
    assert_eq!(s.pool_public, *Private::new_from_buf(&[1; 32]).to_public().dump_buf());
    assert!(matches!(
        Config::settle(true, None, None, Err(HexError::Invalid(2)), false, 0, 0),
        Err(ConfigError::PrivateKey)
    ));
    assert!(matches!(
        Config::settle(true, Some([1; 32]), Some([2; 32]), Err(HexError::Invalid(2)), false, 0, 0),
        Err(ConfigError::Difficulty(HexError::Invalid(2)))
    ));
}

#[test]
fn the_data_directory_is_made_or_used() {
    assert_eq!(ensure_data_dir(false, false), DataDirStep::Create);
    assert_eq!(ensure_data_dir(true, true), DataDirStep::Use);
    assert_eq!(ensure_data_dir(true, false), DataDirStep::Refuse);
}
