//! The pool's settings: defaults, and what makes a setting acceptable.

use vstd::prelude::*;
use vstd::utf8::{encode_utf8, is_ascii_chars, is_ascii_chars_encode_utf8};

use crate::bytes::same_bytes;
use crate::chain::opt_bytes;
use crate::snapcoin::{
    derive_public_key, parse_private_key, parse_public_key, private_key_of, public_half,
    public_key_of,
};
use crate::text::{digit_char, hex};

verus! {

/// The port that miners connect to.
pub const DEFAULT_PORT: u16 = 5333;

/// Connections from one address.
pub const DEFAULT_MAX_CONN_PER_IP: u32 = 5;

/// The port where none is set.
pub fn default_port() -> (r: u16)
    ensures
        r == 5333,
{
    DEFAULT_PORT
}

/// The data directory where none is set.
pub fn default_data_dir() -> (r: String)
    ensures
        r@ == "./pool-data"@,
{
    "./pool-data".to_owned()
}

/// The connections from one address where no number is set.
pub fn default_max_conn() -> (r: u32)
    ensures
        r == 5,
{
    DEFAULT_MAX_CONN_PER_IP
}

/// The characters with the Unicode property `White_Space`.
pub open spec fn is_white_space(c: char) -> bool {
    ||| 9 <= c as u32 <= 13
    ||| c as u32 == 32
    ||| c as u32 == 0x85
    ||| c as u32 == 0xA0
    ||| c as u32 == 0x1680
    ||| 0x2000 <= c as u32 <= 0x200A
    ||| c as u32 == 0x2028
    ||| c as u32 == 0x2029
    ||| c as u32 == 0x202F
    ||| c as u32 == 0x205F
    ||| c as u32 == 0x3000
}

/// `char::is_whitespace`: whether the character has the Unicode property
/// `White_Space`.
pub assume_specification[ char::is_whitespace ](c: char) -> (r: bool)
    ensures
        r == is_white_space(c),
;

/// The text without white space at its ends.
pub open spec fn trimmed(s: Seq<char>) -> Seq<char>
    decreases s.len(),
{
    if s.len() == 0 {
        s
    } else if is_white_space(s.first()) {
        trimmed(s.drop_first())
    } else if is_white_space(s.last()) {
        trimmed(s.drop_last())
    } else {
        s
    }
}

/// The text without the prefix `0x`, if it has it.
pub open spec fn without_prefix(s: Seq<char>) -> Seq<char> {
    if s.len() >= 2 && s[0] == '0' && s[1] == 'x' {
        s.skip(2)
    } else {
        s
    }
}

/// The value of a hexadecimal digit in either case.
pub open spec fn digit_value(c: u8) -> Option<u8> {
    if 48 <= c <= 57 {
        Some((c - 48) as u8)
    } else if 97 <= c <= 102 {
        Some((c - 87) as u8)
    } else if 65 <= c <= 70 {
        Some((c - 55) as u8)
    } else {
        None
    }
}

/// The number that two hexadecimal digits spell.
pub open spec fn pair_value(high: u8, low: u8) -> Option<u8> {
    match (digit_value(high), digit_value(low)) {
        (Some(h), Some(l)) => Some((16 * h + l) as u8),
        _ => None,
    }
}

/// What is wrong with the text of a difficulty.
#[derive(Clone, Copy, PartialEq, Eq, Debug, Structural)]
pub enum HexError {
    /// It has this many bytes, not 64.
    Length(usize),
    /// The two characters from here on spell no byte.
    Invalid(usize),
}

/// All pairs before the one at `n` spell a byte.
pub open spec fn pairs_are_valid(b: Seq<u8>, n: int) -> bool {
    forall|i: int| 0 <= i < n ==> pair_value(#[trigger] b[2 * i], b[2 * i + 1]) is Some
}

/// `r` is what 64 hexadecimal digits spell, or the first thing that is wrong with
/// them.
pub open spec fn reads_as(b: Seq<u8>, r: Result<Seq<u8>, HexError>) -> bool {
    match r {
        Ok(t) => {
            &&& b.len() == 64
            &&& t.len() == 32
            &&& forall|i: int|
                0 <= i < 32 ==> pair_value(#[trigger] b[2 * i], b[2 * i + 1]) == Some(t[i])
        },
        Err(HexError::Length(n)) => b.len() != 64 && n == b.len(),
        Err(HexError::Invalid(at)) => {
            &&& b.len() == 64
            &&& at < 64
            &&& at % 2 == 0
            &&& pairs_are_valid(b, at as int / 2)
            &&& pair_value(b[at as int], b[at + 1]) is None
        },
    }
}

/// The contents of a parsed difficulty.
pub open spec fn parsed_view(r: Result<[u8; 32], HexError>) -> Result<Seq<u8>, HexError> {
    match r {
        Ok(t) => Ok(t@),
        Err(e) => Err(e),
    }
}

fn hex_digit(c: u8) -> (r: Option<u8>)
    ensures
        r == digit_value(c),
{
    if 48 <= c && c <= 57 {
        Some(c - 48)
    } else if 97 <= c && c <= 102 {
        Some(c - 87)
    } else if 65 <= c && c <= 70 {
        Some(c - 55)
    } else {
        None
    }
}

fn hex_pair(high: u8, low: u8) -> (r: Option<u8>)
    ensures
        r == pair_value(high, low),
{
    match (hex_digit(high), hex_digit(low)) {
        (Some(h), Some(l)) => Some(16 * h + l),
        _ => None,
    }
}

/// The text without white space at its ends.
fn trim(text: &str) -> (r: &str)
    ensures
        r@ == trimmed(text@),
{
    let mut from: usize = 0;
    let mut to: usize = text.unicode_len();
    let ghost whole = text@;
    assert(whole.subrange(0, whole.len() as int) =~= whole);
    while from < to && text.get_char(from).is_whitespace()
        invariant
            from <= to,
            to == whole.len(),
            whole == text@,
            trimmed(whole.subrange(from as int, to as int)) == trimmed(whole),
        ensures
            from <= to,
            to == whole.len(),
            from < to ==> !is_white_space(whole[from as int]),
            trimmed(whole.subrange(from as int, to as int)) == trimmed(whole),
        decreases to - from,
    {
        assert(whole.subrange(from as int, to as int).drop_first() =~= whole.subrange(
            from + 1,
            to as int,
        ));
        from = from + 1;
    }
    while from < to && text.get_char(to - 1).is_whitespace()
        invariant
            from <= to,
            to <= whole.len(),
            whole == text@,
            from < to ==> !is_white_space(whole[from as int]),
            trimmed(whole.subrange(from as int, to as int)) == trimmed(whole),
        ensures
            from <= to,
            to <= whole.len(),
            from < to ==> !is_white_space(whole[from as int]),
            from < to ==> !is_white_space(whole[to - 1]),
            trimmed(whole.subrange(from as int, to as int)) == trimmed(whole),
        decreases to - from,
    {
        let ghost part = whole.subrange(from as int, to as int);
        assert(part.first() == whole[from as int]);
        assert(part.last() == whole[to - 1]);
        assert(part.drop_last() =~= whole.subrange(from as int, to - 1));
        to = to - 1;
    }
    text.substring_char(from, to)
}

/// Reads a target from 64 hexadecimal digits, with or without the prefix `0x`.
pub fn parse_trimmed_difficulty(text: &str) -> (r: Result<[u8; 32], HexError>)
    ensures
        reads_as(encode_utf8(without_prefix(text@)), parsed_view(r)),
{
    let len: usize = text.unicode_len();
    let mut digits = text;
    if len >= 2 && text.get_char(0) == '0' && text.get_char(1) == 'x' {
        digits = text.substring_char(2, len);
        assert(digits@ =~= text@.skip(2));
    }
    let b = digits.as_bytes();
    if b.len() != 64 {
        return Err(HexError::Length(b.len()));
    }
    let mut t = [0u8; 32];
    let mut i: usize = 0;
    while i < 32
        invariant
            i <= 32,
            b@.len() == 64,
            b@ == encode_utf8(without_prefix(text@)),
            forall|j: int|
                0 <= j < i ==> pair_value(#[trigger] b@[2 * j], b@[2 * j + 1]) == Some(t@[j]),
        decreases 32 - i,
    {
        match hex_pair(b[2 * i], b[2 * i + 1]) {
            Some(value) => {
                t[i] = value;
            },
            None => {
                return Err(HexError::Invalid(2 * i));
            },
        }
        i = i + 1;
    }
    Ok(t)
}

/// Reads a target from 64 hexadecimal digits, with or without the prefix `0x`,
/// and with or without white space around.
pub fn parse_hex_difficulty(text: &str) -> (r: Result<[u8; 32], HexError>)
    ensures
        reads_as(encode_utf8(without_prefix(trimmed(text@))), parsed_view(r)),
{
    parse_trimmed_difficulty(trim(text))
}

/// Settings as they are found in the environment.
#[derive(Clone, Debug)]
pub struct RawConfig {
    pub pool_private: String,
    pub pool_dev: String,
    pub pool_difficulty: String,
    pub pool_port: u16,
    pub pool_max_conn: u32,
}

/// Settings that the pool can run with.
#[derive(Clone, Copy, Debug)]
pub struct Config {
    pub pool_private: [u8; 32],
    pub pool_public: [u8; 32],
    pub pool_dev: [u8; 32],
    pub pool_difficulty: [u8; 32],
    pub port: u16,
    pub max_conn_per_ip: u32,
}

/// Why the pool cannot run with the settings.
#[derive(Clone, Copy, PartialEq, Eq, Debug, Structural)]
pub enum ConfigError {
    /// The node is not an address and a port.
    NodeAddress,
    /// The pool's private key is not a key.
    PrivateKey,
    /// The operator's public key is not a key.
    DevKey,
    /// The difficulty is not a target.
    Difficulty(HexError),
    /// The fee is out of range.
    Fee,
    /// The port is zero.
    Port,
    /// No connections are allowed.
    MaxConn,
}

/// The contents of a `Config`.
pub struct ConfigView {
    pub pool_private: Seq<u8>,
    pub pool_public: Seq<u8>,
    pub pool_dev: Seq<u8>,
    pub pool_difficulty: Seq<u8>,
    pub port: u16,
    pub max_conn_per_ip: u32,
}

impl View for Config {
    type V = ConfigView;

    open spec fn view(&self) -> ConfigView {
        ConfigView {
            pool_private: self.pool_private@,
            pool_public: self.pool_public@,
            pool_dev: self.pool_dev@,
            pool_difficulty: self.pool_difficulty@,
            port: self.port,
            max_conn_per_ip: self.max_conn_per_ip,
        }
    }
}

/// The settings, or the first thing that is wrong with them. The number of
/// connections is not looked at.
pub open spec fn settled(
    node_valid: bool,
    private_key: Option<Seq<u8>>,
    dev_key: Option<Seq<u8>>,
    difficulty: Result<Seq<u8>, HexError>,
    fee_valid: bool,
    port: u16,
    max_conn: u32,
) -> Result<ConfigView, ConfigError> {
    if !node_valid {
        Err(ConfigError::NodeAddress)
    } else if private_key is None {
        Err(ConfigError::PrivateKey)
    } else if dev_key is None {
        Err(ConfigError::DevKey)
    } else if difficulty is Err {
        Err(ConfigError::Difficulty(difficulty->Err_0))
    } else if !fee_valid {
        Err(ConfigError::Fee)
    } else if port == 0 {
        Err(ConfigError::Port)
    } else {
        Ok(
            ConfigView {
                pool_private: private_key->0,
                pool_public: public_half(private_key->0),
                pool_dev: dev_key->0,
                pool_difficulty: difficulty->Ok_0,
                port,
                max_conn_per_ip: max_conn,
            },
        )
    }
}

/// The contents of a settled configuration.
pub open spec fn settled_view(r: Result<Config, ConfigError>) -> Result<ConfigView, ConfigError> {
    match r {
        Ok(c) => Ok(c@),
        Err(e) => Err(e),
    }
}

impl Config {
    /// The settings from what was read, or the first thing that is wrong with them;
    /// see `settled`.
    pub fn settle(
        node_valid: bool,
        private_key: Option<[u8; 32]>,
        dev_key: Option<[u8; 32]>,
        difficulty: Result<[u8; 32], HexError>,
        fee_valid: bool,
        port: u16,
        max_conn: u32,
    ) -> (r: Result<Config, ConfigError>)
        ensures
            settled_view(r) == settled(
                node_valid,
                opt_bytes(private_key),
                opt_bytes(dev_key),
                parsed_view(difficulty),
                fee_valid,
                port,
                max_conn,
            ),
    {
        if !node_valid {
            return Err(ConfigError::NodeAddress);
        }
        let pool_private = match private_key {
            Some(key) => key,
            None => return Err(ConfigError::PrivateKey),
        };
        let pool_public = derive_public_key(&pool_private);
        let pool_dev = match dev_key {
            Some(key) => key,
            None => return Err(ConfigError::DevKey),
        };
        let pool_difficulty = match difficulty {
            Ok(target) => target,
            Err(e) => return Err(ConfigError::Difficulty(e)),
        };
        if !fee_valid {
            return Err(ConfigError::Fee);
        }
        if port == 0 {
            return Err(ConfigError::Port);
        }
        Ok(
            Config {
                pool_private,
                pool_public,
                pool_dev,
                pool_difficulty,
                port,
                max_conn_per_ip: max_conn,
            },
        )
    }

    /// The settings from the environment, or the first thing that is wrong with
    /// them. `node_valid` says whether the node's address can be read, `fee_valid`
    /// whether the fee is in range.
    pub fn check(raw: &RawConfig, node_valid: bool, fee_valid: bool) -> (r: Result<
        Config,
        ConfigError,
    >)
        ensures
            exists|difficulty: Result<Seq<u8>, HexError>| #[trigger]
                reads_as(encode_utf8(without_prefix(trimmed(raw.pool_difficulty@))), difficulty)
                    && settled_view(r) == settled(
                    node_valid,
                    private_key_of(raw.pool_private@),
                    public_key_of(raw.pool_dev@),
                    difficulty,
                    fee_valid,
                    raw.pool_port,
                    raw.pool_max_conn,
                ),
    {
        let difficulty = parse_hex_difficulty(raw.pool_difficulty.as_str());
        Config::settle(
            node_valid,
            parse_private_key(raw.pool_private.as_str()),
            parse_public_key(raw.pool_dev.as_str()),
            difficulty,
            fee_valid,
            raw.pool_port,
            raw.pool_max_conn,
        )
    }

    /// The last check, once the data directory is there: some connections must be
    /// allowed.
    pub fn confirm(self) -> (r: Result<Config, ConfigError>)
        ensures
            r is Ok <==> self.max_conn_per_ip > 0,
            r is Ok ==> r->Ok_0 == self,
            r is Err ==> r->Err_0 == ConfigError::MaxConn,
    {
        if self.max_conn_per_ip == 0 {
            return Err(ConfigError::MaxConn);
        }
        Ok(self)
    }

    /// Whether the operator is paid to the pool's own key.
    pub fn operator_is_pool(&self) -> (r: bool)
        ensures
            r == (self.pool_dev@ == self.pool_public@),
    {
        same_bytes(&self.pool_dev, &self.pool_public)
    }
}

/// What to do about the data directory.
#[derive(Clone, Copy, PartialEq, Eq, Debug, Structural)]
pub enum DataDirStep {
    Create,
    Use,
    /// Something else has its name.
    Refuse,
}

/// What to do about the data directory, by whether something of its name exists
/// and is a directory.
pub fn ensure_data_dir(exists_already: bool, is_dir: bool) -> (r: DataDirStep)
    ensures
        r == (if !exists_already {
            DataDirStep::Create
        } else if is_dir {
            DataDirStep::Use
        } else {
            DataDirStep::Refuse
        }),
{
    if !exists_already {
        DataDirStep::Create
    } else if !is_dir {
        DataDirStep::Refuse
    } else {
        DataDirStep::Use
    }
}

/// Settings that are accepted name keys, a target and a port, and the pool's two
/// keys belong together.
pub proof fn law_accepted_settings_are_usable(
    node_valid: bool,
    private_key: Option<Seq<u8>>,
    dev_key: Option<Seq<u8>>,
    difficulty: Result<Seq<u8>, HexError>,
    fee_valid: bool,
    port: u16,
    max_conn: u32,
)
    ensures
        ({
            let r = settled(
                node_valid,
                private_key,
                dev_key,
                difficulty,
                fee_valid,
                port,
                max_conn,
            );
            &&& r is Ok <==> node_valid && private_key is Some && dev_key is Some && difficulty is Ok
                && fee_valid && port != 0
            &&& r is Ok ==> r->Ok_0.port != 0 && r->Ok_0.pool_public == public_half(
                r->Ok_0.pool_private,
            )
        }),
{
}

/// Text is read in one way only.
pub proof fn law_difficulty_is_read_one_way(
    b: Seq<u8>,
    r: Result<Seq<u8>, HexError>,
    other: Result<Seq<u8>, HexError>,
)
    requires
        reads_as(b, r),
        reads_as(b, other),
    ensures
        r == other,
{
    match (r, other) {
        (Ok(s), Ok(t)) => {
            assert forall|i: int| 0 <= i < 32 implies s[i] == t[i] by {
                assert(pair_value(b[2 * i], b[2 * i + 1]) == Some(s[i]));
            }
            assert(s =~= t);
        },
        (Ok(s), Err(HexError::Invalid(at))) => {
            let i = at as int / 2;
            assert(pair_value(b[2 * i], b[2 * i + 1]) == Some(s[i]));
        },
        (Err(HexError::Invalid(at)), Ok(s)) => {
            let i = at as int / 2;
            assert(pair_value(b[2 * i], b[2 * i + 1]) == Some(s[i]));
        },
        (Err(HexError::Invalid(at)), Err(HexError::Invalid(to))) => {
            let i = at as int / 2;
            let j = to as int / 2;
            if i < j {
                assert(pair_value(b[2 * i], b[2 * i + 1]) is Some);
            }
            if j < i {
                assert(pair_value(b[2 * j], b[2 * j + 1]) is Some);
            }
        },
        _ => {},
    }
}

/// The digit of value `d` in upper case.
pub open spec fn upper_digit_char(d: nat) -> char {
    if d < 10 {
        (48 + d) as char
    } else {
        (55 + d) as char
    }
}

/// The value of digit `i` in the hexadecimal spelling of a byte string.
pub open spec fn nibble(s: Seq<u8>, i: int) -> nat {
    if i % 2 == 0 {
        s[i / 2] as nat / 16
    } else {
        s[i / 2] as nat % 16
    }
}

/// `h` spells the byte string in hexadecimal, each digit in either case.
pub open spec fn is_spelling(h: Seq<char>, s: Seq<u8>) -> bool {
    &&& h.len() == 2 * s.len()
    &&& forall|i: int|
        0 <= i < h.len() ==> #[trigger] h[i] == digit_char(nibble(s, i)) || h[i]
            == upper_digit_char(nibble(s, i))
}

/// The text behind the prefix `0x`.
pub open spec fn prefixed(s: Seq<char>) -> Seq<char> {
    seq!['0', 'x'] + s
}

/// There is nothing but white space.
pub open spec fn is_blank(s: Seq<char>) -> bool {
    forall|i: int| 0 <= i < s.len() ==> is_white_space(#[trigger] s[i])
}

proof fn lemma_trimmed(before: Seq<char>, text: Seq<char>, after: Seq<char>)
    requires
        is_blank(before),
        is_blank(after),
        text.len() > 0,
        !is_white_space(text.first()),
        !is_white_space(text.last()),
    ensures
        trimmed(before + text + after) == text,
    decreases before.len() + after.len(),
{
    let all = before + text + after;
    if before.len() > 0 {
        assert(all.first() == before[0]);
        let rest = before.drop_first();
        assert forall|i: int| 0 <= i < rest.len() implies is_white_space(#[trigger] rest[i]) by {
            assert(rest[i] == before[i + 1]);
        }
        assert(all.drop_first() =~= rest + text + after);
        lemma_trimmed(rest, text, after);
    } else if after.len() > 0 {
        assert(all.first() == text.first());
        assert(all.last() == after[after.len() - 1]);
        let rest = after.drop_last();
        assert forall|i: int| 0 <= i < rest.len() implies is_white_space(#[trigger] rest[i]) by {
            assert(rest[i] == after[i]);
        }
        assert(all.drop_last() =~= before + text + rest);
        lemma_trimmed(before, text, rest);
    } else {
        assert(all =~= text);
    }
}

proof fn lemma_spelling_is_read(h: Seq<char>, target: Seq<u8>)
    requires
        target.len() == 32,
        is_spelling(h, target),
    ensures
        reads_as(encode_utf8(h), Ok(target)),
        forall|i: int| 0 <= i < 64 ==> 48 <= (#[trigger] h[i]) as u32 <= 102,
{
    assert forall|i: int| 0 <= i < 64 implies 48 <= (#[trigger] h[i]) as u32 <= 102 by {
        assert(nibble(target, i) < 16);
    }
    assert(is_ascii_chars(h));
    is_ascii_chars_encode_utf8(h);
    let b = encode_utf8(h);
    assert forall|i: int| 0 <= i < 32 implies pair_value(#[trigger] b[2 * i], b[2 * i + 1]) == Some(
        target[i],
    ) by {
        let high = target[i] / 16;
        let low = target[i] % 16;
        assert(nibble(target, 2 * i) == high);
        assert(nibble(target, 2 * i + 1) == low);
        assert(b[2 * i] == h[2 * i] as u8);
        assert(b[2 * i + 1] == h[2 * i + 1] as u8);
        assert(digit_value(b[2 * i]) == Some(high));
        assert(digit_value(b[2 * i + 1]) == Some(low));
    }
}

/// A target that is spelled in hexadecimal, in either case, with or without the
/// prefix, and with or without white space around, is read back as it was and in
/// no other way; and the library spells it so.
pub proof fn law_spelled_target_is_read_back(
    target: Seq<u8>,
    h: Seq<char>,
    before: Seq<char>,
    after: Seq<char>,
)
    requires
        target.len() == 32,
        is_spelling(h, target),
        is_blank(before),
        is_blank(after),
    ensures
        is_spelling(hex(target), target),
        reads_as(encode_utf8(without_prefix(trimmed(before + h + after))), Ok(target)),
        reads_as(
            encode_utf8(without_prefix(trimmed(before + prefixed(h) + after))),
            Ok(target),
        ),
        forall|r: Result<Seq<u8>, HexError>| #[trigger]
            reads_as(encode_utf8(without_prefix(trimmed(before + h + after))), r) ==> r == Ok::<
                Seq<u8>,
                HexError,
            >(target),
        forall|r: Result<Seq<u8>, HexError>| #[trigger]
            reads_as(
                encode_utf8(without_prefix(trimmed(before + prefixed(h) + after))),
                r,
            ) ==> r == Ok::<Seq<u8>, HexError>(target),
{
    let spelled = hex(target);
    assert forall|i: int| 0 <= i < spelled.len() implies #[trigger] spelled[i] == digit_char(
        nibble(target, i),
    ) by {}
    lemma_spelling_is_read(h, target);
    assert(h[0] == h.first() && h[63] == h.last());
    assert(prefixed(h).first() == '0' && prefixed(h).last() == h[63]);
    lemma_trimmed(before, h, after);
    lemma_trimmed(before, prefixed(h), after);
    assert(h[1] != 'x');
    assert(without_prefix(h) == h);
    assert(without_prefix(prefixed(h)) =~= h);
    assert forall|r: Result<Seq<u8>, HexError>| #[trigger] reads_as(encode_utf8(h), r) implies r
        == Ok::<Seq<u8>, HexError>(target) by {
        law_difficulty_is_read_one_way(encode_utf8(h), r, Ok(target));
    }
}

/// Only 64 digits are read, sixteen times the value of the first of each two and
/// the value of the second making a byte.
pub proof fn law_only_digits_are_read(b: Seq<u8>, t: Seq<u8>, i: int)
    requires
        reads_as(b, Ok(t)),
        0 <= i < 32,
    ensures
        b.len() == 64,
        t.len() == 32,
        ({
            let high = b[2 * i] as int;
            let low = b[2 * i + 1] as int;
            &&& 48 <= high <= 57 || 65 <= high <= 70 || 97 <= high <= 102
            &&& 48 <= low <= 57 || 65 <= low <= 70 || 97 <= low <= 102
            &&& t[i] == 16 * (if high <= 57 {
                high - 48
            } else if high <= 70 {
                high - 55
            } else {
                high - 87
            }) + (if low <= 57 {
                low - 48
            } else if low <= 70 {
                low - 55
            } else {
                low - 87
            })
        }),
{
    assert(pair_value(b[2 * i], b[2 * i + 1]) == Some(t[i]));
}

/// A text is refused for its length where it has not 64 bytes, and else for the
/// first two bytes that are not both digits.
pub proof fn law_why_a_difficulty_is_not_read(b: Seq<u8>, e: HexError, i: int)
    requires
        reads_as(b, Err(e)),
    ensures
        e is Length <==> b.len() != 64,
        e is Length ==> e->Length_0 == b.len(),
        e is Invalid ==> e->Invalid_0 < 64 && e->Invalid_0 % 2 == 0,
        e is Invalid && 0 <= i < e->Invalid_0 ==> (48 <= b[i] <= 57 || 65 <= b[i] <= 70 || 97
            <= b[i] <= 102),
        e is Invalid ==> ({
            let high = b[e->Invalid_0 as int];
            let low = b[e->Invalid_0 + 1];
            ||| !(48 <= high <= 57 || 65 <= high <= 70 || 97 <= high <= 102)
            ||| !(48 <= low <= 57 || 65 <= low <= 70 || 97 <= low <= 102)
        }),
{
    if e is Invalid && 0 <= i < e->Invalid_0 {
        let j = i / 2;
        assert(pair_value(b[2 * j], b[2 * j + 1]) is Some);
        assert(i == 2 * j || i == 2 * j + 1);
    }
}

/// Any 64 digits are read.
pub proof fn law_all_digits_are_read(b: Seq<u8>, r: Result<Seq<u8>, HexError>)
    requires
        reads_as(b, r),
        b.len() == 64,
        forall|i: int|
            0 <= i < 64 ==> 48 <= #[trigger] b[i] <= 57 || 65 <= b[i] <= 70 || 97 <= b[i] <= 102,
    ensures
        r is Ok,
{
    if r is Err {
        law_why_a_difficulty_is_not_read(b, r->Err_0, 0);
    }
}

/// White space is these twenty-five characters.
pub proof fn law_what_white_space_is(c: char)
    ensures
        is_white_space(c) <==> set![
            0x9int, 0xA, 0xB, 0xC, 0xD, 0x20, 0x85, 0xA0, 0x1680, 0x2000, 0x2001, 0x2002, 0x2003,
            0x2004, 0x2005, 0x2006, 0x2007, 0x2008, 0x2009, 0x200A, 0x2028, 0x2029, 0x202F, 0x205F,
            0x3000,
        ].contains(c as int),
{
}

/// What trimming takes away is white space before and after, and what it leaves has
/// none at its ends.
pub proof fn law_what_trimming_takes_away(s: Seq<char>) -> (taken: (Seq<char>, Seq<char>))
    ensures
        s == taken.0 + trimmed(s) + taken.1,
        forall|i: int| 0 <= i < taken.0.len() ==> is_white_space(#[trigger] taken.0[i]),
        forall|i: int| 0 <= i < taken.1.len() ==> is_white_space(#[trigger] taken.1[i]),
        trimmed(s).len() > 0 ==> !is_white_space(trimmed(s)[0]) && !is_white_space(
            trimmed(s)[trimmed(s).len() - 1],
        ),
    decreases s.len(),
{
    let none = Seq::<char>::empty();
    if s.len() == 0 {
        assert(s =~= none + trimmed(s) + none);
        (none, none)
    } else if is_white_space(s.first()) {
        let (before, after) = law_what_trimming_takes_away(s.drop_first());
        let more = seq![s.first()] + before;
        assert(s =~= seq![s.first()] + s.drop_first());
        assert(s =~= more + trimmed(s) + after);
        (more, after)
    } else if is_white_space(s.last()) {
        let (before, after) = law_what_trimming_takes_away(s.drop_last());
        let more = after.push(s.last());
        assert(s =~= s.drop_last().push(s.last()));
        assert(s =~= before + trimmed(s) + more);
        (before, more)
    } else {
        assert(s =~= none + trimmed(s) + none);
        (none, none)
    }
}

/// The prefix `0x` is taken off once, and nothing else is.
pub proof fn law_one_prefix_is_taken_off(s: Seq<char>)
    ensures
        without_prefix(seq!['0', 'x'] + s) == s,
        s.len() < 2 || s[0] != '0' || s[1] != 'x' ==> without_prefix(s) == s,
{
    assert(without_prefix(seq!['0', 'x'] + s) =~= s);
}

/// What is wrong with the settings is told in this order: the node's address, the
/// pool's key, the operator's key, the difficulty with what is wrong with it, the
/// fee and the port. Nothing wrong, the settings are those that were read.
pub proof fn law_the_first_fault_is_told(
    node_valid: bool,
    private_key: Option<Seq<u8>>,
    dev_key: Option<Seq<u8>>,
    difficulty: Result<Seq<u8>, HexError>,
    fee_valid: bool,
    port: u16,
    max_conn: u32,
)
    ensures
        ({
            let r = settled(
                node_valid,
                private_key,
                dev_key,
                difficulty,
                fee_valid,
                port,
                max_conn,
            );
            let keys = private_key is Some && dev_key is Some;
            &&& r is Err && r->Err_0 is NodeAddress <==> !node_valid
            &&& r is Err && r->Err_0 is PrivateKey <==> node_valid && private_key is None
            &&& r is Err && r->Err_0 is DevKey <==> node_valid && private_key is Some
                && dev_key is None
            &&& r is Err && r->Err_0 is Difficulty <==> node_valid && keys && difficulty is Err
            &&& r is Err && r->Err_0 is Difficulty ==> r->Err_0->Difficulty_0 == difficulty->Err_0
            &&& r is Err && r->Err_0 is Fee <==> node_valid && keys && difficulty is Ok
                && !fee_valid
            &&& r is Err && r->Err_0 is Port <==> node_valid && keys && difficulty is Ok
                && fee_valid && port == 0
            &&& r is Ok ==> r->Ok_0.pool_private == private_key->0
            &&& r is Ok ==> r->Ok_0.pool_public == public_half(private_key->0)
            &&& r is Ok ==> r->Ok_0.pool_dev == dev_key->0
            &&& r is Ok ==> r->Ok_0.pool_difficulty == difficulty->Ok_0
            &&& r is Ok ==> r->Ok_0.port == port
            &&& r is Ok ==> r->Ok_0.max_conn_per_ip == max_conn
        }),
{
}

} // verus!
