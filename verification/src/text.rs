//! Numbers and keys as text.

use vstd::prelude::*;

use crate::bytes::{be_value, exp, lemma_be_value_zeros};
use crate::difficulty::{leading_zero_nibbles, leading_zero_nibbles_256, lemma_first_nonzero_byte};

verus! {

/// `String::push` appends the character.
pub assume_specification[ String::push ](s: &mut String, c: char)
    ensures
        final(s)@ == old(s)@.push(c),
;

/// The digit of value `d` in lower case.
pub open spec fn digit_char(d: nat) -> char {
    if d < 10 {
        (48 + d) as char
    } else {
        (87 + d) as char
    }
}

/// The lower-case hexadecimal spelling of a byte string, two digits a byte.
pub open spec fn hex(s: Seq<u8>) -> Seq<char> {
    Seq::new(
        2 * s.len(),
        |i: int|
            digit_char(
                if i % 2 == 0 {
                    s[i / 2] as nat / 16
                } else {
                    s[i / 2] as nat % 16
                },
            ),
    )
}

/// The decimal spelling of a number.
pub open spec fn decimal(n: nat) -> Seq<char>
    decreases n,
{
    if n < 10 {
        seq![digit_char(n)]
    } else {
        decimal(n / 10).push(digit_char(n % 10))
    }
}

fn digit(d: u8) -> (c: char)
    requires
        d < 16,
    ensures
        c == digit_char(d as nat),
{
    if d < 10 {
        (48 + d) as char
    } else {
        (87 + d) as char
    }
}

fn hex_of(bytes: &[u8]) -> (s: String)
    ensures
        s@ == hex(bytes@),
{
    let mut s = String::new();
    let mut i: usize = 0;
    while i < bytes.len()
        invariant
            i <= bytes.len(),
            s@ == hex(bytes@.take(i as int)),
        decreases bytes.len() - i,
    {
        let b = bytes[i];
        s.push(digit(b / 16));
        s.push(digit(b % 16));
        i = i + 1;
        assert(s@ =~= hex(bytes@.take(i as int)));
    }
    assert(bytes@.take(i as int) =~= bytes@);
    s
}

/// The hexadecimal spelling of a hash, a key or a target.
pub fn hex_encode(bytes: &[u8; 32]) -> (s: String)
    ensures
        s@ == hex(bytes@),
{
    hex_of(bytes)
}

/// The first eight hexadecimal digits of a key, enough to tell miners apart in
/// a log.
pub fn hex_short(buf: &[u8; 32]) -> (s: String)
    ensures
        s@ == hex(buf@.take(4)),
{
    let mut head: Vec<u8> = Vec::new();
    head.push(buf[0]);
    head.push(buf[1]);
    head.push(buf[2]);
    head.push(buf[3]);
    assert(head@ =~= buf@.take(4));
    hex_of(&head)
}

/// The number that decimal digits spell, least significant digit first.
spec fn digits_value(d: Seq<u8>) -> nat
    decreases d.len(),
{
    if d.len() == 0 {
        0
    } else {
        d.first() as nat + 10 * digits_value(d.drop_first())
    }
}

/// Decimal digits without a superfluous leading zero.
spec fn are_digits(d: Seq<u8>) -> bool {
    &&& d.len() >= 1
    &&& d.last() != 0
    &&& forall|i: int| 0 <= i < d.len() ==> d[i] < 10
}

/// Decimal digits as characters, most significant digit first.
spec fn digit_chars(d: Seq<u8>) -> Seq<char> {
    Seq::new(d.len(), |i: int| digit_char(d[d.len() - 1 - i] as nat))
}

proof fn lemma_digits_positive(d: Seq<u8>)
    requires
        d.len() >= 1,
        d.last() != 0,
    ensures
        digits_value(d) > 0,
    decreases d.len(),
{
    if d.len() > 1 {
        assert(d.drop_first().last() == d.last());
        lemma_digits_positive(d.drop_first());
    }
}

proof fn lemma_digit_chars_are_decimal(d: Seq<u8>)
    requires
        are_digits(d),
    ensures
        digit_chars(d) == decimal(digits_value(d)),
    decreases d.len(),
{
    let rest = d.drop_first();
    if d.len() == 1 {
        assert(digits_value(rest) == 0);
        assert(digit_chars(d) =~= seq![digit_char(d[0] as nat)]);
    } else {
        assert(rest.last() == d.last());
        lemma_digits_positive(rest);
        lemma_digit_chars_are_decimal(rest);
        assert(digit_chars(d) =~= digit_chars(rest).push(digit_char(d[0] as nat)));
    }
}

proof fn lemma_digits_value_push(d: Seq<u8>, x: u8)
    ensures
        digits_value(d.push(x)) == digits_value(d) + exp(10, d.len()) * x as nat,
    decreases d.len(),
{
    if d.len() == 0 {
        assert(d.push(x).drop_first() =~= Seq::<u8>::empty());
        assert(digits_value(d.push(x).drop_first()) == 0);
        assert(1 * x as nat == x as nat) by (nonlinear_arith);
    } else {
        assert(d.push(x).drop_first() =~= d.drop_first().push(x));
        lemma_digits_value_push(d.drop_first(), x);
        let p = exp(10, (d.len() - 1) as nat);
        let v = x as nat;
        assert(10 * (p * v) == (10 * p) * v) by (nonlinear_arith);
    }
}

/// Multiplies decimal digits, least significant first, by sixteen.
fn times_sixteen(d: &Vec<u8>) -> (r: Vec<u8>)
    requires
        are_digits(d@),
    ensures
        are_digits(r@),
        digits_value(r@) == 16 * digits_value(d@),
{
    let mut r: Vec<u8> = Vec::new();
    let mut carry: u8 = 0;
    let mut i: usize = 0;
    proof {
        assert(d@.skip(0) =~= d@);
        let v = digits_value(d@);
        assert(1 * (0 + 16 * v) == 16 * v) by (nonlinear_arith);
    }
    while i < d.len()
        invariant
            i <= d.len(),
            are_digits(d@),
            carry < 16,
            r@.len() == i,
            forall|j: int| 0 <= j < r@.len() ==> r@[j] < 10,
            i > 0 && i == d.len() && carry == 0 ==> r@.last() != 0,
            digits_value(r@) + exp(10, i as nat) * (carry as nat + 16 * digits_value(
                d@.skip(i as int),
            )) == 16 * digits_value(d@),
        decreases d.len() - i,
    {
        let t: u8 = d[i] * 16 + carry;
        let ghost before = r@;
        r.push(t % 10);
        proof {
            lemma_digits_value_push(before, t % 10);
            let s = d@.skip(i as int);
            assert(s.drop_first() =~= d@.skip(i + 1));
            let p = exp(10, i as nat);
            let v = digits_value(d@.skip(i + 1));
            let low = (t % 10) as nat;
            let up = (t / 10) as nat;
            let c = carry as nat;
            let x = d@[i as int] as nat;
            assert(exp(10, (i + 1) as nat) == 10 * p);
            assert(p * low + (10 * p) * (up + 16 * v) == p * (c + 16 * (x + 10 * v)))
                by (nonlinear_arith)
                requires
                    low + 10 * up == 16 * x + c,
            ;
        }
        carry = t / 10;
        i = i + 1;
    }
    assert(d@.skip(i as int) =~= Seq::<u8>::empty());
    assert(digits_value(d@.skip(i as int)) == 0);
    while carry > 0
        invariant
            are_digits(d@),
            carry < 16,
            r@.len() >= 1,
            forall|j: int| 0 <= j < r@.len() ==> r@[j] < 10,
            carry == 0 ==> r@.last() != 0,
            digits_value(r@) + exp(10, r@.len()) * carry as nat == 16 * digits_value(d@),
        decreases carry,
    {
        let ghost before = r@;
        r.push(carry % 10);
        proof {
            lemma_digits_value_push(before, carry % 10);
            let p = exp(10, before.len());
            let low = (carry % 10) as nat;
            let up = (carry / 10) as nat;
            let c = carry as nat;
            assert(p * low + (10 * p) * up == p * c) by (nonlinear_arith)
                requires
                    low + 10 * up == c,
            ;
        }
        carry = carry / 10;
    }
    assert(exp(10, r@.len()) * 0 == 0) by (nonlinear_arith);
    r
}

/// The decimal spelling of sixteen to the power `n`.
fn decimal_power_of_sixteen(n: u32) -> (s: String)
    ensures
        s@ == decimal(exp(16, n as nat)),
{
    let mut d: Vec<u8> = Vec::new();
    d.push(1);
    let mut k: u32 = 0;
    assert(digits_value(d@) == 1) by {
        assert(d@.drop_first() =~= Seq::<u8>::empty());
        assert(digits_value(d@.drop_first()) == 0);
    }
    while k < n
        invariant
            k <= n,
            are_digits(d@),
            digits_value(d@) == exp(16, k as nat),
        decreases n - k,
    {
        d = times_sixteen(&d);
        k = k + 1;
    }
    let mut s = String::new();
    let mut i: usize = d.len();
    while i > 0
        invariant
            i <= d.len(),
            are_digits(d@),
            s@ == digit_chars(d@).take(d.len() - i),
        decreases i,
    {
        i = i - 1;
        s.push(digit(d[i]));
        assert(s@ =~= digit_chars(d@).take(d.len() - i));
    }
    proof {
        assert(s@ =~= digit_chars(d@));
        lemma_digit_chars_are_decimal(d@);
    }
    s
}

/// The difficulty of a target to the nearest power of sixteen that it does not
/// exceed, written out: sixteen to the power of its leading zero hexadecimal
/// digits.
pub fn difficulty_full_int_from_target(target: &[u8; 32]) -> (s: String)
    ensures
        exists|n: nat| #[trigger]
            leading_zero_nibbles(be_value(target@), n) && s@ == decimal(exp(16, n)),
{
    let n = leading_zero_nibbles_256(target);
    decimal_power_of_sixteen(n)
}

/// The difficulty of a target as `difficulty_full_int_from_target` writes it,
/// read off the hexadecimal spelling of the target.
pub fn human_pool_difficulty_from_target_bytes(target: &[u8; 32]) -> (s: String)
    ensures
        exists|n: nat| #[trigger]
            leading_zero_nibbles(be_value(target@), n) && s@ == decimal(exp(16, n)),
{
    let spelling = hex_encode(target);
    let mut n: u32 = 0;
    while n < 64 && spelling.as_str().get_char(n as usize) == '0'
        invariant
            n <= 64,
            spelling@ == hex(target@),
            forall|j: int| 0 <= j < n ==> spelling@[j] == '0',
        decreases 64 - n,
    {
        n = n + 1;
    }
    proof {
        let k = n as int / 2;
        assert forall|j: int| 0 <= j < k implies target@[j] == 0 by {
            assert(spelling@[2 * j] == digit_char(target@[j] as nat / 16));
            assert(spelling@[2 * j + 1] == digit_char(target@[j] as nat % 16));
        }
        if n == 64 {
            lemma_be_value_zeros(target@);
            reveal_with_fuel(exp, 1);
        } else {
            reveal_with_fuel(exp, 3);
            assert(spelling@[2 * k] == digit_char(target@[k] as nat / 16));
            assert(spelling@[2 * k + 1] == digit_char(target@[k] as nat % 16));
            if n % 2 == 0 {
                lemma_first_nonzero_byte(target@, k, 16, 2, 1, 2);
            } else {
                lemma_first_nonzero_byte(target@, k, 16, 2, 0, 1);
            }
        }
        assert(leading_zero_nibbles(be_value(target@), n as nat));
    }
    decimal_power_of_sixteen(n)
}

/// Hexadecimal spellings tell byte strings of one length apart.
pub proof fn law_hex_is_injective(a: Seq<u8>, b: Seq<u8>)
    requires
        hex(a) == hex(b),
    ensures
        a == b,
{
    assert(hex(a).len() == 2 * a.len() && hex(b).len() == 2 * b.len());
    assert forall|i: int| 0 <= i < a.len() implies a[i] == b[i] by {
        assert(hex(a)[2 * i] == digit_char(a[i] as nat / 16));
        assert(hex(b)[2 * i] == digit_char(b[i] as nat / 16));
        assert(hex(a)[2 * i + 1] == digit_char(a[i] as nat % 16));
        assert(hex(b)[2 * i + 1] == digit_char(b[i] as nat % 16));
    }
    assert(a =~= b);
}

/// The short spelling of a key is the beginning of its full spelling.
pub proof fn law_short_hex_is_a_prefix(key: Seq<u8>)
    requires
        key.len() == 32,
    ensures
        hex(key.take(4)) == hex(key).take(8),
        hex(key).len() == 64,
{
    assert(hex(key.take(4)) =~= hex(key).take(8));
}

/// Two lower-case hexadecimal digits spell each byte: sixteen times the value of
/// the first and the value of the second make the byte.
pub proof fn law_hex_digits_make_the_bytes(s: Seq<u8>, i: int)
    requires
        0 <= i < s.len(),
    ensures
        hex(s).len() == 2 * s.len(),
        ({
            let high = hex(s)[2 * i] as int;
            let low = hex(s)[2 * i + 1] as int;
            &&& 48 <= high <= 57 || 97 <= high <= 102
            &&& 48 <= low <= 57 || 97 <= low <= 102
            &&& s[i] == 16 * (if high <= 57 {
                high - 48
            } else {
                high - 87
            }) + (if low <= 57 {
                low - 48
            } else {
                low - 87
            })
        }),
{
}

/// A decimal spelling is read back as its number, holds digits only, and has no
/// superfluous zero in front.
pub proof fn law_decimal_is_read_back(n: nat)
    ensures
        decimal(n).fold_left(0int, |read: int, c: char| read * 10 + (c as int - 48)) == n,
        forall|i: int| 0 <= i < decimal(n).len() ==> 48 <= (#[trigger] decimal(n)[i]) as int <= 57,
        decimal(n).len() > 0,
        decimal(n).len() > 1 ==> decimal(n)[0] as int != 48,
        n > 0 ==> decimal(n)[0] as int != 48,
    decreases n,
{
    reveal(Seq::fold_left);
    let f = |read: int, c: char| read * 10 + (c as int - 48);
    if n < 10 {
        let one = seq![digit_char(n)];
        assert(one.drop_last() =~= Seq::<char>::empty());
        assert(one.drop_last().fold_left(0int, f) == 0);
    } else {
        law_decimal_is_read_back(n / 10);
        let all = decimal(n / 10).push(digit_char(n % 10));
        assert(all.drop_last() =~= decimal(n / 10));
    }
}

} // verus!
