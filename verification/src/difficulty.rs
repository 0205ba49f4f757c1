//! Targets and difficulties: 256-bit numbers, kept as 32 bytes with the most
//! significant byte first. A hash meets a target when it is not larger.

use vstd::arithmetic::power::pow;
use vstd::prelude::*;

use crate::bytes::{
    be_value, exp, law_powers, lemma_be_value_append, lemma_be_value_bound, lemma_be_value_first,
    lemma_be_value_zeros, lemma_exp_add, lemma_exp_literals, lemma_exp_monotonic, lemma_exp_mul,
    lemma_exp_positive, lemma_minimal_length,
};
use crate::magnitude::Magnitude;

verus! {

/// Fraction bits of a work unit.
pub const WORK_FP_SHIFT: u32 = 64;

/// The largest target, which every hash meets, as a number.
pub open spec fn max_target() -> nat {
    (exp(256, 32) - 1) as nat
}

/// `n`, or `limit` where `n` is larger.
pub open spec fn clamped(n: nat, limit: nat) -> nat {
    if n > limit {
        limit
    } else {
        n
    }
}

/// How many hashes it takes on average to find one as small as `value`, as a
/// 64-bit number; zero for the zero hash.
pub open spec fn difficulty_of(value: nat) -> nat {
    if value == 0 {
        0
    } else {
        clamped(max_target() / value, u64::MAX as nat)
    }
}

proof fn lemma_ones(s: Seq<u8>)
    requires
        forall|i: int| 0 <= i < s.len() ==> s[i] == 255,
    ensures
        be_value(s) == exp(256, s.len()) - 1,
    decreases s.len(),
{
    if s.len() > 0 {
        lemma_ones(s.drop_last());
    }
}

/// The largest target.
pub fn max_target_bytes() -> (t: [u8; 32])
    ensures
        be_value(t@) == max_target(),
        forall|i: int| 0 <= i < 32 ==> t@[i] == 255,
{
    let t = [255u8; 32];
    proof {
        lemma_ones(t@);
    }
    t
}

/// Whether the number is zero.
pub fn biguint_is_zero(v: &Magnitude) -> (r: bool)
    requires
        v.wf(),
    ensures
        r == (v@ == 0),
{
    proof {
        if v.bytes@.len() == 1 {
            assert(v.bytes@.drop_last() =~= Seq::<u8>::empty());
            assert(be_value(v.bytes@) == v.bytes@[0] as nat) by {
                assert(be_value(v.bytes@.drop_last()) == 0);
            }
        } else {
            lemma_minimal_length(v.bytes@, 1);
            lemma_exp_positive(256, 1);
        }
    }
    v.bytes.len() == 1 && v.bytes[0] == 0
}

/// The number as 128 bits, if it has no more.
pub fn biguint_to_u128(v: &Magnitude) -> (r: Option<u128>)
    requires
        v.wf(),
    ensures
        r is Some <==> v@ <= u128::MAX,
        r is Some ==> r->0 == v@,
{
    proof {
        lemma_exp_literals();
        lemma_minimal_length(v.bytes@, 16);
    }
    if v.bytes.len() > 16 {
        return None;
    }
    let mut acc: u128 = 0;
    let mut i: usize = 0;
    while i < v.bytes.len()
        invariant
            i <= v.bytes.len() <= 16,
            acc == be_value(v.bytes@.take(i as int)),
        decreases v.bytes.len() - i,
    {
        proof {
            let next = v.bytes@.take(i + 1);
            assert(next.drop_last() =~= v.bytes@.take(i as int));
            lemma_be_value_bound(next);
            lemma_exp_monotonic(256, (i + 1) as nat, 16);
            lemma_exp_literals();
        }
        acc = acc * 256 + v.bytes[i] as u128;
        i = i + 1;
    }
    assert(v.bytes@.take(i as int) =~= v.bytes@);
    Some(acc)
}

/// The number as 64 bits, or the largest 64-bit number.
fn clamp_to_u64(v: &Magnitude) -> (r: u64)
    requires
        v.wf(),
    ensures
        r == clamped(v@, u64::MAX as nat),
{
    match biguint_to_u128(v) {
        Some(n) => if n > u64::MAX as u128 {
            u64::MAX
        } else {
            n as u64
        },
        None => u64::MAX,
    }
}

/// The difficulty that a share with this hash has met: the largest target
/// divided by the hash, at most `u64::MAX`, and zero for the zero hash.
pub fn share_difficulty_from_hash(hash_bytes: &[u8]) -> (r: u64)
    ensures
        r == difficulty_of(be_value(hash_bytes@)),
{
    let hash_val = Magnitude::from_bytes_be(hash_bytes);
    if biguint_is_zero(&hash_val) {
        return 0;
    }
    let max_target = Magnitude::from_bytes_be(&max_target_bytes());
    clamp_to_u64(&max_target.quotient(&hash_val))
}

/// The difficulty of the network at a block target. A zero target, which no
/// hash but one can meet, counts as the largest difficulty.
pub fn network_difficulty(block_target: &[u8; 32]) -> (r: u64)
    ensures
        r == (if be_value(block_target@) == 0 {
            u64::MAX as nat
        } else {
            difficulty_of(be_value(block_target@))
        }),
{
    let target = Magnitude::from_bytes_be(block_target);
    if biguint_is_zero(&target) {
        return u64::MAX;
    }
    let max_target = Magnitude::from_bytes_be(&max_target_bytes());
    clamp_to_u64(&max_target.quotient(&target))
}

/// The number as 32 bytes.
fn to_target(v: &Magnitude) -> (buf: [u8; 32])
    requires
        v.wf(),
        v@ <= max_target(),
    ensures
        be_value(buf@) == v@,
{
    proof {
        lemma_minimal_length(v.bytes@, 32);
        lemma_exp_positive(256, 32);
    }
    let mut buf = [0u8; 32];
    let pad: usize = 32 - v.bytes.len();
    let mut i: usize = 0;
    while i < v.bytes.len()
        invariant
            i <= v.bytes.len() <= 32,
            pad == 32 - v.bytes.len(),
            forall|j: int| 0 <= j < pad ==> buf@[j] == 0,
            forall|j: int| 0 <= j < i ==> buf@[pad + j] == v.bytes@[j],
        decreases v.bytes.len() - i,
    {
        buf[pad + i] = v.bytes[i];
        i = i + 1;
    }
    proof {
        let zeros = buf@.take(pad as int);
        assert(buf@ =~= zeros + v.bytes@);
        lemma_be_value_append(zeros, v.bytes@);
        lemma_be_value_zeros(zeros);
        assert(0 * exp(256, v.bytes@.len()) == 0) by (nonlinear_arith);
    }
    buf
}

/// The target made `mult` times easier, at most the largest target. The zero
/// target stays as it is.
pub fn ease_target(cur: &[u8; 32], mult: u32) -> (r: [u8; 32])
    ensures
        be_value(r@) == clamped(be_value(cur@) * mult as nat, max_target()),
{
    let cur_bi = Magnitude::from_bytes_be(cur);
    if biguint_is_zero(&cur_bi) {
        assert(0 * mult as nat == 0) by (nonlinear_arith);
        return *cur;
    }
    let eased = cur_bi.product(mult);
    let max = Magnitude::from_bytes_be(&max_target_bytes());
    if eased.exceeds(&max) {
        to_target(&max)
    } else {
        to_target(&eased)
    }
}

/// The work that one share at `miner_target` is worth, where a share at
/// `base_target` is worth one: a fixed-point number with `WORK_FP_SHIFT`
/// fraction bits, between 1 and `u128::MAX`.
pub open spec fn work_units(base_target: nat, miner_target: nat) -> nat {
    if miner_target == 0 {
        1
    } else {
        let q = base_target * exp(2, WORK_FP_SHIFT as nat) / miner_target;
        if q == 0 {
            1
        } else {
            clamped(q, u128::MAX as nat)
        }
    }
}

/// The work credited for a share; see `work_units`.
pub fn compute_work_units_q64_64(base_target: &[u8; 32], miner_target: &[u8; 32]) -> (r: u128)
    ensures
        r == work_units(be_value(base_target@), be_value(miner_target@)),
{
    let base = Magnitude::from_bytes_be(base_target);
    let miner = Magnitude::from_bytes_be(miner_target);
    if biguint_is_zero(&miner) {
        return 1;
    }
    let q = base.shifted_left(WORK_FP_SHIFT).quotient(&miner);
    match biguint_to_u128(&q) {
        Some(v) => if v == 0 {
            1
        } else {
            v
        },
        None => u128::MAX,
    }
}

/// `n` of the 256 bits of `value` are zero before the first one that is not.
pub open spec fn leading_zero_bits(value: nat, n: nat) -> bool {
    &&& n <= 256
    &&& value < exp(2, (256 - n) as nat)
    &&& n < 256 ==> exp(2, (255 - n) as nat) <= value
}

/// `n` of the 64 hexadecimal digits of `value` are zero before the first one
/// that is not.
pub open spec fn leading_zero_nibbles(value: nat, n: nat) -> bool {
    &&& n <= 64
    &&& value < exp(16, (64 - n) as nat)
    &&& n < 64 ==> exp(16, (63 - n) as nat) <= value
}

proof fn lemma_skip_zeros(s: Seq<u8>, k: int)
    requires
        0 <= k <= s.len(),
        forall|j: int| 0 <= j < k ==> s[j] == 0,
    ensures
        be_value(s) == be_value(s.skip(k)),
{
    let zeros = s.take(k);
    assert(s =~= zeros + s.skip(k));
    lemma_be_value_append(zeros, s.skip(k));
    lemma_be_value_zeros(zeros);
    assert(0 * exp(256, s.skip(k).len()) == 0) by (nonlinear_arith);
}

/// Where the first byte of a target that is not zero lies between two powers
/// of `b`, the target lies between the same powers, shifted by the bytes that
/// follow. `per_byte` digits to the base `b` make one byte.
pub proof fn lemma_first_nonzero_byte(s: Seq<u8>, k: int, b: nat, per_byte: nat, low: nat, high: nat)
    requires
        0 <= k < s.len(),
        forall|j: int| 0 <= j < k ==> s[j] == 0,
        b > 0,
        exp(b, per_byte) == 256,
        exp(b, low) <= s[k] as nat,
        (s[k] as nat) < exp(b, high),
    ensures
        exp(b, low + per_byte * ((s.len() - 1 - k) as nat)) <= be_value(s),
        be_value(s) < exp(b, high + per_byte * ((s.len() - 1 - k) as nat)),
{
    lemma_skip_zeros(s, k);
    let rest = s.skip(k);
    let m = (s.len() - 1 - k) as nat;
    lemma_be_value_first(rest);
    lemma_exp_mul(b, per_byte, m);
    lemma_exp_add(b, low, per_byte * m);
    lemma_exp_add(b, high, per_byte * m);
    let p = exp(256, m);
    let x = s[k] as nat;
    let lo = exp(b, low);
    let hi = exp(b, high);
    assert(lo * p <= x * p) by (nonlinear_arith)
        requires
            lo <= x,
    ;
    assert((x + 1) * p <= hi * p) by (nonlinear_arith)
        requires
            x + 1 <= hi,
    ;
}

proof fn lemma_byte_leading_zeros(b: u8)
    requires
        b != 0,
    ensures
        b.leading_zeros() < 8,
        exp(2, (7 - b.leading_zeros()) as nat) <= b,
        b < exp(2, (8 - b.leading_zeros()) as nat),
{
    vstd::std_specs::bits::axiom_u8_leading_zeros(b);
    reveal_with_fuel(exp, 9);
    let z = b.leading_zeros();
    let k = (7 - z) as u8;
    assert((b >> k) & 1u8 != 0u8);
    assert(b >> ((k + 1) as u8) == 0);
    assert(k < 8 && (b >> k) & 1u8 != 0u8 && b >> ((k + 1) as u8) == 0 ==> {
        &&& k == 0 ==> 1 <= b < 2
        &&& k == 1 ==> 2 <= b < 4
        &&& k == 2 ==> 4 <= b < 8
        &&& k == 3 ==> 8 <= b < 16
        &&& k == 4 ==> 16 <= b < 32
        &&& k == 5 ==> 32 <= b < 64
        &&& k == 6 ==> 64 <= b < 128
        &&& k == 7 ==> 128 <= b
    }) by (bit_vector);
}

/// The number of leading zero bits of a target.
pub fn target_leading_zero_bits(target: &[u8; 32]) -> (count: u32)
    ensures
        leading_zero_bits(be_value(target@), count as nat),
{
    let mut count: u32 = 0;
    let mut i: usize = 0;
    while i < 32
        invariant
            i <= 32,
            count == 8 * i,
            forall|j: int| 0 <= j < i ==> target@[j] == 0,
        decreases 32 - i,
    {
        let byte = target[i];
        if byte != 0 {
            proof {
                lemma_byte_leading_zeros(byte);
                reveal_with_fuel(exp, 9);
                let z = byte.leading_zeros() as nat;
                lemma_first_nonzero_byte(
                    target@,
                    i as int,
                    2,
                    8,
                    (7 - z) as nat,
                    (8 - z) as nat,
                );
            }
            return count + byte.leading_zeros();
        }
        count = count + 8;
        i = i + 1;
    }
    proof {
        lemma_be_value_zeros(target@);
    }
    count
}

/// The number of leading zero hexadecimal digits of a target.
pub fn leading_zero_nibbles_256(target: &[u8; 32]) -> (nibbles: u32)
    ensures
        leading_zero_nibbles(be_value(target@), nibbles as nat),
{
    let mut nibbles: u32 = 0;
    let mut i: usize = 0;
    while i < 32
        invariant
            i <= 32,
            nibbles == 2 * i,
            forall|j: int| 0 <= j < i ==> target@[j] == 0,
        decreases 32 - i,
    {
        let b = target[i];
        if b != 0 {
            proof {
                reveal_with_fuel(exp, 3);
                assert((b & 0xF0) == 0 <==> b < 16) by (bit_vector);
                if b < 16 {
                    lemma_first_nonzero_byte(target@, i as int, 16, 2, 0, 1);
                } else {
                    lemma_first_nonzero_byte(target@, i as int, 16, 2, 1, 2);
                }
            }
            if (b & 0xF0) == 0 {
                nibbles = nibbles + 1;
            }
            return nibbles;
        }
        nibbles = nibbles + 2;
        i = i + 1;
    }
    proof {
        lemma_be_value_zeros(target@);
    }
    nibbles
}

/// How much easier one target is than another.
#[derive(Clone, Copy, PartialEq, Eq, Debug, Structural)]
pub enum TargetRatio {
    /// One of the targets is zero.
    Undefined,
    /// The ratio in millionths, rounded down.
    Millionths(u128),
    /// The ratio in millionths has more than 128 bits.
    TooLarge,
}

/// The ratio of `miner_target` to `base_target` in millionths.
pub fn target_difficulty_ratio(base_target: &[u8; 32], miner_target: &[u8; 32]) -> (r: TargetRatio)
    ensures
        r == ({
            let base = be_value(base_target@);
            let miner = be_value(miner_target@);
            let ratio = miner * 1_000_000 / base;
            if base == 0 || miner == 0 {
                TargetRatio::Undefined
            } else if ratio <= u128::MAX {
                TargetRatio::Millionths(ratio as u128)
            } else {
                TargetRatio::TooLarge
            }
        }),
{
    let base = Magnitude::from_bytes_be(base_target);
    let miner = Magnitude::from_bytes_be(miner_target);
    if biguint_is_zero(&base) || biguint_is_zero(&miner) {
        return TargetRatio::Undefined;
    }
    let ratio = miner.product(1_000_000).quotient(&base);
    match biguint_to_u128(&ratio) {
        Some(r) => TargetRatio::Millionths(r),
        None => TargetRatio::TooLarge,
    }
}

/// A share at the base target is worth exactly one work unit.
pub proof fn law_base_share_is_one_unit(target: nat)
    requires
        0 < target,
    ensures
        work_units(target, target) == exp(2, 64),
{
    reveal_with_fuel(exp, 65);
    let p = exp(2, 64);
    assert(target * p / target == p) by (nonlinear_arith)
        requires
            target > 0,
    ;
}

/// An easier target never earns more work per share.
pub proof fn law_easier_share_earns_no_more(base: nat, hard: nat, easy: nat)
    requires
        0 < hard <= easy,
    ensures
        work_units(base, easy) <= work_units(base, hard),
        work_units(base, easy) >= 1,
{
    let num = base * exp(2, 64);
    vstd::arithmetic::div_mod::lemma_div_is_ordered_by_denominator(
        num as int,
        hard as int,
        easy as int,
    );
}

/// Easing a target by a positive factor never makes it harder, and a target
/// that easing leaves alone is zero, the largest one, or eased by one.
pub proof fn law_easing_never_hardens(target: nat, mult: nat)
    requires
        target <= max_target(),
        mult >= 1,
    ensures
        target <= clamped(target * mult, max_target()) <= max_target(),
        clamped(target * mult, max_target()) == target ==> target == 0 || target == max_target()
            || mult == 1,
{
    assert(target <= target * mult) by (nonlinear_arith)
        requires
            mult >= 1,
    ;
    if mult > 1 && target > 0 {
        assert(target < target * mult) by (nonlinear_arith)
            requires
                mult > 1,
                target > 0,
        ;
    }
}

/// A larger hash never counts as a higher difficulty.
pub proof fn law_larger_hash_is_less_difficult(small: nat, large: nat)
    requires
        0 < small <= large,
    ensures
        difficulty_of(large) <= difficulty_of(small),
{
    vstd::arithmetic::div_mod::lemma_div_is_ordered_by_denominator(
        max_target() as int,
        small as int,
        large as int,
    );
}

/// The number of leading zero bits, and of leading zero hexadecimal digits, is
/// fixed by the target; a digit is four bits.
pub proof fn law_leading_zeros_are_unique(value: nat, bits: nat, nibbles: nat, other: nat)
    requires
        leading_zero_bits(value, bits),
        leading_zero_nibbles(value, nibbles),
    ensures
        leading_zero_bits(value, other) ==> other == bits,
        leading_zero_nibbles(value, other) ==> other == nibbles,
        nibbles == bits / 4,
{
    if leading_zero_bits(value, other) {
        if other < bits {
            lemma_exp_monotonic(2, (256 - bits) as nat, (255 - other) as nat);
        } else if bits < other {
            lemma_exp_monotonic(2, (256 - other) as nat, (255 - bits) as nat);
        }
    }
    if leading_zero_nibbles(value, other) {
        if other < nibbles {
            lemma_exp_monotonic(16, (64 - nibbles) as nat, (63 - other) as nat);
        } else if nibbles < other {
            lemma_exp_monotonic(16, (64 - other) as nat, (63 - nibbles) as nat);
        }
    }
    reveal_with_fuel(exp, 5);
    lemma_exp_mul(2, 4, (64 - nibbles) as nat);
    if bits < 4 * nibbles {
        lemma_exp_monotonic(2, (4 * (64 - nibbles)) as nat, (255 - bits) as nat);
    }
    if nibbles < 64 {
        lemma_exp_mul(2, 4, (63 - nibbles) as nat);
        if bits >= 4 * nibbles + 4 {
            lemma_exp_monotonic(2, (256 - bits) as nat, (4 * (63 - nibbles)) as nat);
        }
    }
}

/// The largest target has all of its 256 bits set.
pub proof fn law_the_largest_target_has_256_bits()
    ensures
        max_target() == pow(2, 256) - 1,
{
    assert(exp(2, 8) == 256) by {
        reveal_with_fuel(exp, 9);
    }
    lemma_exp_mul(2, 8, 32);
    lemma_exp_positive(256, 32);
    law_powers(2, 256);
}

/// The smaller one of the number and the limit.
pub proof fn law_clamping_takes_the_smaller(n: nat, limit: nat)
    ensures
        clamped(n, limit) == vstd::math::min(n as int, limit as int),
{
}

/// So many hashes of the size of a hash fit into the largest target as its
/// difficulty says, and no more, unless the difficulty is as large as it can be;
/// only a hash of zero has no difficulty.
pub proof fn law_difficulty_is_how_often_a_hash_fits(value: nat)
    ensures
        ({
            let d = difficulty_of(value);
            &&& value == 0 ==> d == 0
            &&& d <= 0xffff_ffff_ffff_ffff
            &&& d * value <= pow(2, 256) - 1
            &&& value > 0 && d < 0xffff_ffff_ffff_ffff ==> pow(2, 256) - 1 < (d + 1) * value
        }),
{
    law_the_largest_target_has_256_bits();
    let m = max_target();
    if value > 0 {
        let q = m / value;
        let d = difficulty_of(value);
        assert(q * value <= m < (q + 1) * value) by (nonlinear_arith)
            requires
                value > 0,
                q == m / value,
        ;
        assert(d * value <= q * value) by (nonlinear_arith)
            requires
                d <= q,
        ;
    }
}

/// The work of a share at a target, times the target, is the base target with 64
/// fraction bits, rounded down to a whole number of units of the last bit; it is
/// at least one such unit, and never more than 128 bits can hold.
pub proof fn law_work_is_how_often_a_target_fits(base: nat, miner: nat)
    ensures
        ({
            let w = work_units(base, miner);
            &&& miner == 0 ==> w == 1
            &&& 1 <= w <= 0xffff_ffff_ffff_ffff_ffff_ffff_ffff_ffff
            &&& w > 1 ==> w * miner <= base * pow(2, 64)
            &&& miner > 0 && w < 0xffff_ffff_ffff_ffff_ffff_ffff_ffff_ffff ==> base * pow(2, 64) < (w
                + 1) * miner
        }),
{
    law_powers(2, 64);
    let num = base * exp(2, 64);
    if miner > 0 {
        let q = num / miner;
        let w = work_units(base, miner);
        assert(q * miner <= num < (q + 1) * miner) by (nonlinear_arith)
            requires
                miner > 0,
                q == num / miner,
        ;
        assert(w > 1 ==> w * miner <= q * miner) by (nonlinear_arith)
            requires
                w > 1 ==> w <= q,
        ;
        assert((q + 1) * miner <= (w + 1) * miner || w < q) by (nonlinear_arith)
            requires
                w >= q || w < q,
        ;
    }
}

/// Leading zeros by the powers between which the value lies.
pub proof fn law_leading_zeros_by_powers(value: nat, n: nat)
    ensures
        leading_zero_bits(value, n) <==> n <= 256 && value < pow(2, (256 - n) as nat) && (n < 256
            ==> pow(2, (255 - n) as nat) <= value),
        leading_zero_nibbles(value, n) <==> n <= 64 && value < pow(16, (64 - n) as nat) && (n < 64
            ==> pow(16, (63 - n) as nat) <= value),
{
    if n <= 256 {
        law_powers(2, (256 - n) as nat);
        if n < 256 {
            law_powers(2, (255 - n) as nat);
        }
    }
    if n <= 64 {
        law_powers(16, (64 - n) as nat);
        if n < 64 {
            law_powers(16, (63 - n) as nat);
        }
    }
}

} // verus!
