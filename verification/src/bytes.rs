//! Byte strings as numbers, and comparison of byte strings.

use vstd::prelude::*;

verus! {

/// `b` to the power `n`.
pub open spec fn exp(b: nat, n: nat) -> nat
    decreases n,
{
    if n == 0 {
        1
    } else {
        b * exp(b, (n - 1) as nat)
    }
}

/// The number that `s` spells with its most significant byte first.
pub open spec fn be_value(s: Seq<u8>) -> nat
    decreases s.len(),
{
    if s.len() == 0 {
        0
    } else {
        be_value(s.drop_last()) * 256 + s.last() as nat
    }
}

/// The number that `s` spells with its least significant byte first.
pub open spec fn le_value(s: Seq<u8>) -> nat
    decreases s.len(),
{
    if s.len() == 0 {
        0
    } else {
        s.first() as nat + 256 * le_value(s.drop_first())
    }
}

/// `s` spells its number without a superfluous leading zero byte.
pub open spec fn is_minimal(s: Seq<u8>) -> bool {
    &&& s.len() >= 1
    &&& s.len() > 1 ==> s[0] != 0
}

/// Powers of a positive base are positive.
pub proof fn lemma_exp_positive(b: nat, n: nat)
    requires
        b > 0,
    ensures
        exp(b, n) > 0,
    decreases n,
{
    if n > 0 {
        lemma_exp_positive(b, (n - 1) as nat);
        assert(b * exp(b, (n - 1) as nat) > 0) by (nonlinear_arith)
            requires
                b > 0,
                exp(b, (n - 1) as nat) > 0,
        ;
    }
}

/// Exponents add when powers multiply.
pub proof fn lemma_exp_add(b: nat, m: nat, n: nat)
    ensures
        exp(b, m + n) == exp(b, m) * exp(b, n),
    decreases m,
{
    if m > 0 {
        lemma_exp_add(b, (m - 1) as nat, n);
        assert((m + n - 1) as nat == (m - 1) as nat + n);
        assert(b * (exp(b, (m - 1) as nat) * exp(b, n)) == (b * exp(b, (m - 1) as nat)) * exp(b, n))
            by (nonlinear_arith);
    } else {
        assert(1 * exp(b, n) == exp(b, n)) by (nonlinear_arith);
    }
}

/// Exponents multiply when a power is raised.
pub proof fn lemma_exp_mul(b: nat, m: nat, n: nat)
    ensures
        exp(exp(b, m), n) == exp(b, m * n),
    decreases n,
{
    if n > 0 {
        lemma_exp_mul(b, m, (n - 1) as nat);
        assert(m * n == m + m * (n - 1)) by (nonlinear_arith)
            requires
                n > 0,
        ;
        assert(m * (n - 1) >= 0) by (nonlinear_arith)
            requires
                n > 0,
        ;
        lemma_exp_add(b, m, (m * (n - 1)) as nat);
    } else {
        assert(m * 0 == 0) by (nonlinear_arith);
    }
}

/// A larger exponent gives at least as large a power.
pub proof fn lemma_exp_monotonic(b: nat, m: nat, n: nat)
    requires
        b > 0,
        m <= n,
    ensures
        exp(b, m) <= exp(b, n),
{
    lemma_exp_add(b, m, (n - m) as nat);
    lemma_exp_positive(b, (n - m) as nat);
    lemma_exp_positive(b, m);
    assert(exp(b, m) <= exp(b, m) * exp(b, (n - m) as nat)) by (nonlinear_arith)
        requires
            exp(b, (n - m) as nat) >= 1,
            exp(b, m) >= 1,
    ;
}

/// Joining two byte strings shifts the first past the second.
pub proof fn lemma_be_value_append(a: Seq<u8>, b: Seq<u8>)
    ensures
        be_value(a + b) == be_value(a) * exp(256, b.len()) + be_value(b),
    decreases b.len(),
{
    if b.len() == 0 {
        assert(a + b =~= a);
        assert(be_value(a) * 1 == be_value(a)) by (nonlinear_arith);
    } else {
        assert((a + b).drop_last() =~= a + b.drop_last());
        lemma_be_value_append(a, b.drop_last());
        let x = be_value(a);
        let p = exp(256, (b.len() - 1) as nat);
        assert((x * p) * 256 == x * (256 * p)) by (nonlinear_arith);
    }
}

/// A byte string spells a number below 256 to the power of its length.
pub proof fn lemma_be_value_bound(s: Seq<u8>)
    ensures
        be_value(s) < exp(256, s.len()),
    decreases s.len(),
{
    if s.len() > 0 {
        lemma_be_value_bound(s.drop_last());
    }
}

/// Zero bytes spell zero.
pub proof fn lemma_be_value_zeros(s: Seq<u8>)
    requires
        forall|i: int| 0 <= i < s.len() ==> s[i] == 0,
    ensures
        be_value(s) == 0,
    decreases s.len(),
{
    if s.len() > 0 {
        lemma_be_value_zeros(s.drop_last());
    }
}

/// Byte strings of one length spell different numbers unless they are equal.
pub proof fn lemma_be_value_injective(a: Seq<u8>, b: Seq<u8>)
    requires
        a.len() == b.len(),
        be_value(a) == be_value(b),
    ensures
        a == b,
    decreases a.len(),
{
    if a.len() > 0 {
        lemma_be_value_injective(a.drop_last(), b.drop_last());
        assert(a =~= a.drop_last().push(a.last()));
        assert(b =~= b.drop_last().push(b.last()));
    } else {
        assert(a =~= b);
    }
}

/// The first byte dominates what a byte string spells.
pub proof fn lemma_be_value_first(s: Seq<u8>)
    requires
        s.len() > 0,
    ensures
        be_value(s) == s[0] as nat * exp(256, (s.len() - 1) as nat) + be_value(s.drop_first()),
        s[0] as nat * exp(256, (s.len() - 1) as nat) <= be_value(s),
        be_value(s) < (s[0] as nat + 1) * exp(256, (s.len() - 1) as nat),
{
    let head = seq![s[0]];
    assert(s =~= head + s.drop_first());
    lemma_be_value_append(head, s.drop_first());
    assert(head.drop_last() =~= Seq::<u8>::empty());
    assert(be_value(head) == s[0] as nat) by {
        assert(be_value(head.drop_last()) == 0);
    }
    lemma_be_value_bound(s.drop_first());
    let x = s[0] as nat;
    let p = exp(256, (s.len() - 1) as nat);
    assert((x + 1) * p == x * p + p) by (nonlinear_arith);
}

/// The length of a minimal byte string is decided by the number that it spells.
pub proof fn lemma_minimal_length(s: Seq<u8>, n: nat)
    requires
        is_minimal(s),
        n >= 1,
    ensures
        s.len() <= n <==> be_value(s) < exp(256, n),
{
    lemma_be_value_bound(s);
    if s.len() <= n {
        lemma_exp_monotonic(256, s.len(), n);
    } else {
        lemma_be_value_first(s);
        lemma_exp_monotonic(256, n, (s.len() - 1) as nat);
        let x = s[0] as nat;
        let p = exp(256, (s.len() - 1) as nat);
        assert(x * p >= p) by (nonlinear_arith)
            requires
                x >= 1,
        ;
    }
}

/// Appending a byte adds it at the most significant end.
pub proof fn lemma_le_value_push(s: Seq<u8>, b: u8)
    ensures
        le_value(s.push(b)) == le_value(s) + exp(256, s.len()) * b as nat,
    decreases s.len(),
{
    if s.len() == 0 {
        assert(s.push(b).drop_first() =~= Seq::<u8>::empty());
        assert(le_value(s.push(b).drop_first()) == 0);
        assert(1 * b as nat == b as nat) by (nonlinear_arith);
    } else {
        assert(s.push(b).drop_first() =~= s.drop_first().push(b));
        lemma_le_value_push(s.drop_first(), b);
        let p = exp(256, (s.len() - 1) as nat);
        let v = b as nat;
        assert(256 * (p * v) == (256 * p) * v) by (nonlinear_arith);
    }
}

/// A byte string spells a number below 256 to the power of its length, whatever
/// its order.
pub proof fn lemma_le_value_bound(s: Seq<u8>)
    ensures
        le_value(s) < exp(256, s.len()),
    decreases s.len(),
{
    if s.len() > 0 {
        lemma_le_value_bound(s.drop_first());
    }
}

/// The powers of 256 that bound 64-bit and 128-bit numbers.
pub proof fn lemma_exp_literals()
    ensures
        exp(256, 8) == 0x1_0000_0000_0000_0000,
        exp(256, 16) == 0x1_0000_0000_0000_0000_0000_0000_0000_0000int,
{
    reveal_with_fuel(exp, 17);
}

/// The `len` bytes of a number, least significant byte first.
pub fn to_le_bytes(x: u128, len: usize) -> (r: Vec<u8>)
    requires
        x < exp(256, len as nat),
    ensures
        r@.len() == len,
        le_value(r@) == x,
{
    let mut r: Vec<u8> = Vec::new();
    let mut rest: u128 = x;
    let mut i: usize = 0;
    assert(1 * rest as nat == rest as nat) by (nonlinear_arith);
    while i < len
        invariant
            i <= len,
            r@.len() == i,
            le_value(r@) + exp(256, i as nat) * rest as nat == x,
        decreases len - i,
    {
        let b: u8 = (rest % 256) as u8;
        proof {
            lemma_le_value_push(r@, b);
            let p = exp(256, i as nat);
            let low = b as nat;
            let up = (rest / 256) as nat;
            let all = rest as nat;
            assert(p * low + (256 * p) * up == p * all) by (nonlinear_arith)
                requires
                    all == low + 256 * up,
            ;
        }
        r.push(b);
        rest = rest / 256;
        i = i + 1;
    }
    proof {
        let p = exp(256, len as nat);
        let q = rest as nat;
        let v = le_value(r@);
        let n = x as nat;
        lemma_exp_positive(256, len as nat);
        assert(q == 0) by (nonlinear_arith)
            requires
                v + p * q == n,
                n < p,
        ;
        assert(p * 0 == 0) by (nonlinear_arith);
    }
    r
}

/// The number that at most sixteen bytes spell, least significant byte first.
pub fn from_le_bytes(s: &[u8]) -> (x: u128)
    requires
        s@.len() <= 16,
    ensures
        x == le_value(s@),
{
    let mut x: u128 = 0;
    let mut i: usize = s.len();
    assert(s@.skip(i as int) =~= Seq::<u8>::empty());
    while i > 0
        invariant
            i <= s.len() <= 16,
            x == le_value(s@.skip(i as int)),
        decreases i,
    {
        i = i - 1;
        proof {
            let t = s@.skip(i as int);
            assert(t.drop_first() =~= s@.skip(i + 1));
            lemma_le_value_bound(t);
            lemma_exp_monotonic(256, t.len(), 16);
            lemma_exp_literals();
        }
        x = s[i] as u128 + 256 * x;
    }
    assert(s@.skip(0) =~= s@);
    x
}

/// Reversing a byte string changes the order in which it spells its number.
pub proof fn lemma_reverse(s: Seq<u8>)
    ensures
        be_value(s.reverse()) == le_value(s),
    decreases s.len(),
{
    if s.len() > 0 {
        lemma_reverse(s.drop_first());
        assert(s.reverse().drop_last() =~= s.drop_first().reverse());
    }
}

/// The eight bytes of a number, most significant byte first.
pub fn to_be_bytes(x: u64) -> (r: Vec<u8>)
    ensures
        r@.len() == 8,
        be_value(r@) == x,
{
    proof {
        lemma_exp_literals();
    }
    let le = to_le_bytes(x as u128, 8);
    let mut r: Vec<u8> = Vec::new();
    let mut i: usize = 8;
    while i > 0
        invariant
            i <= 8,
            le@.len() == 8,
            r@ == le@.reverse().take(8 - i),
        decreases i,
    {
        i = i - 1;
        r.push(le[i]);
        assert(r@ =~= le@.reverse().take(8 - i));
    }
    proof {
        assert(r@ =~= le@.reverse());
        lemma_reverse(le@);
    }
    r
}

/// Whether two byte strings are the same.
pub fn same_bytes(a: &[u8], b: &[u8]) -> (r: bool)
    ensures
        r == (a@ == b@),
{
    if a.len() != b.len() {
        return false;
    }
    let mut i: usize = 0;
    while i < a.len()
        invariant
            i <= a.len(),
            a.len() == b.len(),
            forall|j: int| 0 <= j < i ==> a@[j] == b@[j],
        decreases a.len() - i,
    {
        if a[i] != b[i] {
            return false;
        }
        i = i + 1;
    }
    assert(a@ =~= b@);
    true
}

/// `exp` is the power of arithmetic.
pub proof fn law_powers(b: nat, n: nat)
    ensures
        exp(b, n) == vstd::arithmetic::power::pow(b as int, n),
    decreases n,
{
    reveal(vstd::arithmetic::power::pow);
    if n > 0 {
        law_powers(b, (n - 1) as nat);
    }
}

/// Reading a byte string from its most significant byte on, each further byte
/// shifts what was read by a byte and is added.
pub proof fn law_big_endian(s: Seq<u8>)
    ensures
        be_value(s) == s.fold_left(0int, |read: int, b: u8| read * 256 + b),
    decreases s.len(),
{
    reveal(Seq::fold_left);
    if s.len() > 0 {
        law_big_endian(s.drop_last());
    }
}

/// With the least significant byte first, a byte string is read from its end.
pub proof fn law_little_endian(s: Seq<u8>)
    ensures
        le_value(s) == s.reverse().fold_left(0int, |read: int, b: u8| read * 256 + b),
{
    lemma_reverse(s);
    law_big_endian(s.reverse());
}

} // verus!
