//! Unsigned numbers of any size, computed by `num_bigint`.

use num_bigint::BigUint;
use vstd::prelude::*;

use crate::bytes::{be_value, exp, is_minimal};

verus! {

/// An unsigned number, held as its shortest big-endian byte string.
pub struct Magnitude {
    pub bytes: Vec<u8>,
}

impl View for Magnitude {
    type V = nat;

    open spec fn view(&self) -> nat {
        be_value(self.bytes@)
    }
}

impl Magnitude {
    /// The byte string is the shortest one.
    pub open spec fn wf(&self) -> bool {
        is_minimal(self.bytes@)
    }

    /// `BigUint::from_bytes_be`: the number that the bytes spell, most
    /// significant byte first. It is trusted that the number is kept and that
    /// `BigUint::to_bytes_be` hands it back without leading zero bytes.
    #[verifier::external_body]
    pub(crate) fn from_bytes_be(bytes: &[u8]) -> (m: Magnitude)
        ensures
            m.wf(),
            m@ == be_value(bytes@),
    {
        Magnitude { bytes: BigUint::from_bytes_be(bytes).to_bytes_be() }
    }

    /// `BigUint`'s `/`: the quotient rounded down. It panics on a zero divisor.
    #[verifier::external_body]
    pub(crate) fn quotient(&self, divisor: &Magnitude) -> (m: Magnitude)
        requires
            divisor@ > 0,
        ensures
            m.wf(),
            m@ == self@ / divisor@,
    {
        let q = BigUint::from_bytes_be(&self.bytes) / BigUint::from_bytes_be(&divisor.bytes);
        Magnitude { bytes: q.to_bytes_be() }
    }

    /// `BigUint`'s `*` by a 32-bit factor: the exact product.
    #[verifier::external_body]
    pub(crate) fn product(&self, factor: u32) -> (m: Magnitude)
        ensures
            m.wf(),
            m@ == self@ * factor as nat,
    {
        let p = BigUint::from_bytes_be(&self.bytes) * BigUint::from(factor);
        Magnitude { bytes: p.to_bytes_be() }
    }

    /// `BigUint`'s `<<`: the number times two to the power `bits`.
    #[verifier::external_body]
    pub(crate) fn shifted_left(&self, bits: u32) -> (m: Magnitude)
        ensures
            m.wf(),
            m@ == self@ * exp(2, bits as nat),
    {
        let s = BigUint::from_bytes_be(&self.bytes) << bits;
        Magnitude { bytes: s.to_bytes_be() }
    }

    /// `BigUint`'s `>`: whether this number is the larger one.
    #[verifier::external_body]
    pub(crate) fn exceeds(&self, other: &Magnitude) -> (r: bool)
        ensures
            r == (self@ > other@),
    {
        BigUint::from_bytes_be(&self.bytes) > BigUint::from_bytes_be(&other.bytes)
    }
}

} // verus!
