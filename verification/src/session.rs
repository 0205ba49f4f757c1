//! A miner's session: the target that its shares have to meet, and what a share
//! at that target is worth.

use vstd::arithmetic::power::pow;
use vstd::prelude::*;

use crate::bytes::{
    be_value, law_powers, lemma_be_value_bound, lemma_be_value_injective, same_bytes,
};
use crate::difficulty::{
    clamped, compute_work_units_q64_64, ease_target, law_base_share_is_one_unit,
    law_easier_share_earns_no_more, law_easing_never_hardens, law_the_largest_target_has_256_bits,
    law_work_is_how_often_a_target_fits, max_target, work_units,
};

verus! {

/// Whether the targets of idle miners are eased.
pub const VARDIFF_ENABLED: bool = false;

/// Seconds without a share before a target is eased.
pub const VARDIFF_NO_SHARE_SECS: u64 = 30;

/// Seconds between two adjustments.
pub const VARDIFF_MIN_ADJUST_SECS: u64 = 15;

/// How much easier a target becomes.
pub const VARDIFF_EASE_MULTIPLIER: u32 = 2;

/// The target of a session and what a share is worth at it.
#[derive(Clone, Copy, Debug)]
pub struct MinerSession {
    pub target: [u8; 32],
    pub work_units: u128,
}

/// What to do about a session's target.
#[derive(Clone, Copy, Debug)]
pub enum Adjustment {
    /// Nothing.
    Keep,
    /// Nothing, but it counts as an adjustment.
    Rest,
    /// Send the miner this target and go over to it.
    Push([u8; 32]),
}

/// The contents of an `Adjustment`, with targets as numbers.
pub enum AdjustmentView {
    Keep,
    Rest,
    Push(nat),
}

impl View for Adjustment {
    type V = AdjustmentView;

    open spec fn view(&self) -> AdjustmentView {
        match *self {
            Adjustment::Keep => AdjustmentView::Keep,
            Adjustment::Rest => AdjustmentView::Rest,
            Adjustment::Push(target) => AdjustmentView::Push(be_value(target@)),
        }
    }
}

/// A target one adjustment easier.
pub open spec fn eased_once(target: nat) -> nat {
    clamped(target * VARDIFF_EASE_MULTIPLIER as nat, max_target())
}

/// The adjustment that is due: after long enough without a share, and long enough
/// after the last adjustment, the target is eased, if it can be.
pub open spec fn adjustment_due(
    target: nat,
    since_share_secs: u64,
    since_adjust_secs: u64,
) -> AdjustmentView {
    if since_share_secs < VARDIFF_NO_SHARE_SECS || since_adjust_secs < VARDIFF_MIN_ADJUST_SECS {
        AdjustmentView::Keep
    } else if eased_once(target) == target {
        AdjustmentView::Rest
    } else {
        AdjustmentView::Push(eased_once(target))
    }
}

impl MinerSession {
    /// A share is worth what its target says, where one at `base_target` is worth
    /// one unit.
    pub open spec fn is_fair(&self, base_target: Seq<u8>) -> bool {
        self.work_units == work_units(be_value(base_target), be_value(self.target@))
    }

    /// A session starts at the base target.
    pub fn new(base_target: &[u8; 32]) -> (s: MinerSession)
        ensures
            s.target == *base_target,
            s.is_fair(base_target@),
    {
        MinerSession {
            target: *base_target,
            work_units: compute_work_units_q64_64(base_target, base_target),
        }
    }

    /// The adjustment that is due while targets are eased; see `adjustment_due`.
    pub fn adjustment(&self, since_share_secs: u64, since_adjust_secs: u64) -> (a: Adjustment)
        ensures
            a@ == adjustment_due(be_value(self.target@), since_share_secs, since_adjust_secs),
    {
        if since_share_secs < VARDIFF_NO_SHARE_SECS {
            return Adjustment::Keep;
        }
        if since_adjust_secs < VARDIFF_MIN_ADJUST_SECS {
            return Adjustment::Keep;
        }
        let new_target = ease_target(&self.target, VARDIFF_EASE_MULTIPLIER);
        if same_bytes(&new_target, &self.target) {
            return Adjustment::Rest;
        }
        proof {
            if be_value(new_target@) == be_value(self.target@) {
                lemma_be_value_injective(new_target@, self.target@);
            }
        }
        Adjustment::Push(new_target)
    }

    /// The adjustment to make now: none unless targets are eased.
    pub fn maybe_adjust_vardiff(&self, since_share_secs: u64, since_adjust_secs: u64) -> (a:
        Adjustment)
        ensures
            a@ == (if VARDIFF_ENABLED {
                adjustment_due(be_value(self.target@), since_share_secs, since_adjust_secs)
            } else {
                AdjustmentView::Keep
            }),
    {
        if !VARDIFF_ENABLED {
            return Adjustment::Keep;
        }
        self.adjustment(since_share_secs, since_adjust_secs)
    }

    /// Goes over to a target that the miner was sent.
    pub fn retarget(&mut self, base_target: &[u8; 32], new_target: &[u8; 32])
        ensures
            final(self).target == *new_target,
            final(self).is_fair(base_target@),
    {
        self.target = *new_target;
        self.work_units = compute_work_units_q64_64(base_target, new_target);
    }

    /// What a miner is answered in the handshake: its target, then the pool's key.
    pub fn handshake_reply(&self, pool_public: &[u8; 32]) -> (r: Vec<u8>)
        ensures
            r@ == self.target@ + pool_public@,
    {
        let mut r: Vec<u8> = Vec::new();
        let mut i: usize = 0;
        while i < 32
            invariant
                i <= 32,
                r@ == self.target@.take(i as int),
            decreases 32 - i,
        {
            r.push(self.target[i]);
            i = i + 1;
            assert(r@ =~= self.target@.take(i as int));
        }
        let mut j: usize = 0;
        assert(r@ =~= self.target@ + pool_public@.take(0));
        while j < 32
            invariant
                j <= 32,
                r@ == self.target@ + pool_public@.take(j as int),
            decreases 32 - j,
        {
            r.push(pool_public[j]);
            j = j + 1;
            assert(r@ =~= self.target@ + pool_public@.take(j as int));
        }
        assert(pool_public@.take(32) =~= pool_public@);
        r
    }
}

/// The target after a number of adjustments.
pub open spec fn eased_times(target: nat, n: nat) -> nat
    decreases n,
{
    if n == 0 {
        target
    } else {
        eased_once(eased_times(target, (n - 1) as nat))
    }
}

/// A miner that a target is pushed to gets an easier one, within bounds, and its
/// shares are then worth no more than before, but always something.
pub proof fn law_pushed_target_is_easier(
    base: nat,
    target: Seq<u8>,
    since_share_secs: u64,
    since_adjust_secs: u64,
)
    requires
        target.len() == 32,
    ensures
        adjustment_due(be_value(target), since_share_secs, since_adjust_secs) matches
            AdjustmentView::Push(new) ==> {
            &&& be_value(target) < new <= max_target()
            &&& 1 <= work_units(base, new) <= work_units(base, be_value(target))
        },
{
    let t = be_value(target);
    lemma_be_value_bound(target);
    law_easing_never_hardens(t, VARDIFF_EASE_MULTIPLIER as nat);
    if t > 0 {
        law_easier_share_earns_no_more(base, t, eased_once(t));
    }
}

/// However often a positive target is eased, it stays between where it started
/// and the largest one.
pub proof fn law_easing_stays_in_range(target: nat, n: nat)
    requires
        0 < target <= max_target(),
    ensures
        target <= eased_times(target, n) <= max_target(),
    decreases n,
{
    if n > 0 {
        law_easing_stays_in_range(target, (n - 1) as nat);
        law_easing_never_hardens(
            eased_times(target, (n - 1) as nat),
            VARDIFF_EASE_MULTIPLIER as nat,
        );
    }
}

/// A miner that sends a share every half minute is never sent another target.
pub proof fn law_busy_miners_are_left_alone(
    target: nat,
    since_share_secs: u64,
    since_adjust_secs: u64,
)
    requires
        since_share_secs < 30,
    ensures
        adjustment_due(target, since_share_secs, since_adjust_secs) is Keep,
{
}

/// A target is pushed exactly after half a minute without a share and a quarter
/// of a minute after the last adjustment, where it is neither zero nor the
/// largest; it is then twice as easy, or the largest where that is more.
pub proof fn law_when_a_target_is_pushed(
    target: nat,
    since_share_secs: u64,
    since_adjust_secs: u64,
)
    requires
        target < pow(2, 256),
    ensures
        ({
            let a = adjustment_due(target, since_share_secs, since_adjust_secs);
            let idle = since_share_secs >= 30 && since_adjust_secs >= 15;
            let fixed = target == 0 || target == pow(2, 256) - 1;
            &&& a is Keep <==> !idle
            &&& a is Rest <==> idle && fixed
            &&& a is Push <==> idle && !fixed
            &&& a is Push ==> a->Push_0 == vstd::math::min(2 * target as int, pow(2, 256) - 1)
        }),
{
    law_the_largest_target_has_256_bits();
}

/// The shares of a session are worth what its target is worth against the base
/// target: that many units of the last of 64 fraction bits.
pub proof fn law_a_fair_session_earns_by_its_target(s: MinerSession, base: Seq<u8>)
    requires
        s.is_fair(base),
    ensures
        1 <= s.work_units,
        s.work_units > 1 ==> s.work_units * be_value(s.target@) <= be_value(base) * pow(2, 64),
        be_value(s.target@) > 0 && s.work_units < u128::MAX ==> be_value(base) * pow(2, 64) < (
        s.work_units + 1) * be_value(s.target@),
        s.target@ == base && be_value(base) > 0 ==> s.work_units == pow(2, 64),
{
    law_work_is_how_often_a_target_fits(be_value(base), be_value(s.target@));
    if s.target@ == base && be_value(base) > 0 {
        law_base_share_is_one_unit(be_value(base));
        law_powers(2, 64);
    }
}

} // verus!
