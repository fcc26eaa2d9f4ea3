//! The gas cost model of the bridge.
//!
//! A bridging call is metered in the host's compute units and charged in the
//! virtual machine's gas. Its price is affine in the length of its input:
//! `base + per_byte * length`. The two constants are configuration. They are
//! found once, by measuring the host cost at two input lengths, drawing the
//! line through the two points, and dividing by the number of host units that
//! one unit of machine gas buys.

use vstd::prelude::*;

verus! {

/// Machine gas charged for any bridging call, whatever its input.
pub const CROSS_CONTRACT_CALL_BASE: u64 = 343_650;

/// Machine gas charged for each byte of input of a bridging call.
pub const CROSS_CONTRACT_CALL_BYTE: u64 = 4_550;

/// Host compute units that one unit of machine gas stands for.
pub const CROSS_CONTRACT_CALL_NEAR_GAS: u64 = 175_000_000;

/// The most host compute units that a router may spend to execute a promise.
pub const ROUTER_EXEC: u64 = 7_000_000_000_000;

/// The most host compute units that a router may spend to schedule a promise.
pub const ROUTER_SCHEDULE: u64 = 5_000_000_000_000;

/// The two constants of an affine price.
#[derive(Clone, Copy, Debug, PartialEq, Eq, Structural)]
pub struct CostModel {
    /// The price of an empty input.
    pub base: u64,
    /// The price of each byte of input.
    pub per_byte: u64,
}

impl CostModel {
    /// The price of an input of `len` bytes.
    pub open spec fn price(self, len: nat) -> nat {
        self.base as nat + self.per_byte as nat * len
    }

    /// The cost model that the bridge is configured with.
    pub fn configured() -> (model: CostModel)
        ensures
            model == (CostModel {
                base: CROSS_CONTRACT_CALL_BASE,
                per_byte: CROSS_CONTRACT_CALL_BYTE,
            }),
    {
        CostModel { base: CROSS_CONTRACT_CALL_BASE, per_byte: CROSS_CONTRACT_CALL_BYTE }
    }

    /// The price of an input of `input_len` bytes.
    pub fn cost(&self, input_len: usize) -> (gas: u128)
        ensures
            gas == self.price(input_len as nat),
    {
        let per_byte: u128 = self.per_byte as u128;
        let len: u128 = input_len as u128;
        assert(per_byte * len <= 0xffff_ffff_ffff_ffff * 0xffff_ffff_ffff_ffff) by (nonlinear_arith)
            requires
                per_byte <= 0xffff_ffff_ffff_ffff,
                len <= 0xffff_ffff_ffff_ffff,
        ;
        self.base as u128 + per_byte * len
    }

    /// Whether both constants of this model lie within `percent` percent of
    /// those of `other`.
    pub fn matches_within(&self, other: &CostModel, percent: u64) -> (close: bool)
        ensures
            close == (within_percent(percent as nat, self.base as nat, other.base as nat)
                && within_percent(percent as nat, self.per_byte as nat, other.per_byte as nat)),
    {
        within_x_percent(percent, self.base, other.base) && within_x_percent(
            percent,
            self.per_byte,
            other.per_byte,
        )
    }
}

/// Whether `a` and `b` differ by at most `x` percent of the greater of them.
pub open spec fn within_percent(x: nat, a: nat, b: nat) -> bool {
    if a >= b {
        100 * (a - b) <= x * a
    } else {
        100 * (b - a) <= x * b
    }
}

/// Decides whether `a` and `b` differ by at most `x` percent of the greater
/// of them.
pub fn within_x_percent(x: u64, a: u64, b: u64) -> (close: bool)
    ensures
        close == within_percent(x as nat, a as nat, b as nat),
{
    let greater: u128 = if a >= b {
        a as u128
    } else {
        b as u128
    };
    let smaller: u128 = if a >= b {
        b as u128
    } else {
        a as u128
    };
    let bound: u128 = x as u128;
    assert(bound * greater <= 0xffff_ffff_ffff_ffff * 0xffff_ffff_ffff_ffff) by (nonlinear_arith)
        requires
            bound <= 0xffff_ffff_ffff_ffff,
            greater <= 0xffff_ffff_ffff_ffff,
    ;
    100 * (greater - smaller) <= bound * greater
}

/// The cost model that two measurements determine. A measurement is an input
/// length and the host cost found at that length; `ratio` is the number of
/// host units per unit of machine gas. The slope of the line through the two
/// points, rounded down, is the host cost per byte; what is left of the first
/// cost once its bytes are paid for is the host base cost; each is divided by
/// `ratio`, rounding down. There is no such model if the lengths do not
/// increase, if the cost decreases, if the line starts below zero, or if
/// `ratio` is zero.
pub open spec fn calibration(l1: nat, y1: nat, l2: nat, y2: nat, ratio: nat) -> Option<
    (nat, nat),
> {
    if l1 < l2 && y1 <= y2 && ratio > 0 {
        let slope = (y2 - y1) / (l2 - l1);
        if slope * l1 <= y1 {
            Some((((y1 - slope * l1) / ratio as int) as nat, (slope / ratio as int) as nat))
        } else {
            None
        }
    } else {
        None
    }
}

/// Derives a cost model from two measurements, as [`calibration`] says.
pub fn calibrate(l1: u64, y1: u64, l2: u64, y2: u64, ratio: u64) -> (model: Option<CostModel>)
    ensures
        match model {
            Some(m) => calibration(l1 as nat, y1 as nat, l2 as nat, y2 as nat, ratio as nat)
                == Some((m.base as nat, m.per_byte as nat)),
            None => calibration(l1 as nat, y1 as nat, l2 as nat, y2 as nat, ratio as nat) is None,
        },
{
    if !(l1 < l2 && y1 <= y2 && ratio > 0) {
        return None;
    }
    let slope: u64 = (y2 - y1) / (l2 - l1);
    let slope_wide: u128 = slope as u128;
    let l1_wide: u128 = l1 as u128;
    assert(slope_wide * l1_wide <= 0xffff_ffff_ffff_ffff * 0xffff_ffff_ffff_ffff)
        by (nonlinear_arith)
        requires
            slope_wide <= 0xffff_ffff_ffff_ffff,
            l1_wide <= 0xffff_ffff_ffff_ffff,
    ;
    let paid: u128 = slope_wide * l1_wide;
    if paid > y1 as u128 {
        return None;
    }
    let base_host: u64 = y1 - (paid as u64);
    Some(CostModel { base: base_host / ratio, per_byte: slope / ratio })
}

/// Calibration finds the constants behind exact measurements: if both host
/// costs lie on the line of a cost model, scaled by `ratio`, then the
/// measurements determine that very model.
pub proof fn lemma_calibration_of_exact_samples(model: CostModel, l1: nat, l2: nat, ratio: nat)
    requires
        l1 < l2,
        ratio > 0,
    ensures
        calibration(l1, ratio * model.price(l1), l2, ratio * model.price(l2), ratio) == Some(
            (model.base as nat, model.per_byte as nat),
        ),
{
    let base = model.base as nat;
    let per_byte = model.per_byte as nat;
    let y1 = ratio * model.price(l1);
    let y2 = ratio * model.price(l2);
    let d = (l2 - l1) as nat;
    assert(y2 - y1 == (ratio * per_byte) * d) by (nonlinear_arith)
        requires
            y1 == ratio * (base + per_byte * l1),
            y2 == ratio * (base + per_byte * l2),
            d == l2 - l1,
    ;
    vstd::arithmetic::div_mod::lemma_div_multiples_vanish((ratio * per_byte) as int, d as int);
    assert((ratio * per_byte) * d == d * (ratio * per_byte)) by (nonlinear_arith);
    let slope = (y2 - y1) / (d as int);
    assert(slope == ratio * per_byte);
    assert(y1 - slope * l1 == ratio * base) by (nonlinear_arith)
        requires
            y1 == ratio * (base + per_byte * l1),
            slope == ratio * per_byte,
    ;
    vstd::arithmetic::div_mod::lemma_div_multiples_vanish(base as int, ratio as int);
    vstd::arithmetic::div_mod::lemma_div_multiples_vanish(per_byte as int, ratio as int);
    assert(ratio * base == ratio as int * base as int);
    assert(ratio * per_byte == ratio as int * per_byte as int);
}

/// Calibration on exact measurements meets every tolerance: the constants
/// that it finds lie within `percent` percent of those of the model that the
/// measurements came from, whatever `percent` is.
pub proof fn lemma_calibration_within_tolerance(
    model: CostModel,
    l1: nat,
    l2: nat,
    ratio: nat,
    percent: nat,
)
    requires
        l1 < l2,
        ratio > 0,
    ensures
        calibration(l1, ratio * model.price(l1), l2, ratio * model.price(l2), ratio) matches Some(
            found,
        ) && within_percent(percent, found.0, model.base as nat) && within_percent(
            percent,
            found.1,
            model.per_byte as nat,
        ),
{
    lemma_calibration_of_exact_samples(model, l1, l2, ratio);
    assert(0 <= percent * model.base) by (nonlinear_arith);
    assert(0 <= percent * model.per_byte) by (nonlinear_arith);
}

} // verus!
