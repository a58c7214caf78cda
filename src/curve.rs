//! The exponential bonding curve, evaluated in deterministic fixed point.
//!
//! With `k = slope / 1e6` and `P0 = initial_price / 1e9`, the price at supply
//! `n` is `P0 * e^(k n)` and the reserve that moves the supply from `a` to `b`
//! is the integral `(P0 / k) * (e^(k b) - e^(k a))`.
//!
//! The factor `e^(k n)` is kept at a scale of 1e9 and built one token at a
//! time, as `e^(k n) = (e^k)^n`: it starts at 1, and each token multiplies it
//! by `1 + q`, where `q = e^k - 1` comes from a Taylor series cut after a fixed
//! number of terms. Because a step's increase grows with the factor itself,
//! the cost of one more token never falls as the supply grows.
//!
//! The curve has two sides, so that rounding always favours the reserve.
//! Burns use `q` as the series gives it and round every step and the payout
//! down. Mints raise `q` by a small margin, to cover what the series leaves
//! out, and round every step and the cost up. The burn side never rises faster
//! than the mint side, so burning what a deposit bought never pays more than
//! the deposit. The result is the same on every platform.
use vstd::prelude::*;
use vstd::arithmetic::div_mod::{lemma_div_denominator, lemma_div_is_ordered, lemma_div_multiples_vanish};
use vstd::arithmetic::mul::{lemma_mul_inequality, lemma_mul_is_commutative};
use crate::errors::ErrorCode;
use crate::state::BondingCurve;

verus! {

/// Fixed-point scale of the exponential factor: `FIXED_ONE` stands for 1.
pub const FIXED_ONE: u128 = 1_000_000_000;

/// Scale of `slope`: a slope of `SLOPE_SCALE` is a growth rate of 1 per token.
pub const SLOPE_SCALE: u128 = 1_000_000;

/// `FIXED_ONE / SLOPE_SCALE`.
pub const FIXED_PER_SLOPE: u128 = 1_000;

/// Number of Taylor terms summed.
pub const EXP_TERMS: u128 = 96;

/// The mint rate adds one part in `MINT_RATE_DIVISOR` of the growth per
/// token, plus `MINT_RATE_MARGIN` units, to cover what the series and its
/// roundings leave out.
pub const MINT_RATE_DIVISOR: u128 = 16_384;

/// See `MINT_RATE_DIVISOR`.
pub const MINT_RATE_MARGIN: u128 = 1;

/// Largest exponential factor the curve evaluates (2^63 at scale `FIXED_ONE`,
/// about e^22.9); beyond it an operation fails with an overflow.
pub const EXP_LIMIT: u128 = 0x8000_0000_0000_0000;

/// The `i`-th Taylor term of `e^(x / SLOPE_SCALE)` at scale `FIXED_ONE`, each
/// step floored.
pub open spec fn exp_term(x: nat, i: nat) -> nat
    decreases i,
{
    if i == 0 {
        FIXED_ONE as nat
    } else {
        exp_term(x, (i - 1) as nat) * x / (SLOPE_SCALE * i) as nat
    }
}

/// The sum of the first `i` Taylor terms.
pub open spec fn exp_partial(x: nat, i: nat) -> nat
    decreases i,
{
    if i == 0 {
        0
    } else {
        exp_partial(x, (i - 1) as nat) + exp_term(x, (i - 1) as nat)
    }
}

/// The fixed-point value of `e^(x / SLOPE_SCALE)`, scaled by `FIXED_ONE`.
pub open spec fn exp_fixed_spec(x: nat) -> nat {
    exp_partial(x, EXP_TERMS as nat)
}

/// Whether the exponential factor at exponent `x` can be evaluated.
pub open spec fn exp_in_domain(x: nat) -> bool {
    x < 0x1_0000_0000_0000_0000 && exp_fixed_spec(x) <= EXP_LIMIT
}

/// Curve parameters that define a curve: both strictly positive.
pub open spec fn curve_valid(curve: BondingCurve) -> bool {
    curve.slope > 0 && curve.initial_price > 0
}

/// The growth per token, `e^k - 1` at scale `FIXED_ONE`, floored.
pub open spec fn step_rate(curve: BondingCurve) -> nat {
    (exp_fixed_spec(curve.slope as nat) - FIXED_ONE) as nat
}

/// One token's step of the exponential factor `g` at growth `rate`, floored.
pub open spec fn growth_step(g: nat, rate: nat) -> nat {
    g + g * rate / (FIXED_ONE as nat)
}

/// `e^(k n)` at scale `FIXED_ONE`: `n` steps from 1.
pub open spec fn growth_at(curve: BondingCurve, n: nat) -> nat
    decreases n,
{
    if n == 0 {
        FIXED_ONE as nat
    } else {
        growth_step(growth_at(curve, (n - 1) as nat), step_rate(curve))
    }
}

/// Whether the curve can be evaluated at supply `n`.
pub open spec fn supply_in_domain(curve: BondingCurve, n: nat) -> bool {
    growth_at(curve, n) <= EXP_LIMIT
}

/// The reserve, floored, for a rise of `delta` (at scale `FIXED_ONE`) of the
/// exponential factor: `initial_price * delta / k`, in reserve units.
pub open spec fn reserve_for_growth(curve: BondingCurve, delta: int) -> int {
    (curve.initial_price * delta * SLOPE_SCALE) / (curve.slope * FIXED_ONE)
}

/// The reserve, floored, that the curve integral assigns to moving the supply
/// from `lo` to `hi`: `initial_price * (e^(k hi) - e^(k lo)) / k`, in reserve
/// units.
pub open spec fn reserve_between(curve: BondingCurve, lo: nat, hi: nat) -> int {
    reserve_for_growth(curve, growth_at(curve, hi) - growth_at(curve, lo))
}

/// The growth per token on the mint side: `step_rate` raised by its margin,
/// so that it is not below `e^k - 1`.
pub open spec fn mint_rate(curve: BondingCurve) -> nat {
    (step_rate(curve) + step_rate(curve) / (MINT_RATE_DIVISOR as nat) + MINT_RATE_MARGIN) as nat
}

/// One token's step of the factor `g` at growth `rate`, rounded up.
pub open spec fn growth_step_up(g: nat, rate: nat) -> nat {
    g + (g * rate + (FIXED_ONE - 1) as nat) / (FIXED_ONE as nat)
}

/// `e^(k n)` at scale `FIXED_ONE` on the mint side: `n` steps from 1 at the
/// mint rate, each rounded up, so that minting never charges below the curve.
pub open spec fn mint_growth_at(curve: BondingCurve, n: nat) -> nat
    decreases n,
{
    if n == 0 {
        FIXED_ONE as nat
    } else {
        growth_step_up(mint_growth_at(curve, (n - 1) as nat), mint_rate(curve))
    }
}

/// Whether the mint side of the curve can be evaluated at supply `n`.
pub open spec fn mint_supply_in_domain(curve: BondingCurve, n: nat) -> bool {
    mint_growth_at(curve, n) <= EXP_LIMIT
}

/// The reserve for a rise of `delta` of the exponential factor, rounded up:
/// `initial_price * delta / k`, in reserve units.
pub open spec fn reserve_for_growth_up(curve: BondingCurve, delta: int) -> int {
    (curve.initial_price * delta + (curve.slope * FIXED_PER_SLOPE - 1)) / (curve.slope
        * FIXED_PER_SLOPE)
}

/// What minting moves the supply from `lo` to `hi` costs: the curve integral
/// on the mint side, rounded up.
pub open spec fn mint_cost(curve: BondingCurve, lo: nat, hi: nat) -> int {
    reserve_for_growth_up(curve, mint_growth_at(curve, hi) - mint_growth_at(curve, lo))
}

/// Whether a mint of `d` tokens at supply `s` is covered by a deposit of
/// `amount`: the new supply is on the curve and its cost is at most `amount`.
pub open spec fn deposit_covers(curve: BondingCurve, s: nat, amount: nat, d: nat) -> bool {
    &&& mint_supply_in_domain(curve, s + d)
    &&& mint_cost(curve, s, s + d) <= amount
}

/// Whether the deposit `amount` at supply `s` buys exactly `d` tokens: the
/// mints it covers are those of at most `d` tokens.
pub open spec fn buys_exactly(curve: BondingCurve, s: nat, amount: nat, d: nat) -> bool {
    forall|e: nat| deposit_covers(curve, s, amount, e) <==> e <= d
}

/// The outcome of depositing `amount` at supply `s`: nothing for nothing;
/// otherwise the largest number of tokens whose curve integral the deposit
/// covers, or an overflow when that number lies past the end of the curve.
pub open spec fn mint_quote(curve: BondingCurve, s: nat, amount: nat) -> Result<u64, ErrorCode> {
    if !curve_valid(curve) {
        Err(ErrorCode::InvalidBondingCurveParameters)
    } else if amount == 0 {
        Ok(0)
    } else if !mint_supply_in_domain(curve, s) || exists|e: nat|
        deposit_covers(curve, s, amount, e) && !mint_supply_in_domain(curve, s + e + 1) {
        Err(ErrorCode::ArithmeticOverflow)
    } else {
        Ok(choose|d: u64| buys_exactly(curve, s, amount, d as nat))
    }
}

/// The outcome of redeeming `amount_tokens` at supply `s`.
pub open spec fn withdrawal_outcome(curve: BondingCurve, s: nat, amount_tokens: nat) -> Result<
    u64,
    ErrorCode,
> {
    if curve.slope == 0 || amount_tokens > s {
        Err(ErrorCode::InvalidBondingCurveParameters)
    } else if amount_tokens == 0 {
        Ok(0)
    } else if !supply_in_domain(curve, s) || !supply_in_domain(curve, (s - amount_tokens) as nat) {
        Err(ErrorCode::ArithmeticOverflow)
    } else if growth_at(curve, s) < growth_at(curve, (s - amount_tokens) as nat) {
        Err(ErrorCode::ArithmeticUnderflow)
    } else if reserve_between(curve, (s - amount_tokens) as nat, s) > u64::MAX {
        Err(ErrorCode::ArithmeticOverflow)
    } else {
        Ok(reserve_between(curve, (s - amount_tokens) as nat, s) as u64)
    }
}

/// Adding terms never lowers the partial sum.
pub proof fn lemma_exp_partial_grows(x: nat, i: nat, j: nat)
    requires
        i <= j,
    ensures
        exp_partial(x, i) <= exp_partial(x, j),
    decreases j - i,
{
    if i < j {
        lemma_exp_partial_grows(x, i, (j - 1) as nat);
    }
}

/// The first-order term is exact: `x / SLOPE_SCALE` at scale `FIXED_ONE`.
proof fn lemma_first_term(x: nat)
    ensures
        exp_term(x, 1) == x * 1000,
{
    assert(exp_term(x, 0) == FIXED_ONE);
    assert(exp_term(x, 1) == exp_term(x, 0) * x / (SLOPE_SCALE * 1) as nat);
    assert(FIXED_ONE * x == SLOPE_SCALE * (x * 1000)) by (nonlinear_arith);
    lemma_div_multiples_vanish((x * 1000) as int, SLOPE_SCALE as int);
}

/// The series is at least its first two terms, `1 + x / SLOPE_SCALE`.
proof fn lemma_exp_fixed_at_least(x: nat)
    ensures
        exp_fixed_spec(x) >= FIXED_ONE + 1000 * x,
{
    lemma_first_term(x);
    assert(exp_partial(x, 1) == exp_partial(x, 0) + exp_term(x, 0));
    assert(exp_partial(x, 2) == exp_partial(x, 1) + exp_term(x, 1));
    lemma_exp_partial_grows(x, 2, EXP_TERMS as nat);
}

/// The growth per token is at least the first-order `k`.
pub proof fn lemma_step_rate_at_least(curve: BondingCurve)
    ensures
        step_rate(curve) >= 1000 * curve.slope,
{
    lemma_exp_fixed_at_least(curve.slope as nat);
}

/// A step raises a factor of at least 1 by at least the rate.
proof fn lemma_step_at_least(g: nat, rate: nat)
    requires
        g >= FIXED_ONE,
    ensures
        growth_step(g, rate) >= g + rate,
{
    assert(g * rate >= FIXED_ONE * rate) by (nonlinear_arith)
        requires g >= FIXED_ONE;
    lemma_div_is_ordered((FIXED_ONE * rate) as int, (g * rate) as int, FIXED_ONE as int);
    lemma_div_multiples_vanish(rate as int, FIXED_ONE as int);
}

/// A larger factor takes a step at least as large.
proof fn lemma_step_increment_monotone(g1: nat, g2: nat, rate: nat)
    requires
        g1 <= g2,
    ensures
        g1 * rate / (FIXED_ONE as nat) <= g2 * rate / (FIXED_ONE as nat),
{
    assert(g1 * rate <= g2 * rate) by (nonlinear_arith)
        requires g1 <= g2;
    lemma_div_is_ordered((g1 * rate) as int, (g2 * rate) as int, FIXED_ONE as int);
}

/// The factor is never below 1.
pub proof fn lemma_growth_at_least_one(curve: BondingCurve, n: nat)
    ensures
        growth_at(curve, n) >= FIXED_ONE,
    decreases n,
{
    if n > 0 {
        lemma_growth_at_least_one(curve, (n - 1) as nat);
    }
}

/// The factor grows by at least `1000 * slope` per token (the first-order
/// `k` at scale `FIXED_ONE`); so a supply below one on the curve is on the
/// curve too.
pub proof fn lemma_growth_monotone(curve: BondingCurve, n1: nat, n2: nat)
    requires
        n1 <= n2,
    ensures
        growth_at(curve, n2) - growth_at(curve, n1) >= 1000 * curve.slope * (n2 - n1),
        growth_at(curve, n1) <= growth_at(curve, n2),
        supply_in_domain(curve, n2) ==> supply_in_domain(curve, n1),
    decreases n2 - n1,
{
    if n1 < n2 {
        let m = (n2 - 1) as nat;
        let k = 1000 * curve.slope;
        lemma_growth_monotone(curve, n1, m);
        lemma_growth_at_least_one(curve, m);
        lemma_step_at_least(growth_at(curve, m), step_rate(curve));
        lemma_step_rate_at_least(curve);
        assert(growth_at(curve, n2) == growth_step(growth_at(curve, m), step_rate(curve)));
        assert(growth_at(curve, n2) >= growth_at(curve, m) + k);
        assert(growth_at(curve, m) - growth_at(curve, n1) >= k * (m - n1));
        assert(k * (n2 - n1) == k * (m - n1) + k) by (nonlinear_arith)
            requires m + 1 == n2;
    } else {
        assert(1000 * curve.slope * (n2 - n1) == 0) by (nonlinear_arith)
            requires n1 == n2;
    }
}

/// Where the rate is zero the factor stays at 1.
proof fn lemma_growth_flat(curve: BondingCurve, n: nat)
    requires
        step_rate(curve) == 0,
    ensures
        growth_at(curve, n) == FIXED_ONE,
    decreases n,
{
    if n > 0 {
        lemma_growth_flat(curve, (n - 1) as nat);
        assert(FIXED_ONE * 0 == 0) by (nonlinear_arith);
    }
}

/// The factor's rise over `d` tokens never falls as the starting supply grows.
pub proof fn lemma_growth_rise_monotone(curve: BondingCurve, s1: nat, s2: nat, d: nat)
    requires
        s1 <= s2,
    ensures
        growth_at(curve, s1 + d) - growth_at(curve, s1) <= growth_at(curve, s2 + d) - growth_at(
            curve,
            s2,
        ),
    decreases d,
{
    if d > 0 {
        let e = (d - 1) as nat;
        lemma_growth_rise_monotone(curve, s1, s2, e);
        lemma_growth_monotone(curve, s1 + e, s2 + e);
        lemma_step_increment_monotone(
            growth_at(curve, s1 + e),
            growth_at(curve, s2 + e),
            step_rate(curve),
        );
        assert(growth_at(curve, s1 + d) == growth_step(growth_at(curve, s1 + e), step_rate(curve)));
        assert(growth_at(curve, s2 + d) == growth_step(growth_at(curve, s2 + e), step_rate(curve)));
    }
}

/// A larger rise of the exponential factor costs no less.
pub proof fn lemma_reserve_for_growth_monotone(curve: BondingCurve, d1: int, d2: int)
    requires
        curve.slope > 0,
        d1 <= d2,
    ensures
        reserve_for_growth(curve, d1) <= reserve_for_growth(curve, d2),
{
    let p = curve.initial_price as int;
    assert(p * d1 * SLOPE_SCALE <= p * d2 * SLOPE_SCALE) by (nonlinear_arith)
        requires d1 <= d2, p >= 0;
    assert(curve.slope * FIXED_ONE > 0) by (nonlinear_arith)
        requires curve.slope > 0;
    lemma_div_is_ordered(p * d1 * SLOPE_SCALE, p * d2 * SLOPE_SCALE, curve.slope * FIXED_ONE);
}

/// The floored reserve is the integral divided once: `initial_price * delta`
/// over `slope * FIXED_PER_SLOPE`.
pub proof fn lemma_reserve_for_growth_scaled(curve: BondingCurve, delta: int)
    requires
        curve.slope > 0,
        delta >= 0,
    ensures
        reserve_for_growth(curve, delta) == (curve.initial_price * delta) / (curve.slope
            * FIXED_PER_SLOPE),
{
    let a = curve.initial_price * delta;
    let den = curve.slope * FIXED_PER_SLOPE;
    assert(a >= 0) by (nonlinear_arith)
        requires a == curve.initial_price * delta, delta >= 0, curve.initial_price >= 0;
    assert(den > 0) by (nonlinear_arith)
        requires den == curve.slope * FIXED_PER_SLOPE, curve.slope > 0;
    assert(curve.initial_price * delta * SLOPE_SCALE == SLOPE_SCALE * a) by (nonlinear_arith)
        requires a == curve.initial_price * delta;
    assert(curve.slope * FIXED_ONE == SLOPE_SCALE * den) by (nonlinear_arith)
        requires den == curve.slope * FIXED_PER_SLOPE;
    lemma_div_denominator(SLOPE_SCALE * a, SLOPE_SCALE as int, den);
    lemma_div_multiples_vanish(a, SLOPE_SCALE as int);
}

/// Rounding up never gives less, and a larger rise costs no less.
pub proof fn lemma_reserve_below_up(curve: BondingCurve, d1: int, d2: int)
    requires
        curve.slope > 0,
        0 <= d1 <= d2,
    ensures
        reserve_for_growth(curve, d1) <= reserve_for_growth_up(curve, d2),
        reserve_for_growth_up(curve, d1) <= reserve_for_growth_up(curve, d2),
{
    lemma_reserve_for_growth_scaled(curve, d1);
    let p = curve.initial_price as int;
    let den = curve.slope * FIXED_PER_SLOPE;
    assert(den > 0) by (nonlinear_arith)
        requires den == curve.slope * FIXED_PER_SLOPE, curve.slope > 0;
    assert(p * d1 <= p * d2) by (nonlinear_arith)
        requires d1 <= d2, p >= 0;
    assert(p * d1 >= 0) by (nonlinear_arith)
        requires d1 >= 0, p >= 0;
    lemma_div_is_ordered(p * d1, p * d2 + (den - 1), den);
    lemma_div_is_ordered(p * d1 + (den - 1), p * d2 + (den - 1), den);
}

/// Moving nowhere costs nothing on the mint side.
pub proof fn lemma_reserve_up_zero(curve: BondingCurve)
    requires
        curve.slope > 0,
    ensures
        reserve_for_growth_up(curve, 0) == 0,
{
    assert(curve.initial_price * 0 == 0) by (nonlinear_arith);
    assert(curve.slope * FIXED_PER_SLOPE >= 1) by (nonlinear_arith)
        requires curve.slope >= 1;
    vstd::arithmetic::div_mod::lemma_basic_div(
        (curve.slope * FIXED_PER_SLOPE - 1) as int,
        (curve.slope * FIXED_PER_SLOPE) as int,
    );
}

/// The mint rate is at least the burn rate.
proof fn lemma_mint_rate_at_least(curve: BondingCurve)
    ensures
        mint_rate(curve) >= step_rate(curve) + MINT_RATE_MARGIN,
{
}

/// A rounded-up step raises a factor of at least 1 by at least the rate, and
/// is no smaller than a floored step from a smaller factor at a smaller rate.
proof fn lemma_step_up_bounds(g1: nat, r1: nat, g2: nat, r2: nat)
    requires
        FIXED_ONE <= g1 <= g2,
        r1 <= r2,
    ensures
        growth_step_up(g2, r2) >= g2 + r2,
        g1 * r1 / (FIXED_ONE as nat) <= (g2 * r2 + (FIXED_ONE - 1) as nat) / (FIXED_ONE as nat),
        (g1 * r1 + (FIXED_ONE - 1) as nat) / (FIXED_ONE as nat) <= (g2 * r2 + (FIXED_ONE - 1) as nat) / (
        FIXED_ONE as nat),
{
    lemma_step_at_least(g2, r2);
    assert(g1 * r1 <= g2 * r2) by (nonlinear_arith)
        requires g1 <= g2, r1 <= r2;
    lemma_div_is_ordered((g2 * r2) as int, (g2 * r2 + (FIXED_ONE - 1)) as int, FIXED_ONE as int);
    lemma_div_is_ordered((g1 * r1) as int, (g2 * r2 + (FIXED_ONE - 1)) as int, FIXED_ONE as int);
    lemma_div_is_ordered(
        (g1 * r1 + (FIXED_ONE - 1)) as int,
        (g2 * r2 + (FIXED_ONE - 1)) as int,
        FIXED_ONE as int,
    );
}

/// The mint-side factor is never below 1.
proof fn lemma_mint_growth_at_least_one(curve: BondingCurve, n: nat)
    ensures
        mint_growth_at(curve, n) >= FIXED_ONE,
    decreases n,
{
    if n > 0 {
        lemma_mint_growth_at_least_one(curve, (n - 1) as nat);
    }
}

/// The mint-side factor grows by at least `1000 * slope` per token.
pub proof fn lemma_mint_growth_monotone(curve: BondingCurve, n1: nat, n2: nat)
    requires
        n1 <= n2,
    ensures
        mint_growth_at(curve, n2) - mint_growth_at(curve, n1) >= 1000 * curve.slope * (n2 - n1),
        mint_growth_at(curve, n1) <= mint_growth_at(curve, n2),
        mint_supply_in_domain(curve, n2) ==> mint_supply_in_domain(curve, n1),
    decreases n2 - n1,
{
    if n1 < n2 {
        let m = (n2 - 1) as nat;
        let k = 1000 * curve.slope;
        lemma_mint_growth_monotone(curve, n1, m);
        lemma_mint_growth_at_least_one(curve, m);
        lemma_step_up_bounds(
            mint_growth_at(curve, m),
            mint_rate(curve),
            mint_growth_at(curve, m),
            mint_rate(curve),
        );
        lemma_step_rate_at_least(curve);
        assert(mint_growth_at(curve, n2) == growth_step_up(mint_growth_at(curve, m), mint_rate(curve)));
        assert(mint_growth_at(curve, n2) >= mint_growth_at(curve, m) + k);
        assert(k * (n2 - n1) == k * (m - n1) + k) by (nonlinear_arith)
            requires m + 1 == n2;
    } else {
        assert(1000 * curve.slope * (n2 - n1) == 0) by (nonlinear_arith)
            requires n1 == n2;
    }
}

/// The mint-side rise over `d` tokens never falls as the starting supply
/// grows.
pub proof fn lemma_mint_growth_rise_monotone(curve: BondingCurve, s1: nat, s2: nat, d: nat)
    requires
        s1 <= s2,
    ensures
        mint_growth_at(curve, s1 + d) - mint_growth_at(curve, s1) <= mint_growth_at(curve, s2 + d)
            - mint_growth_at(curve, s2),
    decreases d,
{
    if d > 0 {
        let e = (d - 1) as nat;
        lemma_mint_growth_rise_monotone(curve, s1, s2, e);
        lemma_mint_growth_monotone(curve, s1 + e, s2 + e);
        lemma_mint_growth_at_least_one(curve, s1 + e);
        lemma_step_up_bounds(
            mint_growth_at(curve, s1 + e),
            mint_rate(curve),
            mint_growth_at(curve, s2 + e),
            mint_rate(curve),
        );
        assert(mint_growth_at(curve, s1 + d) == growth_step_up(
            mint_growth_at(curve, s1 + e),
            mint_rate(curve),
        ));
        assert(mint_growth_at(curve, s2 + d) == growth_step_up(
            mint_growth_at(curve, s2 + e),
            mint_rate(curve),
        ));
    }
}

/// The burn-side factor, and its rise over any stretch, never exceed the
/// mint side's.
pub proof fn lemma_growth_below_mint(curve: BondingCurve, s: nat, d: nat)
    ensures
        growth_at(curve, s) <= mint_growth_at(curve, s),
        growth_at(curve, s + d) - growth_at(curve, s) <= mint_growth_at(curve, s + d)
            - mint_growth_at(curve, s),
    decreases s + d, d,
{
    if d > 0 {
        let e = (d - 1) as nat;
        lemma_growth_below_mint(curve, s, e);
        lemma_growth_below_mint(curve, s + e, 0);
        lemma_growth_at_least_one(curve, s + e);
        lemma_mint_rate_at_least(curve);
        lemma_step_up_bounds(
            growth_at(curve, s + e),
            step_rate(curve),
            mint_growth_at(curve, s + e),
            mint_rate(curve),
        );
        assert(growth_at(curve, s + d) == growth_step(growth_at(curve, s + e), step_rate(curve)));
        assert(mint_growth_at(curve, s + d) == growth_step_up(
            mint_growth_at(curve, s + e),
            mint_rate(curve),
        ));
    } else if s > 0 {
        let m = (s - 1) as nat;
        lemma_growth_below_mint(curve, m, 0);
        lemma_growth_at_least_one(curve, m);
        lemma_mint_rate_at_least(curve);
        lemma_step_up_bounds(
            growth_at(curve, m),
            step_rate(curve),
            mint_growth_at(curve, m),
            mint_rate(curve),
        );
    }
}

/// A smaller mint is covered whenever a larger one is.
pub proof fn lemma_deposit_covers_downward(curve: BondingCurve, s: nat, amount: nat, d1: nat, d2: nat)
    requires
        curve_valid(curve),
        d1 <= d2,
        deposit_covers(curve, s, amount, d2),
    ensures
        deposit_covers(curve, s, amount, d1),
{
    lemma_mint_growth_monotone(curve, s + d1, s + d2);
    lemma_mint_growth_monotone(curve, s, s + d1);
    lemma_reserve_below_up(
        curve,
        mint_growth_at(curve, s + d1) - mint_growth_at(curve, s),
        mint_growth_at(curve, s + d2) - mint_growth_at(curve, s),
    );
}

/// Evaluates `e^(x / SLOPE_SCALE)` at scale `FIXED_ONE`, or nothing when the
/// value is past `EXP_LIMIT`.
pub fn exp_fixed(x: u128) -> (r: Option<u128>)
    ensures
        r is Some <==> exp_in_domain(x as nat),
        r matches Some(v) ==> v == exp_fixed_spec(x as nat),
{
    if x >= 0x1_0000_0000_0000_0000 {
        return None;
    }
    let mut term: u128 = FIXED_ONE;
    let mut sum: u128 = 0;
    let mut i: u128 = 0;
    while i < EXP_TERMS
        invariant
            x < 0x1_0000_0000_0000_0000,
            i <= EXP_TERMS,
            term == exp_term(x as nat, i as nat),
            term < 0x8000_0000_0000_0000_0000_0000_0000_0000,
            sum == exp_partial(x as nat, i as nat),
            sum <= EXP_LIMIT,
        decreases EXP_TERMS - i,
    {
        let next_sum = sum + term;
        if next_sum > EXP_LIMIT {
            proof {
                lemma_exp_partial_grows(x as nat, (i + 1) as nat, EXP_TERMS as nat);
            }
            return None;
        }
        sum = next_sum;
        proof {
            lemma_mul_inequality(term as int, EXP_LIMIT as int, x as int);
            lemma_mul_is_commutative(EXP_LIMIT as int, x as int);
            assert(EXP_LIMIT * x < 0x8000_0000_0000_0000 * 0x1_0000_0000_0000_0000) by (nonlinear_arith)
                requires x < 0x1_0000_0000_0000_0000;
        }
        let prod: u128 = term * x;
        let den: u128 = SLOPE_SCALE * (i + 1);
        proof {
            lemma_div_is_ordered(prod as int, 0x8000_0000_0000_0000_0000_0000_0000_0000, den as int);
            assert(0x8000_0000_0000_0000_0000_0000_0000_0000int / (den as int) <= 0x8000_0000_0000_0000_0000_0000_0000_0000int / 1)
                by { vstd::arithmetic::div_mod::lemma_div_is_ordered_by_denominator(0x8000_0000_0000_0000_0000_0000_0000_0000int, 1, den as int); }
        }
        term = prod / den;
        i = i + 1;
    }
    Some(sum)
}

/// The reserve for a rise of `delta` of the exponential factor.
fn reserve_for_growth_exec(curve: &BondingCurve, delta: u128) -> (r: u128)
    requires
        curve.slope > 0,
        delta <= EXP_LIMIT,
    ensures
        r == reserve_for_growth(*curve, delta as int),
{
    let price = curve.initial_price as u128;
    let slope = curve.slope as u128;
    proof {
        assert(price * delta <= 0xffff_ffff_ffff_ffff * EXP_LIMIT) by (nonlinear_arith)
            requires price <= 0xffff_ffff_ffff_ffff, delta <= EXP_LIMIT;
        assert(slope * FIXED_PER_SLOPE <= 0xffff_ffff_ffff_ffff * 1000) by (nonlinear_arith)
            requires slope <= 0xffff_ffff_ffff_ffff;
    }
    let num: u128 = price * delta;
    let den: u128 = slope * FIXED_PER_SLOPE;
    proof {
        let a = num as int;
        assert(a * SLOPE_SCALE == SLOPE_SCALE * a) by (nonlinear_arith);
        assert(slope * FIXED_ONE == SLOPE_SCALE * (slope * FIXED_PER_SLOPE)) by (nonlinear_arith);
        lemma_div_denominator(SLOPE_SCALE * a, SLOPE_SCALE as int, den as int);
        lemma_div_multiples_vanish(a, SLOPE_SCALE as int);
    }
    num / den
}

/// The growth per token, or nothing where `e^k` is already past `EXP_LIMIT`.
fn step_rate_exec(curve: &BondingCurve) -> (r: Option<u128>)
    ensures
        r is Some <==> exp_fixed_spec(curve.slope as nat) <= EXP_LIMIT,
        r matches Some(q) ==> q == step_rate(*curve) && q <= EXP_LIMIT,
{
    match exp_fixed(curve.slope as u128) {
        Some(e) => {
            proof {
                lemma_exp_fixed_at_least(curve.slope as nat);
            }
            Some(e - FIXED_ONE)
        },
        None => None,
    }
}

/// The exponential factor at supply `n`, stepping up from supply 0.
fn growth_exec(curve: &BondingCurve, rate: Option<u128>, n: u128) -> (r: Option<u128>)
    requires
        rate is Some <==> exp_fixed_spec(curve.slope as nat) <= EXP_LIMIT,
        rate matches Some(q) ==> q == step_rate(*curve) && q <= EXP_LIMIT,
    ensures
        r is Some <==> supply_in_domain(*curve, n as nat),
        r matches Some(g) ==> g == growth_at(*curve, n as nat) && g <= EXP_LIMIT,
{
    let q = match rate {
        Some(q) => q,
        None => {
            if n == 0 {
                return Some(FIXED_ONE);
            }
            proof {
                lemma_growth_monotone(*curve, 1, n as nat);
                lemma_div_multiples_vanish(step_rate(*curve) as int, FIXED_ONE as int);
                assert(growth_at(*curve, 0) == FIXED_ONE);
                assert(growth_at(*curve, 1) == growth_step(FIXED_ONE as nat, step_rate(*curve)));
            }
            return None;
        },
    };
    if q == 0 {
        proof {
            lemma_growth_flat(*curve, n as nat);
        }
        return Some(FIXED_ONE);
    }
    let mut g: u128 = FIXED_ONE;
    let mut i: u128 = 0;
    while i < n
        invariant
            i <= n,
            q == step_rate(*curve),
            q <= EXP_LIMIT,
            g == growth_at(*curve, i as nat),
            g <= EXP_LIMIT,
        decreases n - i,
    {
        proof {
            assert(g * q <= EXP_LIMIT * EXP_LIMIT) by (nonlinear_arith)
                requires g <= EXP_LIMIT, q <= EXP_LIMIT;
            lemma_div_is_ordered((g * q) as int, (EXP_LIMIT * EXP_LIMIT) as int, FIXED_ONE as int);
        }
        let next = g + g * q / FIXED_ONE;
        assert(next == growth_at(*curve, (i + 1) as nat));
        if next > EXP_LIMIT {
            proof {
                lemma_growth_monotone(*curve, (i + 1) as nat, n as nat);
            }
            return None;
        }
        g = next;
        i = i + 1;
    }
    Some(g)
}

/// The exponential factor of the curve at supply `n`, built one token at a
/// time from supply 0 (so in time that grows with `n`).
pub fn growth_exec_at(curve: &BondingCurve, n: u64) -> (r: Option<u128>)
    ensures
        r is Some <==> supply_in_domain(*curve, n as nat),
        r matches Some(v) ==> v == growth_at(*curve, n as nat) && v <= EXP_LIMIT,
{
    let rate = step_rate_exec(curve);
    growth_exec(curve, rate, n as u128)
}

/// The reserve, floored, paid out for burning `amount_tokens` at supply
/// `current_supply`: the curve integral from `current_supply - amount_tokens`
/// to `current_supply`.
///
/// The factor is built one token at a time from supply 0, so the running time
/// grows with `current_supply`: up to about 250 thousand steps near the end
/// of the default curve, and about 23 million at `slope` 1. A burn of nothing
/// returns at once.
pub fn calculate_sol_to_return(curve: &BondingCurve, current_supply: u64, amount_tokens: u64) -> (r:
    Result<u64, ErrorCode>)
    ensures
        r == withdrawal_outcome(*curve, current_supply as nat, amount_tokens as nat),
{
    if curve.slope == 0 || current_supply < amount_tokens {
        return Err(ErrorCode::InvalidBondingCurveParameters);
    }
    if amount_tokens == 0 {
        return Ok(0);
    }
    let rate = step_rate_exec(curve);
    let start = match growth_exec(curve, rate, current_supply as u128) {
        Some(g) => g,
        None => return Err(ErrorCode::ArithmeticOverflow),
    };
    let end = match growth_exec(curve, rate, (current_supply - amount_tokens) as u128) {
        Some(g) => g,
        None => return Err(ErrorCode::ArithmeticOverflow),
    };
    if start < end {
        return Err(ErrorCode::ArithmeticUnderflow);
    }
    let gross = reserve_for_growth_exec(curve, start - end);
    if gross > u64::MAX as u128 {
        return Err(ErrorCode::ArithmeticOverflow);
    }
    Ok(gross as u64)
}

/// The growth per token on the mint side, from the burn side's.
fn mint_rate_exec(q: u128) -> (r: u128)
    requires
        q <= EXP_LIMIT,
    ensures
        r == q + q / MINT_RATE_DIVISOR + MINT_RATE_MARGIN,
        r <= 2 * EXP_LIMIT,
{
    q + q / MINT_RATE_DIVISOR + MINT_RATE_MARGIN
}

/// The mint-side factor at supply `n`, stepping up from supply 0.
fn mint_growth_exec(curve: &BondingCurve, rate: Option<u128>, n: u128) -> (r: Option<u128>)
    requires
        rate is Some <==> exp_fixed_spec(curve.slope as nat) <= EXP_LIMIT,
        rate matches Some(q) ==> q == step_rate(*curve) && q <= EXP_LIMIT,
    ensures
        r is Some <==> mint_supply_in_domain(*curve, n as nat),
        r matches Some(g) ==> g == mint_growth_at(*curve, n as nat) && g <= EXP_LIMIT,
{
    let qu = match rate {
        Some(q) => mint_rate_exec(q),
        None => {
            if n == 0 {
                return Some(FIXED_ONE);
            }
            proof {
                lemma_mint_growth_monotone(*curve, 1, n as nat);
                lemma_step_up_bounds(
                    FIXED_ONE as nat,
                    mint_rate(*curve),
                    FIXED_ONE as nat,
                    mint_rate(*curve),
                );
                assert(mint_growth_at(*curve, 0) == FIXED_ONE);
                assert(mint_growth_at(*curve, 1) == growth_step_up(
                    FIXED_ONE as nat,
                    mint_rate(*curve),
                ));
            }
            return None;
        },
    };
    let mut g: u128 = FIXED_ONE;
    let mut i: u128 = 0;
    while i < n
        invariant
            i <= n,
            qu == mint_rate(*curve),
            qu <= 2 * EXP_LIMIT,
            g == mint_growth_at(*curve, i as nat),
            g <= EXP_LIMIT,
        decreases n - i,
    {
        proof {
            assert(g * qu <= EXP_LIMIT * (2 * EXP_LIMIT)) by (nonlinear_arith)
                requires g <= EXP_LIMIT, qu <= 2 * EXP_LIMIT;
            lemma_div_is_ordered(
                (g * qu + (FIXED_ONE - 1)) as int,
                (EXP_LIMIT * (2 * EXP_LIMIT) + (FIXED_ONE - 1)) as int,
                FIXED_ONE as int,
            );
        }
        let next = g + (g * qu + (FIXED_ONE - 1)) / FIXED_ONE;
        assert(next == mint_growth_at(*curve, (i + 1) as nat));
        if next > EXP_LIMIT {
            proof {
                lemma_mint_growth_monotone(*curve, (i + 1) as nat, n as nat);
            }
            return None;
        }
        g = next;
        i = i + 1;
    }
    Some(g)
}

/// The reserve for a rise of `delta` of the exponential factor, rounded up.
fn reserve_for_growth_up_exec(curve: &BondingCurve, delta: u128) -> (r: u128)
    requires
        curve.slope > 0,
        delta <= EXP_LIMIT,
    ensures
        r == reserve_for_growth_up(*curve, delta as int),
{
    let price = curve.initial_price as u128;
    let slope = curve.slope as u128;
    proof {
        assert(price * delta <= 0xffff_ffff_ffff_ffff * EXP_LIMIT) by (nonlinear_arith)
            requires price <= 0xffff_ffff_ffff_ffff, delta <= EXP_LIMIT;
        assert(slope * FIXED_PER_SLOPE <= 0xffff_ffff_ffff_ffff * 1000) by (nonlinear_arith)
            requires slope <= 0xffff_ffff_ffff_ffff;
        assert(slope * FIXED_PER_SLOPE >= 1) by (nonlinear_arith)
            requires slope >= 1;
    }
    let den: u128 = slope * FIXED_PER_SLOPE;
    (price * delta + (den - 1)) / den
}

/// The number of tokens that a deposit of `amount_sol` buys at supply
/// `current_supply`: the largest `d` whose mint-side cost from
/// `current_supply` to `current_supply + d` is at most `amount_sol`.
///
/// The mint side's rate margin and its upward rounding mean a deposit can buy
/// one token fewer than the real closed form would give, never one more: on
/// the curve with `initial_price` 1_000_000 and `slope` 1, at supply 45, a
/// deposit of 1_001_999 buys no token although the closed form prices the
/// next one at about 1_000_045.
///
/// The factor is built one token at a time from supply 0, and the tokens are
/// then counted one at a time, so the running time grows with
/// `current_supply` plus the result: up to about 250 thousand steps near the
/// end of the default curve, and about 23 million at `slope` 1.
pub fn calculate_tokens_to_mint(curve: &BondingCurve, current_supply: u64, amount_sol: u64) -> (r:
    Result<u64, ErrorCode>)
    ensures
        r == mint_quote(*curve, current_supply as nat, amount_sol as nat),
{
    if curve.slope == 0 || curve.initial_price == 0 {
        return Err(ErrorCode::InvalidBondingCurveParameters);
    }
    if amount_sol == 0 {
        return Ok(0);
    }
    let ghost sn = current_supply as nat;
    let ghost a = amount_sol as nat;
    let rate = step_rate_exec(curve);
    let start = match mint_growth_exec(curve, rate, current_supply as u128) {
        Some(g) => g,
        None => return Err(ErrorCode::ArithmeticOverflow),
    };
    proof {
        lemma_reserve_up_zero(*curve);
        assert(deposit_covers(*curve, sn, a, 0));
    }
    let qu = match rate {
        Some(q) => mint_rate_exec(q),
        None => {
            proof {
                lemma_mint_growth_monotone(*curve, 1, sn + 1);
                lemma_step_up_bounds(
                    FIXED_ONE as nat,
                    mint_rate(*curve),
                    FIXED_ONE as nat,
                    mint_rate(*curve),
                );
                assert(mint_growth_at(*curve, 0) == FIXED_ONE);
                assert(mint_growth_at(*curve, 1) == growth_step_up(
                    FIXED_ONE as nat,
                    mint_rate(*curve),
                ));
                assert(!mint_supply_in_domain(*curve, (sn + 0 + 1) as nat));
            }
            return Err(ErrorCode::ArithmeticOverflow);
        },
    };
    proof {
        lemma_mint_growth_at_least_one(*curve, sn);
    }
    let mut d: u128 = 0;
    let mut g: u128 = start;
    loop
        invariant
            curve_valid(*curve),
            sn == current_supply,
            a == amount_sol,
            a > 0,
            qu == mint_rate(*curve),
            qu <= 2 * EXP_LIMIT,
            qu >= 1,
            start == mint_growth_at(*curve, sn),
            start >= FIXED_ONE,
            g == mint_growth_at(*curve, (sn + d) as nat),
            g >= FIXED_ONE,
            start + d <= g,
            g <= EXP_LIMIT,
            deposit_covers(*curve, sn, a, d as nat),
        decreases EXP_LIMIT - g,
    {
        proof {
            assert(g * qu <= EXP_LIMIT * (2 * EXP_LIMIT)) by (nonlinear_arith)
                requires g <= EXP_LIMIT, qu <= 2 * EXP_LIMIT;
            lemma_div_is_ordered(
                (g * qu + (FIXED_ONE - 1)) as int,
                (EXP_LIMIT * (2 * EXP_LIMIT) + (FIXED_ONE - 1)) as int,
                FIXED_ONE as int,
            );
            lemma_step_up_bounds(g as nat, qu as nat, g as nat, qu as nat);
        }
        let next = g + (g * qu + (FIXED_ONE - 1)) / FIXED_ONE;
        assert(next == mint_growth_at(*curve, (sn + d + 1) as nat));
        if next > EXP_LIMIT {
            proof {
                assert(!mint_supply_in_domain(*curve, (sn + d + 1) as nat));
            }
            return Err(ErrorCode::ArithmeticOverflow);
        }
        let cost = reserve_for_growth_up_exec(curve, next - start);
        if cost > amount_sol as u128 {
            proof {
                assert(!deposit_covers(*curve, sn, a, (d + 1) as nat));
                assert forall|e: nat| deposit_covers(*curve, sn, a, e) <==> e <= d by {
                    if e <= d {
                        lemma_deposit_covers_downward(*curve, sn, a, e, d as nat);
                    } else if deposit_covers(*curve, sn, a, e) {
                        lemma_deposit_covers_downward(*curve, sn, a, (d + 1) as nat, e);
                    }
                }
                assert forall|e: nat| deposit_covers(*curve, sn, a, e) implies mint_supply_in_domain(
                    *curve,
                    sn + e + 1,
                ) by {
                    lemma_mint_growth_monotone(*curve, sn + e + 1, (sn + d + 1) as nat);
                }
                assert(buys_exactly(*curve, sn, a, (d as u64) as nat));
                let c = choose|m: u64| buys_exactly(*curve, sn, a, m as nat);
                assert(deposit_covers(*curve, sn, a, c as nat) <==> c <= d);
                assert(deposit_covers(*curve, sn, a, d as nat) <==> d <= c);
            }
            return Ok(d as u64);
        }
        g = next;
        d = d + 1;
    }
}

} // verus!
