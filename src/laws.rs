//! Properties of the engine that span several calls or all states, proved over
//! the same spec functions that the operations' contracts use.
use vstd::prelude::*;
use vstd::arithmetic::div_mod::{lemma_div_is_ordered, lemma_div_plus_one};
use crate::curve::{
    buys_exactly, curve_valid, deposit_covers, growth_at, lemma_deposit_covers_downward,
    lemma_growth_below_mint, lemma_growth_monotone, lemma_growth_rise_monotone,
    lemma_mint_growth_monotone, lemma_mint_growth_rise_monotone, lemma_reserve_below_up,
    lemma_reserve_for_growth_monotone, lemma_reserve_up_zero, mint_cost, mint_growth_at,
    mint_quote, reserve_between, supply_in_domain, withdrawal_outcome, EXP_LIMIT, FIXED_ONE,
    SLOPE_SCALE,
};
use crate::errors::ErrorCode;
use crate::instructions::{burn_outcome, fee_of, mint_outcome, trade_accounts_error};
use crate::state::{price_at, BondingCurve, Identity, LiquidityPool, TokenInfo, UserPortfolio};

verus! {

/// The sum of the balances of `holders`.
pub open spec fn holdings_total(holders: Seq<UserPortfolio>) -> int
    decreases holders.len(),
{
    if holders.len() == 0 {
        0
    } else {
        holdings_total(holders.drop_last()) + holders.last().balance
    }
}

/// Replacing one holding changes the total by the difference.
proof fn lemma_holdings_update(holders: Seq<UserPortfolio>, i: int, p: UserPortfolio)
    requires
        0 <= i < holders.len(),
    ensures
        holdings_total(holders.update(i, p)) == holdings_total(holders) - holders[i].balance
            + p.balance,
    decreases holders.len(),
{
    let updated = holders.update(i, p);
    if i == holders.len() - 1 {
        assert(updated.drop_last() =~= holders.drop_last());
    } else {
        lemma_holdings_update(holders.drop_last(), i, p);
        assert(updated.drop_last() =~= holders.drop_last().update(i, p));
    }
}

/// Supply consistency under a mint: when the supply equals the sum of all
/// holdings and holding `i` mints, the new supply equals the sum of the new
/// holdings.
pub proof fn law_mint_keeps_supply_consistent(
    info: TokenInfo,
    curve: BondingCurve,
    pool: LiquidityPool,
    holders: Seq<UserPortfolio>,
    i: int,
    mint: Identity,
    user: Identity,
    amount: u64,
    tokens: u64,
)
    requires
        0 <= i < holders.len(),
        info.total_supply == holdings_total(holders),
        mint_outcome(info, curve, pool, holders[i], mint, user, amount) == Ok::<u64, ErrorCode>(
            tokens,
        ),
    ensures
        info.total_supply + tokens == holdings_total(
            holders.update(
                i,
                (UserPortfolio { balance: (holders[i].balance + tokens) as u64, ..holders[i] }),
            ),
        ),
{
    lemma_holdings_update(
        holders,
        i,
        (UserPortfolio { balance: (holders[i].balance + tokens) as u64, ..holders[i] }),
    );
}

/// Supply consistency under a burn: when the supply equals the sum of all
/// holdings and holding `i` burns, the new supply equals the sum of the new
/// holdings.
pub proof fn law_burn_keeps_supply_consistent(
    info: TokenInfo,
    curve: BondingCurve,
    pool: LiquidityPool,
    holders: Seq<UserPortfolio>,
    i: int,
    mint: Identity,
    user: Identity,
    amount_tokens: u64,
)
    requires
        0 <= i < holders.len(),
        info.total_supply == holdings_total(holders),
        burn_outcome(info, curve, pool, holders[i], mint, user, amount_tokens) is Ok,
    ensures
        info.total_supply - amount_tokens == holdings_total(
            holders.update(
                i,
                (UserPortfolio {
                    balance: (holders[i].balance - amount_tokens) as u64,
                    ..holders[i]
                }),
            ),
        ),
{
    lemma_holdings_update(
        holders,
        i,
        (UserPortfolio { balance: (holders[i].balance - amount_tokens) as u64, ..holders[i] }),
    );
}

/// A burn never releases more than the redemption balance holds: when it
/// succeeds the balance covers the gross amount, and when the accounts match
/// and the curve prices the burn above the balance it fails for lack of
/// liquidity.
pub proof fn law_burn_within_balance(
    info: TokenInfo,
    curve: BondingCurve,
    pool: LiquidityPool,
    portfolio: UserPortfolio,
    mint: Identity,
    user: Identity,
    amount_tokens: u64,
)
    ensures
        burn_outcome(info, curve, pool, portfolio, mint, user, amount_tokens) matches Ok(gross)
            ==> gross <= pool.balance,
        trade_accounts_error(info, curve, pool, portfolio, mint, user) is None
            && withdrawal_outcome(curve, info.total_supply as nat, amount_tokens as nat) is Ok
            && withdrawal_outcome(curve, info.total_supply as nat, amount_tokens as nat)->Ok_0
            > pool.balance ==> burn_outcome(
            info,
            curve,
            pool,
            portfolio,
            mint,
            user,
            amount_tokens,
        ) == Err::<u64, ErrorCode>(ErrorCode::InsufficientLiquidity),
{
}

/// A covered mint can be extended to a largest covered one.
proof fn lemma_quote_exists(curve: BondingCurve, s: nat, amount: nat, d: nat)
    requires
        curve_valid(curve),
        deposit_covers(curve, s, amount, d),
    ensures
        exists|m: u64| buys_exactly(curve, s, amount, m as nat),
    decreases EXP_LIMIT - d,
{
    lemma_mint_growth_monotone(curve, 0, s + d);
    assert(1000 * curve.slope * (s + d) >= d) by (nonlinear_arith)
        requires curve.slope >= 1;
    assert(mint_growth_at(curve, 0) == FIXED_ONE);
    if deposit_covers(curve, s, amount, d + 1) {
        lemma_quote_exists(curve, s, amount, d + 1);
    } else {
        assert forall|e: nat| deposit_covers(curve, s, amount, e) <==> e <= d by {
            if e <= d {
                lemma_deposit_covers_downward(curve, s, amount, e, d);
            } else if deposit_covers(curve, s, amount, e) {
                lemma_deposit_covers_downward(curve, s, amount, d + 1, e);
            }
        }
        assert(buys_exactly(curve, s, amount, (d as u64) as nat));
    }
}

/// The tokens a positive deposit buys are covered by it, and one more token
/// is not.
pub proof fn lemma_quote_covers(curve: BondingCurve, s: nat, amount: nat, tokens: u64)
    requires
        amount > 0,
        mint_quote(curve, s, amount) == Ok::<u64, ErrorCode>(tokens),
    ensures
        deposit_covers(curve, s, amount, tokens as nat),
        !deposit_covers(curve, s, amount, (tokens + 1) as nat),
{
    lemma_reserve_up_zero(curve);
    assert(deposit_covers(curve, s, amount, 0));
    lemma_quote_exists(curve, s, amount, 0);
}

/// A positive deposit `amount` at supply `s` buys exactly what its quote says.
pub proof fn lemma_quote_exact(curve: BondingCurve, s: nat, amount: nat, tokens: u64)
    requires
        amount > 0,
        mint_quote(curve, s, amount) == Ok::<u64, ErrorCode>(tokens),
    ensures
        buys_exactly(curve, s, amount, tokens as nat),
{
    lemma_quote_covers(curve, s, amount, tokens);
    assert forall|e: nat| deposit_covers(curve, s, amount, e) <==> e <= tokens by {
        if e <= tokens {
            lemma_deposit_covers_downward(curve, s, amount, e, tokens as nat);
        } else if deposit_covers(curve, s, amount, e) {
            lemma_deposit_covers_downward(curve, s, amount, (tokens + 1) as nat, e);
        }
    }
}

/// Every token on the curve costs at least `initial_price` reserve units.
pub proof fn lemma_cost_positive(curve: BondingCurve, lo: nat, d: nat)
    requires
        curve.slope > 0,
    ensures
        reserve_between(curve, lo, lo + d) >= curve.initial_price * d,
{
    lemma_growth_monotone(curve, lo, lo + d);
    let rise = growth_at(curve, lo + d) - growth_at(curve, lo);
    let p = curve.initial_price as int;
    let den = curve.slope * FIXED_ONE;
    assert(p * rise * SLOPE_SCALE >= (p * d) * den) by (nonlinear_arith)
        requires rise >= 1000 * curve.slope * d, p >= 0, d >= 0, den == curve.slope * FIXED_ONE,
            curve.slope >= 1;
    assert(den > 0) by (nonlinear_arith)
        requires den == curve.slope * FIXED_ONE, curve.slope >= 1;
    lemma_div_is_ordered((p * d) * den, p * rise * SLOPE_SCALE, den);
    vstd::arithmetic::div_mod::lemma_div_multiples_vanish(p * d, den);
    assert((p * d) * den == den * (p * d)) by (nonlinear_arith);
}

/// Round trips never profit: minting with `amount` reserve units at supply
/// `s` and at once burning the tokens obtained succeeds at the curve and
/// releases at most `amount`, before fees: the burn side of the curve never
/// rises faster than the mint side.
pub proof fn law_round_trip_never_profits(curve: BondingCurve, s: nat, amount: u64, tokens: u64)
    requires
        mint_quote(curve, s, amount as nat) == Ok::<u64, ErrorCode>(tokens),
    ensures
        withdrawal_outcome(curve, (s + tokens) as nat, tokens as nat) is Ok,
        withdrawal_outcome(curve, (s + tokens) as nat, tokens as nat)->Ok_0 <= amount,
{
    if amount > 0 {
        let hi = (s + tokens) as nat;
        lemma_quote_covers(curve, s, amount as nat, tokens);
        lemma_growth_monotone(curve, s, hi);
        lemma_growth_below_mint(curve, hi, 0);
        lemma_growth_below_mint(curve, s, tokens as nat);
        lemma_reserve_below_up(
            curve,
            growth_at(curve, hi) - growth_at(curve, s),
            mint_growth_at(curve, hi) - mint_growth_at(curve, s),
        );
        assert((s + tokens - tokens) as nat == s);
    }
}

/// Fees stay apart from redemptions: the gross amount of a burn is the
/// curve's for the supply, whatever fees have been collected, and two reserves
/// that differ only in their collected fees give the same outcome wherever
/// each can take the burn's fee.
pub proof fn law_fees_disjoint_from_payout(
    info: TokenInfo,
    curve: BondingCurve,
    pool1: LiquidityPool,
    pool2: LiquidityPool,
    portfolio: UserPortfolio,
    mint: Identity,
    user: Identity,
    amount_tokens: u64,
)
    requires
        pool1.token == pool2.token,
        pool1.balance == pool2.balance,
    ensures
        burn_outcome(info, curve, pool1, portfolio, mint, user, amount_tokens) matches Ok(g)
            ==> withdrawal_outcome(curve, info.total_supply as nat, amount_tokens as nat) == Ok::<
            u64,
            ErrorCode,
        >(g),
        (withdrawal_outcome(curve, info.total_supply as nat, amount_tokens as nat) matches Ok(g)
            ==> pool1.accumulated_fees + fee_of(g) <= u64::MAX && pool2.accumulated_fees + fee_of(g)
            <= u64::MAX) ==> burn_outcome(info, curve, pool1, portfolio, mint, user, amount_tokens)
            == burn_outcome(info, curve, pool2, portfolio, mint, user, amount_tokens),
{
}

/// Minting never wraps: a mint that succeeds leaves every balance it raises
/// within 64 bits, and one whose raised balances would not fit fails with an
/// overflow.
pub proof fn law_mint_never_wraps(
    info: TokenInfo,
    curve: BondingCurve,
    pool: LiquidityPool,
    portfolio: UserPortfolio,
    mint: Identity,
    user: Identity,
    amount: u64,
)
    ensures
        mint_outcome(info, curve, pool, portfolio, mint, user, amount) matches Ok(t) ==> {
            &&& pool.balance + (amount - fee_of(amount)) <= u64::MAX
            &&& pool.accumulated_fees + fee_of(amount) <= u64::MAX
            &&& info.total_supply + t <= u64::MAX
            &&& portfolio.balance + t <= u64::MAX
        },
        ({
            let q = mint_quote(curve, info.total_supply as nat, amount as nat);
            &&& trade_accounts_error(info, curve, pool, portfolio, mint, user) is None
            &&& q is Ok
            &&& pool.balance + (amount - fee_of(amount)) > u64::MAX || pool.accumulated_fees
                + fee_of(amount) > u64::MAX || info.total_supply + q->Ok_0 > u64::MAX
                || portfolio.balance + q->Ok_0 > u64::MAX
        }) ==> mint_outcome(
            info,
            curve,
            pool,
            portfolio,
            mint,
            user,
            amount,
        ) == Err::<u64, ErrorCode>(ErrorCode::ArithmeticOverflow),
{
}

/// A burn from an empty reserve fails: with matching records, a curve of
/// positive price and slope, and `0 < amount_tokens <= supply` on the curve,
/// the burn is refused, and for lack of liquidity wherever its gross amount
/// fits in 64 bits.
pub proof fn law_burn_from_empty_reserve_fails(
    info: TokenInfo,
    curve: BondingCurve,
    pool: LiquidityPool,
    portfolio: UserPortfolio,
    mint: Identity,
    user: Identity,
    amount_tokens: u64,
)
    requires
        trade_accounts_error(info, curve, pool, portfolio, mint, user) is None,
        curve_valid(curve),
        0 < amount_tokens <= info.total_supply,
        supply_in_domain(curve, info.total_supply as nat),
        pool.balance == 0,
    ensures
        burn_outcome(info, curve, pool, portfolio, mint, user, amount_tokens) is Err,
        withdrawal_outcome(curve, info.total_supply as nat, amount_tokens as nat) is Ok
            ==> burn_outcome(info, curve, pool, portfolio, mint, user, amount_tokens) == Err::<
            u64,
            ErrorCode,
        >(ErrorCode::InsufficientLiquidity),
{
    let s = info.total_supply as nat;
    let lo = (s - amount_tokens) as nat;
    lemma_growth_monotone(curve, lo, s);
    lemma_cost_positive(curve, lo, amount_tokens as nat);
    assert(lo + amount_tokens == s);
    assert(curve.initial_price * amount_tokens >= 1) by (nonlinear_arith)
        requires curve.initial_price >= 1, amount_tokens >= 1;
}

/// The cost of the next `d` tokens never falls as the supply grows, on the
/// burn side and on the mint side.
pub proof fn law_cost_monotone_in_supply(curve: BondingCurve, s1: nat, s2: nat, d: nat)
    requires
        curve.slope > 0,
        s1 <= s2,
    ensures
        reserve_between(curve, s1, s1 + d) <= reserve_between(curve, s2, s2 + d),
        mint_cost(curve, s1, s1 + d) <= mint_cost(curve, s2, s2 + d),
{
    lemma_mint_growth_rise_monotone(curve, s1, s2, d);
    lemma_mint_growth_monotone(curve, s1, s1 + d);
    lemma_reserve_below_up(
        curve,
        mint_growth_at(curve, s1 + d) - mint_growth_at(curve, s1),
        mint_growth_at(curve, s2 + d) - mint_growth_at(curve, s2),
    );
    lemma_growth_rise_monotone(curve, s1, s2, d);
    lemma_reserve_for_growth_monotone(
        curve,
        growth_at(curve, s1 + d) - growth_at(curve, s1),
        growth_at(curve, s2 + d) - growth_at(curve, s2),
    );
}

/// A deposit buys no fewer tokens at a lower supply, and a larger deposit
/// buys no fewer tokens at the same supply.
pub proof fn law_mint_monotone(
    curve: BondingCurve,
    s1: nat,
    s2: nat,
    a1: nat,
    a2: nat,
    t1: u64,
    t2: u64,
)
    requires
        s1 <= s2,
        a2 <= a1,
        mint_quote(curve, s1, a1) == Ok::<u64, ErrorCode>(t1),
        mint_quote(curve, s2, a2) == Ok::<u64, ErrorCode>(t2),
    ensures
        t2 <= t1,
{
    if a2 == 0 {
        return;
    }
    lemma_quote_exact(curve, s1, a1, t1);
    lemma_quote_exact(curve, s2, a2, t2);
    assert(deposit_covers(curve, s2, a2, t2 as nat));
    lemma_mint_growth_monotone(curve, (s1 + t2) as nat, (s2 + t2) as nat);
    law_cost_monotone_in_supply(curve, s1, s2, t2 as nat);
    assert(deposit_covers(curve, s1, a1, t2 as nat));
}

/// A burn pays no less at a higher supply, and burning more tokens at the
/// same supply pays no less.
pub proof fn law_burn_monotone(curve: BondingCurve, s1: nat, s2: nat, n1: nat, n2: nat)
    requires
        n1 <= n2,
        n1 <= s1 <= s2,
        n2 <= s2,
        s2 - n2 <= s1 - n1,
        withdrawal_outcome(curve, s1, n1) is Ok,
        withdrawal_outcome(curve, s2, n2) is Ok,
    ensures
        withdrawal_outcome(curve, s1, n1)->Ok_0 <= withdrawal_outcome(curve, s2, n2)->Ok_0,
{
    if n1 > 0 {
        let lo1 = (s1 - n1) as nat;
        let lo2 = (s2 - n2) as nat;
        lemma_growth_monotone(curve, lo2, (s2 - n1) as nat);
        lemma_growth_rise_monotone(curve, lo1, (s2 - n1) as nat, n1);
        lemma_growth_monotone(curve, (s2 - n1) as nat, s2);
        lemma_reserve_for_growth_monotone(
            curve,
            growth_at(curve, s1) - growth_at(curve, lo1),
            growth_at(curve, s2) - growth_at(curve, lo2),
        );
        assert(lo1 + n1 == s1);
        assert((s2 - n1) as nat + n1 == s2);
    }
}

/// Pricing is monotonic: for a positive slope the exponential factor is
/// strictly increasing in the supply, the floored price never decreases, and
/// it strictly increases wherever `initial_price * slope` is at least 1e6 (on
/// finer curves two neighbouring prices can floor to the same reserve unit).
pub proof fn law_price_increasing(curve: BondingCurve, n1: nat, n2: nat)
    requires
        curve.slope > 0,
        n1 < n2,
    ensures
        growth_at(curve, n1) < growth_at(curve, n2),
        price_at(curve, n1) <= price_at(curve, n2),
        curve.initial_price * curve.slope >= 1_000_000 ==> price_at(curve, n1) < price_at(
            curve,
            n2,
        ),
{
    lemma_growth_monotone(curve, n1, n2);
    let p = curve.initial_price as int;
    let g1 = growth_at(curve, n1) as int;
    let g2 = growth_at(curve, n2) as int;
    assert(1000 * curve.slope * (n2 - n1) >= 1000) by (nonlinear_arith)
        requires curve.slope >= 1, n2 - n1 >= 1;
    assert(p * g1 <= p * g2) by (nonlinear_arith)
        requires g1 <= g2, p >= 0;
    lemma_div_is_ordered(p * g1, p * g2, FIXED_ONE as int);
    if p * curve.slope >= 1_000_000 {
        assert(p * g2 - p * g1 >= FIXED_ONE) by (nonlinear_arith)
            requires
                g2 - g1 >= 1000 * curve.slope * (n2 - n1),
                n2 - n1 >= 1,
                p * curve.slope >= 1_000_000,
                p >= 0,
                curve.slope >= 1,
        ;
        lemma_div_is_ordered(FIXED_ONE + p * g1, p * g2, FIXED_ONE as int);
        lemma_div_plus_one(p * g1, FIXED_ONE as int);
    }
}

} // verus!
