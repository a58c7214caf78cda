//! The operations of the engine. Each one checks the identities it is handed,
//! computes every new value, and only then writes the records: it either
//! applies in full or fails with every record unchanged. Moving reserve units
//! and tokens between accounts is left to the host, which acts on the returned
//! record.
use vstd::prelude::*;
use vstd::string::StrSliceExecFns;
use crate::curve::{calculate_sol_to_return, calculate_tokens_to_mint, mint_quote, withdrawal_outcome};
use crate::errors::ErrorCode;
use crate::events::{FeeWithdrawn, TokenBurned, TokenCreated, TokenMinted};
use crate::state::{
    same_identity, BondingCurve, GlobalState, Identity, LiquidityPool, TokenInfo, UserPortfolio,
};

verus! {

/// The share of a trade kept as a fee: one part in `FEE_DIVISOR`.
pub const FEE_DIVISOR: u64 = 100;

/// Longest token name, in characters.
pub const MAX_NAME_LEN: usize = 32;

/// Longest token symbol, in characters.
pub const MAX_SYMBOL_LEN: usize = 10;

/// Longest social account link, in characters.
pub const MAX_URL_LEN: usize = 200;

/// Starting price of a new curve: 0.01 reserve unit at a scale of 1e9.
pub const DEFAULT_INITIAL_PRICE: u64 = 10_000_000;

/// Starting slope of a new curve: 0.000092 per token at a scale of 1e6.
pub const DEFAULT_SLOPE: u64 = 92;

/// The fee, one percent floored, on a trade of `amount` reserve units.
pub open spec fn fee_of(amount: u64) -> u64 {
    amount / FEE_DIVISOR
}

/// Whether the four records of a trade belong to token `mint` and the holding
/// to `user`; the error of the first check that fails.
pub open spec fn trade_accounts_error(
    info: TokenInfo,
    curve: BondingCurve,
    pool: LiquidityPool,
    portfolio: UserPortfolio,
    mint: Identity,
    user: Identity,
) -> Option<ErrorCode> {
    if !same_identity(info.mint, mint) || !same_identity(curve.token, mint) || !same_identity(
        pool.token,
        mint,
    ) {
        Some(ErrorCode::InvalidToken)
    } else if !same_identity(portfolio.user, user) {
        Some(ErrorCode::Unauthorized)
    } else if !same_identity(portfolio.token, mint) {
        Some(ErrorCode::InvalidToken)
    } else {
        None
    }
}

/// The outcome of a mint of `amount` reserve units: the number of tokens
/// issued, or the error.
pub open spec fn mint_outcome(
    info: TokenInfo,
    curve: BondingCurve,
    pool: LiquidityPool,
    portfolio: UserPortfolio,
    mint: Identity,
    user: Identity,
    amount: u64,
) -> Result<u64, ErrorCode> {
    if let Some(e) = trade_accounts_error(info, curve, pool, portfolio, mint, user) {
        Err(e)
    } else {
        match mint_quote(curve, info.total_supply as nat, amount as nat) {
            Err(e) => Err(e),
            Ok(tokens) => {
                if pool.balance + (amount - fee_of(amount)) > u64::MAX || pool.accumulated_fees
                    + fee_of(amount) > u64::MAX || info.total_supply + tokens > u64::MAX
                    || portfolio.balance + tokens > u64::MAX {
                    Err(ErrorCode::ArithmeticOverflow)
                } else {
                    Ok(tokens)
                }
            },
        }
    }
}

/// The outcome of a burn of `amount_tokens`: the gross reserve released from
/// the balance, or the error.
pub open spec fn burn_outcome(
    info: TokenInfo,
    curve: BondingCurve,
    pool: LiquidityPool,
    portfolio: UserPortfolio,
    mint: Identity,
    user: Identity,
    amount_tokens: u64,
) -> Result<u64, ErrorCode> {
    if let Some(e) = trade_accounts_error(info, curve, pool, portfolio, mint, user) {
        Err(e)
    } else {
        match withdrawal_outcome(curve, info.total_supply as nat, amount_tokens as nat) {
            Err(e) => Err(e),
            Ok(gross) => {
                if pool.balance < gross {
                    Err(ErrorCode::InsufficientLiquidity)
                } else if pool.accumulated_fees + fee_of(gross) > u64::MAX {
                    Err(ErrorCode::ArithmeticOverflow)
                } else if portfolio.balance < amount_tokens {
                    Err(ErrorCode::ArithmeticUnderflow)
                } else {
                    Ok(gross)
                }
            },
        }
    }
}

fn check_trade_accounts(
    token_info: &TokenInfo,
    bonding_curve: &BondingCurve,
    liquidity_pool: &LiquidityPool,
    user_portfolio: &UserPortfolio,
    mint: &Identity,
    user: &Identity,
) -> (r: Option<ErrorCode>)
    ensures
        r == trade_accounts_error(
            *token_info,
            *bonding_curve,
            *liquidity_pool,
            *user_portfolio,
            *mint,
            *user,
        ),
{
    if !token_info.mint.same(mint) || !bonding_curve.token.same(mint)
        || !liquidity_pool.token.same(mint) {
        Some(ErrorCode::InvalidToken)
    } else if !user_portfolio.user.same(user) {
        Some(ErrorCode::Unauthorized)
    } else if !user_portfolio.token.same(mint) {
        Some(ErrorCode::InvalidToken)
    } else {
        None
    }
}

/// Buys tokens with a deposit of `amount_sol` reserve units. One percent of
/// the deposit goes to the fees and the rest to the redemption balance; the
/// tokens that the whole deposit covers on the curve are added to the supply
/// and to the buyer's holding. The host moves `amount_sol` in from the buyer
/// and issues the returned number of tokens.
pub fn mint_token(
    token_info: &mut TokenInfo,
    bonding_curve: &BondingCurve,
    liquidity_pool: &mut LiquidityPool,
    user_portfolio: &mut UserPortfolio,
    mint: &Identity,
    user: &Identity,
    amount_sol: u64,
) -> (r: Result<TokenMinted, ErrorCode>)
    ensures
        r matches Ok(ev) ==> {
            &&& mint_outcome(
                *old(token_info),
                *bonding_curve,
                *old(liquidity_pool),
                *old(user_portfolio),
                *mint,
                *user,
                amount_sol,
            ) == Ok::<u64, ErrorCode>(ev.amount)
            &&& *final(token_info) == (TokenInfo {
                total_supply: (old(token_info).total_supply + ev.amount) as u64,
                ..*old(token_info)
            })
            &&& *final(liquidity_pool) == (LiquidityPool {
                balance: (old(liquidity_pool).balance + (amount_sol - fee_of(amount_sol))) as u64,
                accumulated_fees: (old(liquidity_pool).accumulated_fees + fee_of(
                    amount_sol,
                )) as u64,
                ..*old(liquidity_pool)
            })
            &&& *final(user_portfolio) == (UserPortfolio {
                balance: (old(user_portfolio).balance + ev.amount) as u64,
                ..*old(user_portfolio)
            })
            &&& ev.token == *mint
            &&& ev.user == *user
            &&& ev.price == amount_sol
        },
        r matches Err(e) ==> {
            &&& mint_outcome(
                *old(token_info),
                *bonding_curve,
                *old(liquidity_pool),
                *old(user_portfolio),
                *mint,
                *user,
                amount_sol,
            ) == Err::<u64, ErrorCode>(e)
            &&& *final(token_info) == *old(token_info)
            &&& *final(liquidity_pool) == *old(liquidity_pool)
            &&& *final(user_portfolio) == *old(user_portfolio)
        },
{
    if let Some(e) = check_trade_accounts(
        token_info,
        bonding_curve,
        liquidity_pool,
        user_portfolio,
        mint,
        user,
    ) {
        return Err(e);
    }
    let tokens = match calculate_tokens_to_mint(bonding_curve, token_info.total_supply, amount_sol) {
        Ok(t) => t,
        Err(e) => return Err(e),
    };
    let fee = amount_sol / FEE_DIVISOR;
    let amount_to_pool = amount_sol - fee;
    let new_balance = match liquidity_pool.balance.checked_add(amount_to_pool) {
        Some(v) => v,
        None => return Err(ErrorCode::ArithmeticOverflow),
    };
    let new_fees = match liquidity_pool.accumulated_fees.checked_add(fee) {
        Some(v) => v,
        None => return Err(ErrorCode::ArithmeticOverflow),
    };
    let new_supply = match token_info.total_supply.checked_add(tokens) {
        Some(v) => v,
        None => return Err(ErrorCode::ArithmeticOverflow),
    };
    let new_holding = match user_portfolio.balance.checked_add(tokens) {
        Some(v) => v,
        None => return Err(ErrorCode::ArithmeticOverflow),
    };
    liquidity_pool.balance = new_balance;
    liquidity_pool.accumulated_fees = new_fees;
    token_info.total_supply = new_supply;
    user_portfolio.balance = new_holding;
    Ok(TokenMinted { token: *mint, user: *user, amount: tokens, price: amount_sol })
}

/// Sells `amount_tokens` back to the curve. The gross reserve that the curve
/// integral assigns to them leaves the redemption balance, one percent of it
/// goes to the fees, and the tokens leave the supply and the seller's holding.
/// The host pays the returned refund (gross less fee) to the seller and burns
/// the tokens.
pub fn burn_token(
    token_info: &mut TokenInfo,
    bonding_curve: &BondingCurve,
    liquidity_pool: &mut LiquidityPool,
    user_portfolio: &mut UserPortfolio,
    mint: &Identity,
    user: &Identity,
    amount_tokens: u64,
) -> (r: Result<TokenBurned, ErrorCode>)
    ensures
        r matches Ok(ev) ==> {
            let gross = burn_outcome(
                *old(token_info),
                *bonding_curve,
                *old(liquidity_pool),
                *old(user_portfolio),
                *mint,
                *user,
                amount_tokens,
            )->Ok_0;
            &&& burn_outcome(
                *old(token_info),
                *bonding_curve,
                *old(liquidity_pool),
                *old(user_portfolio),
                *mint,
                *user,
                amount_tokens,
            ) is Ok
            &&& *final(token_info) == (TokenInfo {
                total_supply: (old(token_info).total_supply - amount_tokens) as u64,
                ..*old(token_info)
            })
            &&& *final(liquidity_pool) == (LiquidityPool {
                balance: (old(liquidity_pool).balance - gross) as u64,
                accumulated_fees: (old(liquidity_pool).accumulated_fees + fee_of(gross)) as u64,
                ..*old(liquidity_pool)
            })
            &&& *final(user_portfolio) == (UserPortfolio {
                balance: (old(user_portfolio).balance - amount_tokens) as u64,
                ..*old(user_portfolio)
            })
            &&& ev.token == *mint
            &&& ev.user == *user
            &&& ev.amount == amount_tokens
            &&& ev.refund == gross - fee_of(gross)
        },
        r matches Err(e) ==> {
            &&& burn_outcome(
                *old(token_info),
                *bonding_curve,
                *old(liquidity_pool),
                *old(user_portfolio),
                *mint,
                *user,
                amount_tokens,
            ) == Err::<u64, ErrorCode>(e)
            &&& *final(token_info) == *old(token_info)
            &&& *final(liquidity_pool) == *old(liquidity_pool)
            &&& *final(user_portfolio) == *old(user_portfolio)
        },
{
    if let Some(e) = check_trade_accounts(
        token_info,
        bonding_curve,
        liquidity_pool,
        user_portfolio,
        mint,
        user,
    ) {
        return Err(e);
    }
    let gross = match calculate_sol_to_return(bonding_curve, token_info.total_supply, amount_tokens) {
        Ok(g) => g,
        Err(e) => return Err(e),
    };
    let fee = gross / FEE_DIVISOR;
    let amount_to_user = gross - fee;
    if liquidity_pool.balance < gross {
        return Err(ErrorCode::InsufficientLiquidity);
    }
    let new_fees = match liquidity_pool.accumulated_fees.checked_add(fee) {
        Some(v) => v,
        None => return Err(ErrorCode::ArithmeticOverflow),
    };
    if user_portfolio.balance < amount_tokens {
        return Err(ErrorCode::ArithmeticUnderflow);
    }
    liquidity_pool.balance = liquidity_pool.balance - gross;
    liquidity_pool.accumulated_fees = new_fees;
    token_info.total_supply = token_info.total_supply - amount_tokens;
    user_portfolio.balance = user_portfolio.balance - amount_tokens;
    Ok(TokenBurned { token: *mint, user: *user, amount: amount_tokens, refund: amount_to_user })
}

/// The three records of a newly created token, and the event announcing it.
#[derive(Debug, Clone)]
pub struct CreatedToken {
    pub token_info: TokenInfo,
    pub bonding_curve: BondingCurve,
    pub liquidity_pool: LiquidityPool,
    pub event: TokenCreated,
}

/// Starts the program: `admin` becomes the program-wide administrator.
pub fn initialize(admin: &Identity) -> (r: GlobalState)
    ensures
        r.admin == *admin,
{
    GlobalState { admin: *admin }
}

/// Creates the records of token `mint` for `creator`: no supply, the default
/// curve, an empty reserve, and `creator` as authority of all three. Fails
/// when the name, symbol or link has too many characters, checked in that
/// order.
pub fn create_token(
    mint: &Identity,
    creator: &Identity,
    name: &str,
    symbol: &str,
    social_account_url: &str,
) -> (r: Result<CreatedToken, ErrorCode>)
    ensures
        name@.len() > MAX_NAME_LEN ==> r == Err::<CreatedToken, ErrorCode>(
            ErrorCode::InvalidTokenName,
        ),
        name@.len() <= MAX_NAME_LEN && symbol@.len() > MAX_SYMBOL_LEN ==> r == Err::<
            CreatedToken,
            ErrorCode,
        >(ErrorCode::InvalidTokenSymbol),
        name@.len() <= MAX_NAME_LEN && symbol@.len() <= MAX_SYMBOL_LEN && social_account_url@.len()
            > MAX_URL_LEN ==> r == Err::<CreatedToken, ErrorCode>(
            ErrorCode::InvalidSocialAccountUrl,
        ),
        r is Ok <==> name@.len() <= MAX_NAME_LEN && symbol@.len() <= MAX_SYMBOL_LEN
            && social_account_url@.len() <= MAX_URL_LEN,
        r matches Ok(c) ==> {
            &&& c.token_info.mint == *mint
            &&& c.token_info.name@ == name@
            &&& c.token_info.symbol@ == symbol@
            &&& c.token_info.social_account_url@ == social_account_url@
            &&& c.token_info.total_supply == 0
            &&& c.token_info.authority == *creator
            &&& c.bonding_curve == (BondingCurve {
                token: *mint,
                initial_price: DEFAULT_INITIAL_PRICE,
                slope: DEFAULT_SLOPE,
                admin: *creator,
            })
            &&& c.liquidity_pool == (LiquidityPool {
                token: *mint,
                balance: 0,
                accumulated_fees: 0,
                authority: *creator,
            })
            &&& c.event.token == *mint
            &&& c.event.name@ == name@
            &&& c.event.symbol@ == symbol@
            &&& c.event.social_account_url@ == social_account_url@
            &&& c.event.creator == *creator
        },
{
    if name.unicode_len() > MAX_NAME_LEN {
        return Err(ErrorCode::InvalidTokenName);
    }
    if symbol.unicode_len() > MAX_SYMBOL_LEN {
        return Err(ErrorCode::InvalidTokenSymbol);
    }
    if social_account_url.unicode_len() > MAX_URL_LEN {
        return Err(ErrorCode::InvalidSocialAccountUrl);
    }
    let token_info = TokenInfo {
        mint: *mint,
        name: name.to_owned(),
        symbol: symbol.to_owned(),
        social_account_url: social_account_url.to_owned(),
        total_supply: 0,
        authority: *creator,
    };
    let bonding_curve = BondingCurve {
        token: *mint,
        initial_price: DEFAULT_INITIAL_PRICE,
        slope: DEFAULT_SLOPE,
        admin: *creator,
    };
    let liquidity_pool = LiquidityPool {
        token: *mint,
        balance: 0,
        accumulated_fees: 0,
        authority: *creator,
    };
    let event = TokenCreated {
        token: *mint,
        name: name.to_owned(),
        symbol: symbol.to_owned(),
        social_account_url: social_account_url.to_owned(),
        creator: *creator,
    };
    Ok(CreatedToken { token_info, bonding_curve, liquidity_pool, event })
}

/// Pays `amount` of the collected fees out to `fee_receiver`. Only the
/// reserve's authority may do so, and only up to what has been collected; the
/// redemption balance is untouched. The host moves the reserve units.
pub fn withdraw_fees(
    liquidity_pool: &mut LiquidityPool,
    admin: &Identity,
    fee_receiver: &Identity,
    amount: u64,
) -> (r: Result<FeeWithdrawn, ErrorCode>)
    ensures
        r is Ok <==> same_identity(old(liquidity_pool).authority, *admin) && amount
            <= old(liquidity_pool).accumulated_fees,
        r matches Ok(ev) ==> {
            &&& *final(liquidity_pool) == (LiquidityPool {
                accumulated_fees: (old(liquidity_pool).accumulated_fees - amount) as u64,
                ..*old(liquidity_pool)
            })
            &&& ev.amount == amount
            &&& ev.receiver == *fee_receiver
        },
        r matches Err(e) ==> {
            &&& e == (if !same_identity(old(liquidity_pool).authority, *admin) {
                ErrorCode::Unauthorized
            } else {
                ErrorCode::InsufficientBalance
            })
            &&& *final(liquidity_pool) == *old(liquidity_pool)
        },
{
    if !liquidity_pool.authority.same(admin) {
        return Err(ErrorCode::Unauthorized);
    }
    if liquidity_pool.accumulated_fees < amount {
        return Err(ErrorCode::InsufficientBalance);
    }
    liquidity_pool.accumulated_fees = liquidity_pool.accumulated_fees - amount;
    Ok(FeeWithdrawn { amount, receiver: *fee_receiver })
}

/// Replaces the curve parameters. Only the curve's admin may do so; the new
/// values are taken as they are, whatever the current supply and reserve.
pub fn update_bonding_curve_params(
    bonding_curve: &mut BondingCurve,
    admin: &Identity,
    new_initial_price: u64,
    new_slope: u64,
) -> (r: Result<(), ErrorCode>)
    ensures
        r is Ok <==> same_identity(old(bonding_curve).admin, *admin),
        r is Ok ==> *final(bonding_curve) == (BondingCurve {
            initial_price: new_initial_price,
            slope: new_slope,
            ..*old(bonding_curve)
        }),
        r matches Err(e) ==> e == ErrorCode::Unauthorized && *final(bonding_curve) == *old(
            bonding_curve,
        ),
{
    if !bonding_curve.admin.same(admin) {
        return Err(ErrorCode::Unauthorized);
    }
    bonding_curve.update_params(new_initial_price, new_slope)
}

} // verus!
