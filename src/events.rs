use vstd::prelude::*;
use crate::state::Identity;

verus! {

/// A new token was created.
#[derive(Debug, Clone)]
pub struct TokenCreated {
    pub token: Identity,
    pub name: String,
    pub symbol: String,
    pub social_account_url: String,
    pub creator: Identity,
}

/// Tokens were minted against a deposit: `amount` tokens for `price`
/// reserve units.
#[derive(Debug, Clone, Copy)]
pub struct TokenMinted {
    pub token: Identity,
    pub user: Identity,
    pub amount: u64,
    pub price: u64,
}

/// Tokens were burned: `amount` tokens for a payout of `refund` reserve units.
#[derive(Debug, Clone, Copy)]
pub struct TokenBurned {
    pub token: Identity,
    pub user: Identity,
    pub amount: u64,
    pub refund: u64,
}

/// Reserve units were credited to a token's redemption balance.
#[derive(Debug, Clone, Copy)]
pub struct LiquidityAdded {
    pub token: Identity,
    pub amount: u64,
}

/// Reserve units were debited from a token's redemption balance.
#[derive(Debug, Clone, Copy)]
pub struct LiquidityRemoved {
    pub token: Identity,
    pub amount: u64,
}

/// A fee was set aside from a trade.
#[derive(Debug, Clone, Copy)]
pub struct FeeCollected {
    pub token: Identity,
    pub amount: u64,
}

/// The spot price of a token changed.
#[derive(Debug, Clone, Copy)]
pub struct PriceUpdate {
    pub token: Identity,
    pub new_price: u64,
}

/// Collected fees were paid out to `receiver`.
#[derive(Debug, Clone, Copy)]
pub struct FeeWithdrawn {
    pub amount: u64,
    pub receiver: Identity,
}

} // verus!
