use vstd::prelude::*;
use crate::curve::{growth_at, supply_in_domain, growth_exec_at, FIXED_ONE};
use crate::errors::ErrorCode;

verus! {

/// A 32-byte account identity (a public key): the identity of a token, a
/// user, or an authority.
#[derive(Debug, Clone, Copy)]
pub struct Identity {
    pub bytes: [u8; 32],
}

impl Identity {
    pub fn new(bytes: [u8; 32]) -> (r: Identity)
        ensures
            r.bytes == bytes,
    {
        Identity { bytes }
    }

    /// Whether the two identities hold the same bytes.
    pub fn same(&self, other: &Identity) -> (r: bool)
        ensures
            r == (self.bytes@ == other.bytes@),
    {
        let mut i: usize = 0;
        while i < 32
            invariant
                0 <= i <= 32,
                forall|j: int| 0 <= j < i ==> self.bytes@[j] == other.bytes@[j],
            decreases 32 - i,
        {
            if self.bytes[i] != other.bytes[i] {
                return false;
            }
            i = i + 1;
        }
        assert(self.bytes@ =~= other.bytes@);
        true
    }
}

impl PartialEq for Identity {
    fn eq(&self, other: &Identity) -> (r: bool) {
        self.same(other)
    }
}

impl Eq for Identity {}

impl vstd::std_specs::cmp::PartialEqSpecImpl for Identity {
    open spec fn obeys_eq_spec() -> bool {
        true
    }

    open spec fn eq_spec(&self, other: &Identity) -> bool {
        self.bytes@ == other.bytes@
    }
}

/// The record of one token: its identity, display data, circulating supply
/// and controlling authority.
#[derive(Debug, Clone)]
pub struct TokenInfo {
    pub mint: Identity,
    pub name: String,
    pub symbol: String,
    pub social_account_url: String,
    pub total_supply: u64,
    pub authority: Identity,
}

/// The curve of one token: price(n) = initial_price * e^(slope * n), where
/// `initial_price` counts reserve units at a scale of 1e9 per whole unit and
/// `slope` is a growth rate at a scale of 1e6.
#[derive(Debug, Clone, Copy)]
pub struct BondingCurve {
    pub token: Identity,
    pub initial_price: u64,
    pub slope: u64,
    pub admin: Identity,
}

/// The reserve of one token. `balance` backs redemptions; `accumulated_fees`
/// is held apart from it and can only be withdrawn by the authority.
#[derive(Debug, Clone, Copy)]
pub struct LiquidityPool {
    pub token: Identity,
    pub balance: u64,
    pub accumulated_fees: u64,
    pub authority: Identity,
}

/// The holding of one user in one token.
#[derive(Debug, Clone, Copy)]
pub struct UserPortfolio {
    pub user: Identity,
    pub token: Identity,
    pub balance: u64,
}

/// The program-wide administrator record.
#[derive(Debug, Clone, Copy)]
pub struct GlobalState {
    pub admin: Identity,
}

/// Whether two identities are the same account.
pub open spec fn same_identity(a: Identity, b: Identity) -> bool {
    a.bytes@ == b.bytes@
}

/// The price, floored, of one token at supply `n` in reserve units:
/// `initial_price * e^(k n)`.
pub open spec fn price_at(curve: BondingCurve, n: nat) -> int {
    curve.initial_price * growth_at(curve, n) / FIXED_ONE as int
}

impl BondingCurve {
    /// The spot price at `supply`; fails with an overflow where the curve
    /// cannot be evaluated or the price does not fit in 64 bits.
    pub fn calculate_price(&self, supply: u64) -> (r: Result<u64, ErrorCode>)
        ensures
            r is Ok <==> supply_in_domain(*self, supply as nat) && price_at(*self, supply as nat)
                <= u64::MAX,
            r matches Ok(p) ==> p == price_at(*self, supply as nat),
            r matches Err(e) ==> e == ErrorCode::ArithmeticOverflow,
    {
        let growth = match growth_exec_at(self, supply) {
            Some(g) => g,
            None => return Err(ErrorCode::ArithmeticOverflow),
        };
        let price = self.initial_price as u128;
        proof {
            assert(price * growth <= 0xffff_ffff_ffff_ffff * 0x8000_0000_0000_0000) by (nonlinear_arith)
                requires price <= 0xffff_ffff_ffff_ffff, growth <= 0x8000_0000_0000_0000;
        }
        let value = price * growth / FIXED_ONE;
        if value > u64::MAX as u128 {
            return Err(ErrorCode::ArithmeticOverflow);
        }
        Ok(value as u64)
    }

    /// Replaces both curve parameters.
    pub fn update_params(&mut self, initial_price: u64, slope: u64) -> (r: Result<(), ErrorCode>)
        ensures
            r is Ok,
            *final(self) == (BondingCurve { initial_price, slope, ..*old(self) }),
    {
        self.initial_price = initial_price;
        self.slope = slope;
        Ok(())
    }
}

impl LiquidityPool {
    /// Credits `amount` to the redemption balance.
    pub fn add_liquidity(&mut self, amount: u64) -> (r: Result<(), ErrorCode>)
        ensures
            r is Ok <==> old(self).balance + amount <= u64::MAX,
            r is Ok ==> *final(self) == (LiquidityPool {
                balance: (old(self).balance + amount) as u64,
                ..*old(self)
            }),
            r matches Err(e) ==> e == ErrorCode::ArithmeticOverflow && *final(self) == *old(self),
    {
        match self.balance.checked_add(amount) {
            Some(b) => {
                self.balance = b;
                Ok(())
            },
            None => Err(ErrorCode::ArithmeticOverflow),
        }
    }

    /// Debits `amount` from the redemption balance.
    pub fn remove_liquidity(&mut self, amount: u64) -> (r: Result<(), ErrorCode>)
        ensures
            r is Ok <==> amount <= old(self).balance,
            r is Ok ==> *final(self) == (LiquidityPool {
                balance: (old(self).balance - amount) as u64,
                ..*old(self)
            }),
            r matches Err(e) ==> e == ErrorCode::InsufficientLiquidity && *final(self) == *old(self),
    {
        if self.balance < amount {
            return Err(ErrorCode::InsufficientLiquidity);
        }
        self.balance = self.balance - amount;
        Ok(())
    }

    /// Credits `amount` to the collected fees.
    pub fn add_fee(&mut self, amount: u64) -> (r: Result<(), ErrorCode>)
        ensures
            r is Ok <==> old(self).accumulated_fees + amount <= u64::MAX,
            r is Ok ==> *final(self) == (LiquidityPool {
                accumulated_fees: (old(self).accumulated_fees + amount) as u64,
                ..*old(self)
            }),
            r matches Err(e) ==> e == ErrorCode::ArithmeticOverflow && *final(self) == *old(self),
    {
        match self.accumulated_fees.checked_add(amount) {
            Some(f) => {
                self.accumulated_fees = f;
                Ok(())
            },
            None => Err(ErrorCode::ArithmeticOverflow),
        }
    }
}

} // verus!
