use vstd::prelude::*;

verus! {

/// Every way an operation of the engine can fail. A failed operation leaves
/// all ledger records as they were.
#[derive(Debug, Clone, Copy, PartialEq, Eq, Structural)]
pub enum ErrorCode {
    InvalidTokenName,
    InvalidToken,
    InvalidTokenSymbol,
    InvalidSocialAccountUrl,
    InsufficientBalance,
    InsufficientLiquidity,
    InvalidMintAmount,
    InvalidBurnAmount,
    ArithmeticOverflow,
    Unauthorized,
    ArithmeticUnderflow,
    InvalidBondingCurveParameters,
}

/// The human-readable message of each error.
pub open spec fn error_message(e: ErrorCode) -> Seq<char> {
    match e {
        ErrorCode::InvalidTokenName => "Invalid token name"@,
        ErrorCode::InvalidToken => "Invalid token"@,
        ErrorCode::InvalidTokenSymbol => "Invalid token symbol"@,
        ErrorCode::InvalidSocialAccountUrl => "Invalid social account URL"@,
        ErrorCode::InsufficientBalance => "Insufficient balance for burning"@,
        ErrorCode::InsufficientLiquidity => "Liquidity pool balance too low"@,
        ErrorCode::InvalidMintAmount => "Invalid mint amount"@,
        ErrorCode::InvalidBurnAmount => "Invalid burn amount"@,
        ErrorCode::ArithmeticOverflow => "Arithmetic overflow"@,
        ErrorCode::Unauthorized => "Unauthorized access"@,
        ErrorCode::ArithmeticUnderflow => "Arithmetic underflow occurred"@,
        ErrorCode::InvalidBondingCurveParameters => "Invalid bonding curve parameters"@,
    }
}

impl ErrorCode {
    /// The human-readable message of the error.
    pub fn message(&self) -> (r: &'static str)
        ensures
            r@ == error_message(*self),
    {
        match self {
            ErrorCode::InvalidTokenName => "Invalid token name",
            ErrorCode::InvalidToken => "Invalid token",
            ErrorCode::InvalidTokenSymbol => "Invalid token symbol",
            ErrorCode::InvalidSocialAccountUrl => "Invalid social account URL",
            ErrorCode::InsufficientBalance => "Insufficient balance for burning",
            ErrorCode::InsufficientLiquidity => "Liquidity pool balance too low",
            ErrorCode::InvalidMintAmount => "Invalid mint amount",
            ErrorCode::InvalidBurnAmount => "Invalid burn amount",
            ErrorCode::ArithmeticOverflow => "Arithmetic overflow",
            ErrorCode::Unauthorized => "Unauthorized access",
            ErrorCode::ArithmeticUnderflow => "Arithmetic underflow occurred",
            ErrorCode::InvalidBondingCurveParameters => "Invalid bonding curve parameters",
        }
    }
}

} // verus!
