//! A bonding-curve market maker: a token is minted against deposits into a
//! shared reserve and burned against payouts from it, with the price set by an
//! exponential curve of the circulating supply. Every amount is an integer, and
//! the curve is evaluated in deterministic fixed point.
pub mod errors;
pub mod state;
pub mod curve;
pub mod events;
pub mod instructions;
pub mod laws;
