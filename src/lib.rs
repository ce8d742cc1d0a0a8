//! A collectible-breeding ledger: accounts mint, breed, price and trade
//! collectibles, and lock a fixed stake of collateral for each one they own.
pub mod currency;
pub mod entropy;
pub mod genome;
pub mod laws;
pub mod ownership;
pub mod pallet;
pub mod types;
