//! Core state of a decentralized exchange marketplace: standing buy/sell
//! orders, a per-symbol price index, and per-asset custody vaults.
//!
//! The accounting rules that matching and settlement must respect are
//! stated as contracts on the data types here: what "filled" means for a
//! buy or a sell order, that a market order is a permanent classification
//! of the price field, that the price index distinguishes an absent price
//! from a zero price, and that custody vaults are created at most once per
//! asset. A byte codec with a proved round trip gives every structure a
//! stable persistent layout.

pub mod asset;
pub mod codec;
pub mod decimal;
pub mod order;
pub mod prices;
pub mod vaults;
