//! Core of a leveraged-perpetual exchange simulator: exact decimal amounts,
//! a state store of users, open orders and asset prices with a liquidation
//! index, a command processor, a liquidation scanner and a snapshot format.
pub mod alist;
pub mod dec;
pub mod index;
pub mod laws;
pub mod model;
pub mod processor;
pub mod snapshot;
pub mod state;
pub mod wire;
