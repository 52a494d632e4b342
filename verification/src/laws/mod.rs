//! Laws of the library: what its operations mean, said of their arguments and
//! results in plain arithmetic.
//!
//! `call_ensures(f, arguments, r)` reads: `r` is what `f` returns for these
//! arguments. A law over it holds of every call.
pub mod agents;
pub mod amounts;
pub mod baskets;
pub mod book;
pub mod deribit;
pub mod engine;
pub mod entries;
pub mod exits;
pub mod fills;
pub mod hyperliquid;
pub mod paper;
pub mod reports;
pub mod trades;
pub mod words;
