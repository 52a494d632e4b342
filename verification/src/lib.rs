//! Maker-only basket grid trading engine: the bookkeeping, planning and
//! decision rules, with their contracts.
//!
//! Prices, quantities and money are fixed-point numbers (see [`amount`]); the
//! network connectors, the HTTP interface and the clock-driven loops live
//! outside the library and call into it. What the operations mean is stated
//! once more, of their arguments and results alone, in [`laws`].
pub mod amount;
pub mod api;
pub mod clock;
pub mod engine;
pub mod engines;
pub mod exchanges;
pub mod ids;
pub mod laws;
pub mod lists;
pub mod models;
pub mod names;
pub mod random;
pub mod tables;
pub mod text;
