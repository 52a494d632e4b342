//! What the engine keeps and decides for each exchange that it trades on.
pub mod deribit;
pub mod hyperliquid;
pub mod instruments;
pub mod mock;
