//! What the HTTP interface decides: saved agents, the snapshots that they
//! leave behind, and the summary of what they earned.
pub mod agents;
pub mod snapshots;
pub mod summary;
