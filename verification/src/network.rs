//! The network module: what iwd and iproute2 report, and how it is shown.
pub mod query;
pub mod state;
