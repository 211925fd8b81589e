//! The guards that are built into the gateway.
pub mod names;
pub mod pii_detection;
pub mod pii_guard;
pub mod rug_pull;
pub mod server_whitelist;
pub mod tool_poisoning;
pub mod tool_shadowing;
