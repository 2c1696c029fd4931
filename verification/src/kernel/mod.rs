//! What the daemon asks of the kernel: addresses, routes, and the checks before it starts.
pub mod addressing;
pub mod config;
pub mod preflight;
pub mod routes;
pub mod table;
