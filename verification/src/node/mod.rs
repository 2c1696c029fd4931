//! What one node decides: about its links, its identities, its network and its moves.
pub mod adapters;
pub mod andna_key;
pub mod arcs;
pub mod cli;
pub mod codec;
pub mod dispatch;
pub mod entry;
pub mod ip_route;
pub mod lifecycle;
pub mod merge;
pub mod migration;
pub mod peers;
pub mod registry;
pub mod services;
pub mod status;
pub mod stubs;
pub mod supervisor;
pub mod transport;
pub mod wire;
