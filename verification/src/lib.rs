//! The deciding half of a Netsukuku node daemon: hierarchical addressing, kernel route
//! reconciliation, link bookkeeping, identity dispatch, entry elections, merge arbitration and
//! the migration state machine, each stated by contract and proved.
pub mod clock;
pub mod document;
pub mod kernel;
pub mod net;
pub mod node;
pub mod qspn;
pub mod sorted_map;
pub mod space;
pub mod text;
