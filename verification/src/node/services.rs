//! How the services of a stack are set up.
use vstd::prelude::*;
use crate::node::merge::{CoordinatorClientAdapter, Verdict};

verus! {

/// How often a node announces anew which services it takes part in, in seconds.
pub const PARTICIPATION_REANNOUNCE_SECS: u64 = 300;

/// How long a network's size, and what was decided by it, is trusted, in milliseconds.
pub const N_NODES_CACHE_TTL_MILLIS: u64 = 200;

/// Where a stack has its hooking from.
#[derive(Debug, PartialEq, Eq)]
pub enum HookingProvenance<O, H> {
    /// It starts one, of this origin.
    Fresh(O),
    /// It takes over one that runs.
    Carried(H),
}

/// How the peer services are set up.
#[derive(Debug, Clone, Copy, PartialEq, Eq, Structural)]
pub struct PeersConfig {
    /// How often participation is announced anew, in seconds.
    pub participation_reannounce_secs: u64,
    /// Whether requests must be signed.
    pub require_auth: bool,
}

/// How the peer services are set up.
pub fn peers_config(require_auth: bool) -> (r: PeersConfig)
    ensures
        r == (PeersConfig { participation_reannounce_secs: 300, require_auth }),
{
    PeersConfig { participation_reannounce_secs: PARTICIPATION_REANNOUNCE_SECS, require_auth }
}

/// How the coordinator is set up.
#[derive(Debug, Clone, Copy, PartialEq, Eq, Structural)]
pub struct CoordinatorConfig {
    /// How long a network's size is trusted, in milliseconds.
    pub n_nodes_cache_ttl_millis: u64,
}

/// How the coordinator is set up.
pub fn coordinator_config() -> (r: CoordinatorConfig)
    ensures
        r == (CoordinatorConfig { n_nodes_cache_ttl_millis: N_NODES_CACHE_TTL_MILLIS }),
{
    CoordinatorConfig { n_nodes_cache_ttl_millis: N_NODES_CACHE_TTL_MILLIS }
}

/// A member's side of the coordinator: what was decided by a network's size is trusted just as long
/// as the size itself.
pub fn coordinator_client() -> (r: CoordinatorClientAdapter)
    ensures
        r@ == Map::<i64, Verdict>::empty(),
        r.ttl() == N_NODES_CACHE_TTL_MILLIS * 1_000_000,
        r.ttl_millis() == N_NODES_CACHE_TTL_MILLIS,
{
    CoordinatorClientAdapter::new(coordinator_config().n_nodes_cache_ttl_millis * 1_000_000)
}

/// What the services of a stack have to do at their start.
#[derive(Debug, Clone, Copy, PartialEq, Eq, Structural)]
pub struct ServicesPlan {
    /// The level below which the maps of participants count as known.
    pub retrieved_below_level: usize,
    /// Whether hooking must be started.
    pub spawn_hooking: bool,
    /// Whether the neighbours are to be asked for their maps of participants.
    pub ask_participant_maps: bool,
}

/// What the services of a stack have to do at their start: one that joins a network knows none of
/// its participants and asks for them, and keeps the hooking that led there; one that founds a
/// network knows all and starts its own.
pub fn plan<O, H>(hooking: &HookingProvenance<O, H>, levels: usize) -> (r: ServicesPlan)
    ensures
        r == (ServicesPlan {
            retrieved_below_level: if *hooking is Carried {
                0
            } else {
                levels
            },
            spawn_hooking: *hooking is Fresh,
            ask_participant_maps: *hooking is Carried,
        }),
{
    let joining = match hooking {
        HookingProvenance::Carried(_) => true,
        HookingProvenance::Fresh(_) => false,
    };
    ServicesPlan {
        retrieved_below_level: if joining {
            0
        } else {
            levels
        },
        spawn_hooking: !joining,
        ask_participant_maps: joining,
    }
}

} // verus!
