use ntkd::node::adapters::{
    chosen_lvl_from_snapshot, dial_target, estimate_n_nodes, foreign_exclusions, hooking_epsilon,
    known_gnodes, map_eldership, resolve_caller_arc, AdjacentGNode, CoordinatorMapAdapter, EldershipCache,
    NetworkInfo, QspnViewAdapter, RoutingEnvAdapter,
};
use ntkd::node::peers::PeerLinks;
use ntkd::node::registry::LinkRegistry;
use ntkd::node::wire::{encode_caller_id, NodeId};
use ntkd::qspn::{ArcId, RouteEntry, RoutePath, RouteSnapshot};
use ntkd::space::{Cost, HCoord, Naddr, Topology, TupleNode};

fn route_path(nodes_inside: u32) -> RoutePath {
    RoutePath { arc: ArcId(0), cost: Cost::Finite(1), nodes_inside }
}

fn entry(level: usize, pos: u32, nodes_inside: u32) -> RouteEntry {
    RouteEntry { destination: HCoord::new(level, pos), paths: vec![route_path(nodes_inside)] }
}

#[test]
fn a_solitary_node_counts_only_itself() {
    let snapshot = RouteSnapshot { levels: vec![vec![]] };
    assert_eq!(estimate_n_nodes(&snapshot, None, 0), 1);
}

#[test]
fn level_zero_destinations_always_count_as_one_real_node_each() {
    let snapshot = RouteSnapshot { levels: vec![vec![entry(0, 1, 99), entry(0, 2, 99)]] };
    assert_eq!(estimate_n_nodes(&snapshot, None, 0), 3);
}

#[test]
fn own_level_zero_siblings_are_reflected_in_a_higher_level_count() {
    let snapshot = RouteSnapshot {
        levels: vec![vec![entry(0, 1, 1), entry(0, 2, 1)], vec![entry(1, 1, 3)]],
    };
    assert_eq!(estimate_n_nodes(&snapshot, None, 1), 6);
}

#[test]
fn a_foreign_peer_is_excluded_at_every_recursed_level() {
    let mut net = NetworkInfo::new(2, 1);
    net.note_foreign(0, 2);
    net.note_foreign(1, 1);
    let snapshot = RouteSnapshot {
        levels: vec![vec![entry(0, 1, 1), entry(0, 2, 1)], vec![entry(1, 1, 3)]],
    };
    assert_eq!(estimate_n_nodes(&snapshot, Some(&net), 1), 2);
}

#[test]
fn an_entry_without_a_path_does_not_count() {
    let snapshot = RouteSnapshot {
        levels: vec![vec![RouteEntry { destination: HCoord::new(0, 1), paths: vec![] }]],
    };
    assert_eq!(estimate_n_nodes(&snapshot, None, 0), 1);
    assert_eq!(estimate_n_nodes(&snapshot, None, 3), 1);
}

fn topology() -> Topology {
    Topology::new(vec![4, 2, 2, 2]).unwrap()
}

#[test]
fn a_single_hop_partial_tuple_widens_to_the_right_full_address() {
    let my_naddr = Naddr::new(topology(), vec![2, 1, 0, 1]).unwrap();
    let n = TupleNode::new(topology(), vec![3]).unwrap();
    let target = dial_target(&my_naddr, &n).expect("a valid top()=1 tuple must resolve");
    assert_eq!(*target.positions(), [3, 1, 0, 1]);
}

#[test]
fn a_full_depth_tuple_still_resolves_unchanged() {
    let my_naddr = Naddr::new(topology(), vec![2, 1, 0, 1]).unwrap();
    let n = TupleNode::new(topology(), vec![3, 1, 0, 1]).unwrap();
    let target = dial_target(&my_naddr, &n).expect("a full-depth tuple must resolve");
    assert_eq!(*target.positions(), [3, 1, 0, 1]);
}

#[test]
fn an_empty_tuple_is_refused() {
    let my_naddr = Naddr::new(topology(), vec![2, 1, 0, 1]).unwrap();
    let n = TupleNode::new(topology(), Vec::new()).unwrap();
    assert_eq!(dial_target(&my_naddr, &n), None);
}

#[test]
fn a_tuple_naming_more_levels_than_my_topology_has_is_refused() {
    let my_naddr = Naddr::new(topology(), vec![2, 1, 0, 1]).unwrap();
    let foreign = Topology::new(vec![4, 2, 2, 2, 2]).unwrap();
    let n = TupleNode::new(foreign, vec![3, 1, 0, 1, 0]).unwrap();
    assert_eq!(dial_target(&my_naddr, &n), None);
}

#[test]
fn a_position_out_of_range_for_my_topology_is_refused() {
    let my_naddr = Naddr::new(topology(), vec![2, 1, 0, 1]).unwrap();
    let foreign = Topology::new(vec![8, 2, 2, 2]).unwrap();
    let n = TupleNode::new(foreign, vec![5]).unwrap();
    assert_eq!(dial_target(&my_naddr, &n), None);
}

#[test]
fn same_network_confirmation_survives_a_colliding_foreign_report_either_order() {
    let mut confirmed_then_foreign = NetworkInfo::new(1, 1);
    confirmed_then_foreign.note_same_network(0, 1);
    confirmed_then_foreign.note_foreign(0, 1);
    assert!(!confirmed_then_foreign.is_foreign(0, 1));

    let mut foreign_then_confirmed = NetworkInfo::new(1, 1);
    foreign_then_confirmed.note_foreign(0, 1);
    foreign_then_confirmed.note_same_network(0, 1);
    assert!(!foreign_then_confirmed.is_foreign(0, 1));
}

#[test]
fn a_trio_member_with_positions_colliding_a_foreign_trio_still_gets_the_collective_level() {
    let mut net = NetworkInfo::new(2, 91_000_001);
    net.note_same_network(0, 0);
    net.note_same_network(0, 2);
    net.note_foreign(0, 0);
    net.note_foreign(0, 1);
    net.note_foreign(0, 2);

    let snapshot = RouteSnapshot {
        levels: vec![vec![entry(0, 0, 1), entry(0, 1, 1), entry(0, 2, 1)]],
    };
    assert_eq!(chosen_lvl_from_snapshot(&snapshot, &net, 2), 1);
}

#[test]
fn confirmed_positions_never_read_foreign_regardless_of_interleaving() {
    for confirm_first in [true, false] {
        for confirmed in 0u32..16 {
            for foreign in 0u32..16 {
                let mut net = NetworkInfo::new(1, 1);
                for round in 0..2 {
                    for p in 0..4u32 {
                        if confirm_first == (round == 0) {
                            if confirmed & (1 << p) != 0 {
                                net.note_same_network(0, p);
                            }
                        } else if foreign & (1 << p) != 0 {
                            net.note_foreign(0, p);
                        }
                    }
                }
                for p in 0..4u32 {
                    let expected = foreign & (1 << p) != 0 && confirmed & (1 << p) == 0;
                    assert_eq!(net.is_foreign(0, p), expected);
                }
            }
        }
    }
}

#[test]
fn two_identities_sharing_a_network_id_compute_the_same_fp_id() {
    let a = NetworkInfo::new(2, 91_000_001);
    let b = NetworkInfo::new(2, 91_000_001);
    assert_eq!(a.network_id(), b.network_id());
}

#[test]
fn two_identities_with_different_network_ids_diverge() {
    let a = NetworkInfo::new(2, 91_000_001);
    let b = NetworkInfo::new(2, 91_000_002);
    assert_ne!(a.network_id(), b.network_id());
}

#[test]
fn set_network_id_is_reflected_immediately() {
    let mut a = NetworkInfo::new(2, 91_000_001);
    let before = a.network_id();
    a.set_network_id(91_000_002);
    assert_ne!(before, a.network_id());
    assert_eq!(a.network_id(), 91_000_002);
}

#[test]
fn foreign_positions_are_the_unconfirmed_reports() {
    let mut net = NetworkInfo::new(3, 1);
    net.note_foreign(1, 1);
    net.note_foreign(0, 3);
    net.note_foreign(0, 3);
    net.note_foreign(7, 0);
    net.note_same_network(1, 1);
    assert_eq!(net.foreign_positions(), vec![(0, 3), (7, 0)]);
    assert_eq!(foreign_exclusions(&topology(), &net), vec![HCoord::new(0, 3)]);
    assert!(!net.is_bootstrapped());
    net.set_bootstrapped();
    assert!(net.is_bootstrapped());
}

#[test]
fn elderships_keep_unknown_and_virtual_apart() {
    assert_eq!(map_eldership(Some(Some(7))), 7);
    assert_eq!(map_eldership(Some(Some(u32::MAX))), i32::MAX - 1);
    assert_eq!(map_eldership(Some(None)), -1);
    assert_eq!(map_eldership(None), i32::MAX);
    let mut cache = EldershipCache::new();
    assert_eq!(cache.my(0), i32::MAX);
    cache.set_my(0, Some(Some(3)));
    cache.set_foreign(0, 2, Some(None));
    assert_eq!(cache.my(0), 3);
    assert_eq!(cache.foreign(0, 2), -1);
    assert_eq!(cache.foreign(0, 3), i32::MAX);
}

#[test]
fn elderships_are_refreshed_from_what_is_listed() {
    let snapshot = RouteSnapshot {
        levels: vec![vec![entry(0, 3, 1), entry(0, 1, 1)], vec![entry(1, 1, 1)]],
    };
    let gnodes = known_gnodes(&snapshot);
    assert_eq!(gnodes, vec![HCoord::new(0, 3), HCoord::new(0, 1), HCoord::new(1, 1)]);
    let mut cache = EldershipCache::new();
    cache.refresh(
        &vec![Some(Some(4)), None],
        &gnodes,
        &vec![Some(Some(8)), None, Some(None)],
    );
    assert_eq!((cache.my(0), cache.my(1)), (4, i32::MAX));
    assert_eq!(cache.foreign(0, 3), 8);
    assert_eq!(cache.foreign(0, 1), i32::MAX);
    assert_eq!(cache.foreign(1, 1), -1);
}

#[test]
fn epsilon_is_the_first_level_that_reaches_five_bits() {
    assert_eq!(hooking_epsilon(&topology()), 4);
    assert_eq!(hooking_epsilon(&Topology::new(vec![16, 2, 2]).unwrap()), 2);
    assert_eq!(hooking_epsilon(&Topology::new(vec![256, 2]).unwrap()), 1);
    assert_eq!(hooking_epsilon(&Topology::new(vec![2, 2]).unwrap()), 2);
}

#[test]
fn a_coordinator_knows_its_free_positions() {
    let my_naddr = Naddr::new(topology(), vec![2, 1, 0, 1]).unwrap();
    let mut net = NetworkInfo::new(4, 5);
    net.note_foreign(0, 3);
    let snapshot = RouteSnapshot {
        levels: vec![vec![entry(0, 0, 1), entry(0, 3, 1)], vec![entry(1, 0, 1)]],
    };
    let map = CoordinatorMapAdapter { my_naddr: &my_naddr, snapshot: &snapshot, net: &net };
    assert_eq!(map.free_positions(0), vec![1, 3]);
    assert_eq!(map.free_positions(1), Vec::<u32>::new());
    assert!(!map.can_reserve(1));
    assert_eq!(map.free_positions(2), vec![1]);
    assert!(map.can_reserve(2));
    assert_eq!(map.free_positions(4), Vec::<u32>::new());
    assert_eq!(map.my_pos(0), 2);
    assert_eq!(map.my_pos(9), 0);
    assert_eq!(map.fp_id(3), 5);
    assert_eq!(map.n_nodes(), 3);
}

#[test]
fn hooking_sees_the_gnodes_beside_it() {
    let my_naddr = Naddr::new(topology(), vec![2, 1, 0, 1]).unwrap();
    let net = NetworkInfo::new(4, 5);
    let cache = EldershipCache::new();
    let snapshot = RouteSnapshot { levels: vec![vec![entry(0, 2, 1), entry(0, 3, 1)]] };
    let view = QspnViewAdapter::new(&my_naddr, &snapshot, &net, &cache);
    assert_eq!(view.epsilon, 4);
    assert_eq!(
        view.adjacent_to_my_gnode(0, 1),
        vec![AdjacentGNode { hc: HCoord::new(0, 3), border_real_pos: 1 }]
    );
    assert_eq!(view.adjacent_to_my_gnode(3, 1), vec![]);
    assert_eq!(view.adjacent_to_my_gnode(0, 4), vec![]);
    assert_eq!(view.subnetlevel(), 0);
    assert_eq!(view.my_eldership(0), i32::MAX);
    assert_eq!(view.n_nodes(), 3);
}

#[test]
fn messages_leave_by_the_cheapest_open_link() {
    let my_naddr = Naddr::new(topology(), vec![2, 1, 0, 1]).unwrap();
    let mut registry = LinkRegistry::new();
    let first = registry.link_for_neighbour(NodeId::from_raw(7).unwrap(), "aa", "eth0");
    let second = registry.link_for_neighbour(NodeId::from_raw(8).unwrap(), "bb", "eth0");
    registry.set_qspn_arc(first, ArcId(1));
    registry.set_qspn_arc(second, ArcId(2));
    let hc = HCoord::new(1, 0);
    let path = |arc| RoutePath { arc: ArcId(arc), cost: Cost::Finite(1), nodes_inside: 1 };
    let snapshot = RouteSnapshot {
        levels: vec![
            vec![],
            vec![RouteEntry { destination: hc, paths: vec![path(1), path(1), path(2)] }],
        ],
    };
    let mut links = PeerLinks::new();
    links.insert(first, "one");
    links.insert(second, "two");
    let env = RoutingEnvAdapter {
        my_naddr: &my_naddr,
        snapshot: &snapshot,
        registry: &registry,
        links: &links,
    };
    assert_eq!(env.gateway(hc, None), Some(first));
    assert_eq!(env.gateway(hc, Some(first)), Some(second));
    assert_eq!(env.gateway(HCoord::new(1, 1), None), None);
    assert!(env.gnode_exists(hc));
    assert!(env.gnode_exists(HCoord::new(1, 1)));
    assert!(!env.gnode_exists(HCoord::new(0, 0)));
    let n = TupleNode::new(topology(), vec![0, 0]).unwrap();
    assert_eq!(env.dial(&n), Some(first));
    let me = TupleNode::new(topology(), vec![2]).unwrap();
    assert_eq!(env.dial(&me), None);
    assert_eq!(env.nodes_in_my_group(0), 1);

    let caller = encode_caller_id(NodeId::from_raw(8).unwrap());
    assert_eq!(resolve_caller_arc(&registry, Some(&caller)), Some(ArcId(2)));
    let stranger = encode_caller_id(NodeId::from_raw(9).unwrap());
    assert_eq!(resolve_caller_arc(&registry, Some(&stranger)), None);
    assert_eq!(resolve_caller_arc(&registry, None), None);
}
