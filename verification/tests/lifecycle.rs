use ntkd::kernel::routes::RouteInstaller;
use ntkd::node::adapters::NetworkInfo;
use ntkd::node::arcs::{advance, begin, ArcAction, ArcEvent, ArcOutcome};
use ntkd::node::lifecycle::{
    derive_initial_position, derive_linklocal, linklocal_allocator, linklocal_from_hash,
    mac_from_hash, migration_id_from, network_id_from, on_arc_added, on_arc_attached,
    on_arc_cost_changed, on_arc_removed, on_qspn_event, on_stream, plan_start, position_from_hash,
    random_fingerprint_id, random_i64, random_migration_id, reattach_known_arcs, synthetic_mac,
    virtual_placeholder, NeighborArc, PreformedNetwork, QspnEvent, Reaction, Received, StartError,
    Stream, LINKLOCAL_SPACE,
};
use ntkd::node::migration::{
    combine_entry_naddr, is_stale_finish_enter_replay, on_hooking_event, Action, Admission,
    HookingEvent, HookingReaction, Migrator, Outcome,
};
use ntkd::net::Ipv4Addr;
use ntkd::node::peers::PeerLinks;
use ntkd::node::registry::{LinkId, LinkRegistry};
use ntkd::node::wire::{IdentityId, NodeId};
use ntkd::qspn::ArcId;
use ntkd::space::{Cost, Naddr, PositionError, Topology};
use std::hash::{Hash, Hasher};

fn node_id(raw: i32) -> NodeId {
    NodeId::from_raw(raw).unwrap()
}

fn assert_locally_administered_unicast(mac: &str) {
    let first = u8::from_str_radix(mac.split(':').next().unwrap(), 16).unwrap();
    assert_eq!(first & 0x02, 0x02, "{mac}: locally-administered bit not set");
    assert_eq!(first & 0x01, 0, "{mac}: multicast bit not clear");
    assert_eq!(mac.split(':').count(), 6, "{mac}: not 6 octets");
}

#[test]
fn different_node_ids_diverge_on_the_same_device_name() {
    let a = synthetic_mac("eth0", node_id(1));
    let b = synthetic_mac("eth0", node_id(2));
    assert_ne!(a, b);
}

#[test]
fn same_node_and_device_is_deterministic() {
    let id = node_id(42);
    assert_eq!(synthetic_mac("eth0", id), synthetic_mac("eth0", id));
}

#[test]
fn different_devices_on_the_same_node_diverge() {
    let id = node_id(7);
    assert_ne!(synthetic_mac("eth0", id), synthetic_mac("eth1", id));
}

#[test]
fn result_is_always_a_valid_locally_administered_unicast_mac() {
    for raw in [1, 2, 3, 42, i32::MAX] {
        for dev in ["eth0", "wlan0", "enp0s3"] {
            assert_locally_administered_unicast(&synthetic_mac(dev, node_id(raw)));
        }
    }
    assert_eq!(mac_from_hash(0xff01_02a3_0405_0607), "fe:01:02:a3:04:05");
    assert_eq!(mac_from_hash(0), "02:00:00:00:00:00");
}

/// The hashes are those of a derived `Hash` on a one-integer newtype.
#[test]
fn hashes_are_those_of_the_standard_hasher() {
    for raw in [1, 601, 603, i32::MAX] {
        let mut hasher = std::collections::hash_map::DefaultHasher::new();
        raw.hash(&mut hasher);
        assert_eq!(derive_linklocal(node_id(raw), 5), linklocal_from_hash(hasher.finish(), 5));
        "eth0".hash(&mut hasher);
        assert_eq!(synthetic_mac("eth0", node_id(raw)), mac_from_hash(hasher.finish()));
        let topology = Topology::new(vec![8, 5]).unwrap();
        let positions = derive_initial_position(node_id(raw), &topology);
        for (level, gsize) in [(0usize, 8u32), (1, 5)] {
            let mut hasher = std::collections::hash_map::DefaultHasher::new();
            raw.hash(&mut hasher);
            level.hash(&mut hasher);
            assert_eq!(positions[level], position_from_hash(hasher.finish(), gsize));
        }
    }
}

#[test]
fn two_known_nodes_start_from_the_same_position() {
    let topology = Topology::new(vec![8]).unwrap();
    assert_eq!(derive_initial_position(node_id(601), &topology), vec![3]);
    assert_eq!(derive_initial_position(node_id(603), &topology), vec![3]);
}

fn assert_valid_linklocal(addr: Ipv4Addr) {
    let o = addr.octets();
    assert_eq!(&o[0..2], [169, 254], "{addr:?}: not inside 169.254.0.0/16");
    assert_ne!(o[2], 0, "{addr:?}: inside reserved 169.254.0.0/24");
    assert_ne!(o[2], 255, "{addr:?}: inside reserved 169.254.255.0/24");
}

#[test]
fn different_node_ids_diverge_on_the_same_nic_index() {
    let a = derive_linklocal(node_id(1), 0);
    let b = derive_linklocal(node_id(2), 0);
    assert_ne!(a, b);
}

#[test]
fn same_salt_and_index_is_deterministic() {
    let id = node_id(42);
    assert_eq!(derive_linklocal(id, 3), derive_linklocal(id, 3));
}

#[test]
fn different_indices_on_the_same_node_diverge() {
    let id = node_id(7);
    assert_ne!(derive_linklocal(id, 0), derive_linklocal(id, 1));
    assert_ne!(derive_linklocal(id, 0), derive_linklocal(id, 41));
}

#[test]
fn every_generated_address_stays_inside_the_valid_linklocal_range() {
    for raw in [1, 2, 3, 42, i32::MAX] {
        let id = node_id(raw);
        for index in [0, 1, 2, 100, LINKLOCAL_SPACE - 1] {
            assert_valid_linklocal(derive_linklocal(id, index));
        }
    }
}

#[test]
fn linklocal_slots_go_round() {
    assert_eq!(linklocal_from_hash(0, 0), Ipv4Addr::new(169, 254, 1, 0));
    assert_eq!(linklocal_from_hash(0, 256), Ipv4Addr::new(169, 254, 2, 0));
    assert_eq!(linklocal_from_hash(65_023, 0), Ipv4Addr::new(169, 254, 254, 255));
    assert_eq!(linklocal_from_hash(65_023, 1), Ipv4Addr::new(169, 254, 1, 0));
    assert_eq!(linklocal_from_hash(1, u32::MAX), linklocal_from_hash(0, u32::MAX % 65_024 + 1));
    let id = node_id(7);
    let mut allocator = linklocal_allocator(id);
    let first = allocator.next_address();
    let second = allocator.next_address();
    assert_eq!(first, derive_linklocal(id, 0).text());
    assert_eq!(second, derive_linklocal(id, 1).text());
}

fn topo() -> Topology {
    Topology::new(vec![4, 2]).expect("valid topology")
}

#[test]
fn level_zero_is_the_entry_pos_verbatim_regardless_of_current_position() {
    for current in [[0, 0], [3, 1], [2, 0]] {
        let naddr = combine_entry_naddr(&topo(), &current.to_vec(), 0, &vec![1, 0])
            .expect("full-length entry_pos at level 0 is always valid");
        assert_eq!(*naddr.positions(), [1, 0]);
    }
}

#[test]
fn three_members_with_distinct_lower_positions_share_one_propagated_upper_position() {
    let entry_pos = vec![1];
    let members = [
        combine_entry_naddr(&topo(), &vec![0, 0], 1, &entry_pos).expect("member 0 combines"),
        combine_entry_naddr(&topo(), &vec![1, 0], 1, &entry_pos).expect("member 1 combines"),
        combine_entry_naddr(&topo(), &vec![2, 0], 1, &entry_pos).expect("member 2 combines"),
    ];
    assert!(members.iter().all(|n| n.positions()[1] == 1));
    let level0: std::collections::HashSet<u32> =
        members.iter().map(|n| n.positions()[0]).collect();
    assert_eq!(level0, std::collections::HashSet::from([0, 1, 2]));
    let distinct: std::collections::HashSet<&Vec<u32>> =
        members.iter().map(Naddr::positions).collect();
    assert_eq!(distinct.len(), 3);
}

#[test]
fn out_of_range_guest_gnode_level_is_rejected_not_panicked() {
    assert!(combine_entry_naddr(&topo(), &vec![0, 0], 3, &vec![]).is_none());
}

#[test]
fn wrong_total_length_is_rejected() {
    assert!(combine_entry_naddr(&topo(), &vec![0, 0], 1, &vec![1, 0]).is_none());
    assert!(combine_entry_naddr(&topo(), &vec![0, 0], 1, &vec![]).is_none());
}

#[test]
fn out_of_bounds_position_is_rejected() {
    assert!(combine_entry_naddr(&topo(), &vec![0, 0], 1, &vec![5]).is_none());
}

fn naddr(pos: [u32; 2]) -> Naddr {
    Naddr::new(topo(), pos.to_vec()).expect("valid address")
}

#[test]
fn same_position_and_network_is_stale() {
    assert!(is_stale_finish_enter_replay(&naddr([1, 0]), 42, &naddr([1, 0]), 42));
}

#[test]
fn same_position_different_network_is_not_stale() {
    assert!(!is_stale_finish_enter_replay(&naddr([1, 0]), 42, &naddr([1, 0]), 99));
}

#[test]
fn different_position_same_network_is_not_stale() {
    assert!(!is_stale_finish_enter_replay(&naddr([1, 0]), 42, &naddr([2, 0]), 42));
}

#[test]
fn different_position_and_network_is_not_stale() {
    assert!(!is_stale_finish_enter_replay(&naddr([1, 0]), 42, &naddr([2, 0]), 99));
}

#[test]
fn placeholders_are_virtual() {
    let placeholder = virtual_placeholder(&topo());
    assert_eq!(*placeholder.positions(), [4, 2]);
    assert!(placeholder.is_virtual());
    let here = naddr([1, 0]);
    assert_eq!(Migrator::route_naddr(&here, false), here);
    assert_eq!(Migrator::route_naddr(&here, true), placeholder);
}

#[test]
fn a_move_runs_through_and_is_not_repeated() {
    let mut net = NetworkInfo::new(2, 42);
    let mut migrator = Migrator::new(naddr([1, 0]), true);
    let main = IdentityId(7);
    let event = HookingEvent::DoFinishEnter { guest_gnode_level: 1, pos: vec![1], network_id: 99 };
    assert_eq!(
        on_hooking_event(&mut migrator, &mut net, &event, main),
        HookingReaction::Enter(Admission::Admitted)
    );
    assert_eq!(net.network_id(), 99);
    assert_eq!(
        on_hooking_event(&mut migrator, &mut net, &event, main),
        HookingReaction::Enter(Admission::Busy)
    );
    assert_eq!(*migrator.target().positions(), [1, 1]);
    assert_eq!(migrator.gnode_levels(), (1, 2));
    let new = IdentityId(8);
    let steps = [
        (Outcome::Done, Action::Fork { old: main }),
        (Outcome::Forked(new), Action::SetVirtual { new }),
        (Outcome::Failed, Action::TearDown),
        (Outcome::Failed, Action::Bootstrap),
        (Outcome::Done, Action::Attach),
        (Outcome::Done, Action::PollBootstrap),
        (Outcome::NotYet, Action::Pause),
        (Outcome::Done, Action::PollBootstrap),
        (Outcome::Failed, Action::Realize),
        (Outcome::Failed, Action::SetReal { new }),
        (Outcome::Done, Action::Retire { old: main }),
        (Outcome::Done, Action::Finished),
        (Outcome::Done, Action::Rest),
    ];
    for (outcome, action) in steps {
        assert_eq!(migrator.advance(outcome), action);
    }
    assert_eq!(*migrator.current().positions(), [1, 1]);
    assert_eq!(migrator.migrations(), 1);
    assert!(migrator.rehooked());
    assert_eq!(
        on_hooking_event(&mut migrator, &mut net, &event, main),
        HookingReaction::Enter(Admission::Stale)
    );
}

#[test]
fn a_failed_start_undoes_the_fork() {
    let mut net = NetworkInfo::new(2, 42);
    let mut migrator = Migrator::new(naddr([1, 0]), true);
    let (old, new) = (IdentityId(7), IdentityId(8));
    assert_eq!(migrator.finish_enter(&mut net, 0, &vec![2, 1], 99, old), Admission::Admitted);
    migrator.advance(Outcome::Done);
    migrator.advance(Outcome::Forked(new));
    migrator.advance(Outcome::Done);
    migrator.advance(Outcome::Done);
    assert_eq!(migrator.advance(Outcome::Failed), Action::AbortFork { old, new });
    assert_eq!(migrator.advance(Outcome::Done), Action::Stopped);
    assert_eq!(*migrator.current().positions(), [1, 0]);
    assert!(!migrator.rehooked());
    assert_eq!(migrator.finish_enter(&mut net, 0, &vec![2, 1], 99, old), Admission::Admitted);
    assert_eq!(migrator.advance(Outcome::Failed), Action::Stopped);
    assert_eq!(migrator.finish_enter(&mut net, 0, &vec![2, 1], 99, old), Admission::Admitted);
    migrator.advance(Outcome::Done);
    assert_eq!(migrator.advance(Outcome::Failed), Action::Stopped);
}

#[test]
fn moves_that_cannot_be_are_refused() {
    let mut net = NetworkInfo::new(2, 42);
    let main = IdentityId(7);
    let mut fixed = Migrator::new(naddr([1, 0]), false);
    assert_eq!(fixed.finish_enter(&mut net, 0, &vec![2, 1], 99, main), Admission::Fixed);
    let mut free = Migrator::new(naddr([1, 0]), true);
    assert_eq!(free.finish_enter(&mut net, 0, &vec![9, 1], 99, main), Admission::NotAnAddress);
    assert_eq!(free.finish_enter(&mut net, 2, &vec![], 99, main), Admission::WholeNetwork);
    assert_eq!(net.network_id(), 42);
    assert_eq!(
        on_hooking_event(
            &mut free,
            &mut net,
            &HookingEvent::DoPrepareMigration { migration_id: 3 },
            main
        ),
        HookingReaction::PrepareMigration { migration_id: 3, identity: main }
    );
    assert_eq!(
        on_hooking_event(&mut free, &mut net, &HookingEvent::SameNetwork, main),
        HookingReaction::Ignore
    );
}

#[test]
fn nodes_start_where_they_are_told() {
    let id = node_id(5);
    let fixed = plan_start(&topo(), id, Some(vec![2, 1]), None, 77).unwrap();
    assert_eq!(*fixed.my_naddr.positions(), [2, 1]);
    assert!(!fixed.negotiated);
    assert_eq!(fixed.network_id, 77);
    let preformed = || Some(PreformedNetwork { network_id: 5, position: vec![3, 0] });
    let member = plan_start(&topo(), id, None, preformed(), 77).unwrap();
    assert_eq!(*member.my_naddr.positions(), [3, 0]);
    assert!(member.negotiated);
    assert_eq!(member.network_id, 5);
    let alone = plan_start(&topo(), id, None, None, 77).unwrap();
    assert_eq!(*alone.my_naddr.positions(), derive_initial_position(id, &topo()));
    assert!(alone.negotiated);
    let both = plan_start(&topo(), id, Some(vec![2, 1]), preformed(), 77).unwrap_err();
    assert_eq!(
        both,
        StartError::BothGiven {
            initial_position: vec![2, 1],
            preformed: PreformedNetwork { network_id: 5, position: vec![3, 0] },
        }
    );
    assert_eq!(
        both.message(),
        format!(
            "NodeInputs::initial_position and NodeInputs::preformed are mutually exclusive: \
             initial_position={:?} preformed={:?}",
            Some(vec![2u32, 1]),
            preformed()
        )
    );
    let empty = StartError::BothGiven {
        initial_position: vec![],
        preformed: PreformedNetwork { network_id: -7, position: vec![9] },
    };
    assert_eq!(
        empty.message(),
        "NodeInputs::initial_position and NodeInputs::preformed are mutually exclusive: \
         initial_position=Some([]) \
         preformed=Some(PreformedNetwork { network_id: -7, position: [9] })"
    );
    let out_of_range = plan_start(&topo(), id, Some(vec![4, 1]), None, 77).unwrap_err();
    assert_eq!(
        out_of_range,
        StartError::Position(PositionError::OutOfRange { level: 0, pos: 4, gsize: 4 })
    );
    assert_eq!(
        out_of_range.message(),
        "position 4 at level 0 is out of range: g-node size is 4"
    );
    let short = PreformedNetwork { network_id: 5, position: vec![3] };
    let too_short = plan_start(&topo(), id, None, Some(short), 77).unwrap_err();
    assert_eq!(
        too_short,
        StartError::Position(PositionError::WrongLength { levels: 2, given: 1 })
    );
    assert_eq!(too_short.message(), "1 positions given for a 2-level topology");
}

#[test]
fn random_numbers_are_brought_into_range() {
    assert_eq!(network_id_from(0), 1);
    assert_eq!(network_id_from(1 << 63), 1);
    assert_eq!(network_id_from(u64::MAX), i64::MAX);
    assert_eq!(migration_id_from(0), 1);
    assert_eq!(migration_id_from(0xffff_ffff), 1);
    assert_eq!(migration_id_from(0x8000_0000), i32::MAX);
    assert_eq!(migration_id_from(0x1_0000_0005), 5);
    assert!(random_i64() > 0);
    assert!(random_migration_id() > 0);
    assert_eq!(random_fingerprint_id().len(), 8);
    assert_ne!(random_fingerprint_id(), random_fingerprint_id());
}

fn arc(mac: &str, addr: &str, cost: Option<Cost>) -> NeighborArc {
    NeighborArc {
        neighbour_id: node_id(9),
        neighbour_mac: mac.to_string(),
        my_dev: "eth0".to_string(),
        neighbour_nic_addr: addr.to_string(),
        cost,
    }
}

#[test]
fn arcs_come_and_go() {
    let mut registry = LinkRegistry::new();
    let mut links: PeerLinks<&str> = PeerLinks::new();
    let mut installer = RouteInstaller::new(naddr([1, 0]), 200, 1);
    let up = arc("aa", "169.254.1.1", Some(Cost::Finite(3)));
    let added = on_arc_added(&mut registry, &links, &up);
    assert!(added.dial);
    links.insert(added.link, "open");
    assert!(!on_arc_added(&mut registry, &links, &up).dial);
    assert_eq!(on_arc_cost_changed(&registry, &up), None);
    on_arc_attached(&mut registry, &mut installer, &up, added.link, ArcId(4));
    assert_eq!(on_arc_cost_changed(&registry, &up), Some((ArcId(4), Cost::Finite(3))));
    assert_eq!(on_arc_cost_changed(&registry, &arc("aa", "x", None)), None);
    let removed = on_arc_removed(&mut registry, &mut installer, &mut links, "aa").unwrap();
    assert_eq!((removed.link, removed.qspn_arc), (LinkId(1), Some(ArcId(4))));
    assert_eq!(links.get(LinkId(1)), None);
    assert_eq!(on_arc_removed(&mut registry, &mut installer, &mut links, "aa"), None);
}

#[test]
fn an_arc_leads_to_one_action_after_another() {
    let mut registry = LinkRegistry::new();
    let mut links: PeerLinks<&str> = PeerLinks::new();
    let mut installer = RouteInstaller::new(naddr([1, 0]), 200, 1);
    let link = LinkId(1);
    let cost = Cost::Finite(3);
    let up = || arc("aa", "169.254.1.1", Some(cost));
    let mut run = |event: ArcEvent, outcomes: Vec<ArcOutcome<&'static str>>| {
        let mut actions =
            vec![begin(&mut registry, &mut installer, &mut links, &event)];
        let (ArcEvent::Added(about) | ArcEvent::CostChanged(about) | ArcEvent::Removed(about)) =
            event;
        for outcome in outcomes {
            let last = *actions.last().unwrap();
            actions.push(advance(
                &mut registry,
                &mut installer,
                &mut links,
                &about,
                last,
                outcome,
            ));
        }
        actions
    };
    assert_eq!(
        run(ArcEvent::Added(arc("aa", "x", None)), vec![ArcOutcome::Done]),
        [ArcAction::Dial { link }, ArcAction::Rest]
    );
    assert_eq!(
        run(ArcEvent::Added(up()), vec![ArcOutcome::Dialled("open"), ArcOutcome::Done]),
        [ArcAction::Dial { link }, ArcAction::AddArc { link, cost }, ArcAction::Rest]
    );
    assert_eq!(run(ArcEvent::CostChanged(up()), vec![]), [ArcAction::Rest]);
    assert_eq!(
        run(
            ArcEvent::Added(up()),
            vec![
                ArcOutcome::Taken(ArcId(4)),
                ArcOutcome::Done,
                ArcOutcome::Done,
                ArcOutcome::Done
            ]
        ),
        [
            ArcAction::AddArc { link, cost },
            ArcAction::LinkUp { link },
            ArcAction::Reannounce,
            ArcAction::Reconcile,
            ArcAction::Rest
        ]
    );
    assert_eq!(
        run(ArcEvent::CostChanged(up()), vec![ArcOutcome::Done]),
        [ArcAction::ArcChanged { arc: ArcId(4), cost }, ArcAction::Reconcile]
    );
    assert_eq!(
        run(ArcEvent::Removed(up()), vec![ArcOutcome::Done, ArcOutcome::Done]),
        [
            ArcAction::RemoveArc { arc: ArcId(4), link },
            ArcAction::LinkDown { link },
            ArcAction::Reconcile
        ]
    );
    assert_eq!(run(ArcEvent::Removed(up()), vec![]), [ArcAction::Reconcile]);
    assert_eq!(links.get(link), None);
    assert_eq!(registry.len(), 0);
    assert_eq!(registry.link_for_neighbour(node_id(9), "aa", "eth0"), LinkId(2));
}

#[test]
fn known_arcs_are_attached_anew() {
    let mut registry = LinkRegistry::new();
    let mut installer = RouteInstaller::new(naddr([1, 0]), 200, 1);
    let arcs = vec![
        arc("aa", "169.254.1.1", Some(Cost::Null)),
        arc("bb", "169.254.1.2", None),
        arc("cc", "nonsense", Some(Cost::Finite(2))),
        arc("dd", "169.254.1.4", Some(Cost::Finite(2))),
    ];
    let taken = vec![Some(ArcId(1)), Some(ArcId(2)), Some(ArcId(3)), None];
    assert!(reattach_known_arcs(&mut registry, &mut installer, &arcs, &taken));
    assert_eq!(registry.len(), 3);
    assert_eq!(registry.link_for_dev_and_mac("bb"), None);
    assert_eq!(registry.link_of_qspn_arc(ArcId(3)), registry.link_for_dev_and_mac("cc"));
    assert_eq!(registry.qspn_arc_of(registry.link_for_dev_and_mac("dd").unwrap()), None);
    assert!(!reattach_known_arcs(&mut registry, &mut installer, &arcs, &vec![None; 4]));
}

#[test]
fn events_lead_to_the_right_reaction() {
    let mut net = NetworkInfo::new(1, 1);
    assert!(!on_qspn_event(&mut net, QspnEvent::GnodeSplitted));
    assert!(on_qspn_event(&mut net, QspnEvent::PathChanged));
    assert!(!net.is_bootstrapped());
    assert!(!on_qspn_event(&mut net, QspnEvent::BootstrapComplete));
    assert!(net.is_bootstrapped());
    assert_eq!(on_stream(Stream::Hooking, Received::Event), Reaction::Handle);
    assert_eq!(on_stream(Stream::Qspn, Received::Lagged), Reaction::Reconcile);
    assert_eq!(on_stream(Stream::Neighborhood, Received::Lagged), Reaction::Continue);
    assert_eq!(on_stream(Stream::Qspn, Received::Closed), Reaction::Stop);
}
