use ntkd::kernel::routes::{
    effective_cost, nexthop_weight, route_target, AppliedDelta, KernelOp, RouteInstaller,
};
use ntkd::net::{
    Interface, Ipv4Addr, Ipv4Net, Nexthop, RouteTarget, RuleSelector, RuleSpec,
};
use ntkd::qspn::{ArcId, RouteEntry, RoutePath, RouteSnapshot};
use ntkd::sorted_map::SortedMap;
use ntkd::space::{Cost, HCoord, Naddr, Topology};

fn path(arc: u64, cost: u64) -> RoutePath {
    RoutePath { arc: ArcId(arc), cost: Cost::Finite(cost), nodes_inside: 0 }
}

fn parse(text: &str) -> Ipv4Addr {
    Ipv4Addr::parse(text).unwrap()
}

#[test]
fn nexthop_weight_gives_cheapest_path_max_weight() {
    let best = effective_cost(Cost::Finite(10));
    assert_eq!(nexthop_weight(Cost::Finite(10), best), 255);
    assert_eq!(nexthop_weight(Cost::Finite(20), best), 127);
    assert_eq!(nexthop_weight(Cost::Finite(1000), best), 1);
}

#[test]
fn nexthop_weight_treats_null_cost_as_best() {
    let best = effective_cost(Cost::Null);
    assert_eq!(nexthop_weight(Cost::Null, best), 255);
}

#[test]
fn nexthop_weight_is_never_starved_and_never_overflows() {
    assert_eq!(nexthop_weight(Cost::Finite(u64::MAX), 1), 0);
    assert_eq!(nexthop_weight(Cost::Finite(u64::MAX), u64::MAX), 255);
    assert_eq!(nexthop_weight(Cost::Finite(0), 5), 255);
    assert_eq!(effective_cost(Cost::Finite(0)), 1);
    for cost in 1..500u64 {
        assert!(nexthop_weight(Cost::Finite(cost + 1), 1) <= nexthop_weight(Cost::Finite(cost), 1));
    }
}

#[test]
fn route_target_dedupes_nexthops_sharing_a_gateway() {
    let via1 = parse("169.254.1.1");
    let via2 = parse("169.254.2.2");
    let dev1 = Interface::name("eth0");
    let dev2 = Interface::name("eth1");
    let mut endpoints = SortedMap::new();
    endpoints.insert(ArcId(1), (via1, dev1.clone()));
    endpoints.insert(ArcId(2), (via2, dev2.clone()));

    let paths = vec![path(1, 10), path(1, 15), path(2, 20)];

    let target = route_target(&paths, &endpoints, None);
    let RouteTarget::Multipath(nexthops) = target else {
        panic!("expected a multipath target, got {target:?}");
    };
    assert_eq!(
        nexthops.len(),
        2,
        "the two arc-1 paths must collapse into a single nexthop: {nexthops:?}"
    );
    let best = effective_cost(Cost::Finite(10));
    assert_eq!(
        nexthops,
        vec![
            Nexthop { via: via1, dev: dev1, weight: nexthop_weight(Cost::Finite(10), best) },
            Nexthop { via: via2, dev: dev2, weight: nexthop_weight(Cost::Finite(20), best) },
        ]
    );
}

#[test]
fn route_target_collapses_single_gateway_to_plain_gateway() {
    let via = parse("169.254.9.9");
    let dev = Interface::name("eth0");
    let mut endpoints = SortedMap::new();
    endpoints.insert(ArcId(1), (via, dev.clone()));

    let paths = vec![path(1, 10), path(1, 25)];
    let target = route_target(&paths, &endpoints, None);
    assert_eq!(target, RouteTarget::Gateway { via, dev, src: None });
}

#[test]
fn dead_and_unknown_paths_lead_nowhere() {
    let mut endpoints = SortedMap::new();
    endpoints.insert(ArcId(1), (parse("169.254.9.9"), Interface::name("eth0")));
    let dead = RoutePath { arc: ArcId(1), cost: Cost::Dead, nodes_inside: 0 };
    assert_eq!(
        route_target(&vec![dead, path(2, 10)], &endpoints, None),
        RouteTarget::Unreachable
    );
}

fn snapshot_of(entries: Vec<(HCoord, RoutePath)>, levels: usize) -> RouteSnapshot {
    let mut snapshot = RouteSnapshot { levels: Vec::new() };
    for _ in 0..levels {
        snapshot.levels.push(Vec::new());
    }
    for (destination, path) in entries {
        snapshot.levels[destination.level].push(RouteEntry { destination, paths: vec![path] });
    }
    snapshot
}

#[test]
fn virtual_naddr_suppresses_both_identity_and_route_installation() {
    let topology = Topology::new(vec![4, 2]).unwrap();
    let virtual_naddr = Naddr::new_allowing_virtual(topology.clone(), vec![4, 0]).unwrap();
    assert!(virtual_naddr.is_virtual());

    let installer = RouteInstaller::new(virtual_naddr, 200, 9_990);
    assert!(installer.install_identity().expect("must not error, just skip").is_none());

    let snapshot = snapshot_of(vec![(HCoord::new(0, 1), path(1, 10))], 2);
    assert!(installer.apply(&snapshot).is_none());

    let real_naddr = Naddr::new(topology, vec![1, 0]).unwrap();
    let real_installer = RouteInstaller::new(real_naddr, 200, 9_990);
    let plan = real_installer.install_identity().expect("installs normally").unwrap();
    assert!(!plan.ops.is_empty());
    assert_eq!(AppliedDelta::default(), AppliedDelta { added: 0, changed: 0, removed: 0 });
}

#[test]
fn realize_transitions_a_virtual_installer_to_real_in_place() {
    let topology = Topology::new(vec![4, 2]).unwrap();
    let virtual_naddr = Naddr::new_allowing_virtual(topology.clone(), vec![4, 0]).unwrap();
    let mut installer = RouteInstaller::new(virtual_naddr, 200, 9_990);
    installer.set_arc_endpoint(ArcId(1), parse("169.254.1.1"), Interface::name("eth0"));
    assert!(installer.install_identity().unwrap().is_none());

    installer.realize(Naddr::new(topology, vec![1, 0]).unwrap());
    let plan = installer.install_identity().unwrap().expect("now real");
    assert!(!plan.ops.is_empty());
    installer.identity_installed(plan);

    let snapshot = snapshot_of(vec![(HCoord::new(0, 1), path(1, 10))], 2);
    let plan = installer.apply(&snapshot).unwrap();
    assert_eq!(plan.delta.added, 1);
    match &plan.ops[0] {
        KernelOp::AddRoute(route) => assert_eq!(
            route.target,
            RouteTarget::Gateway {
                via: parse("169.254.1.1"),
                dev: Interface::name("eth0"),
                src: Some(parse("10.0.0.1")),
            }
        ),
        other => panic!("expected an added route, got {other:?}"),
    }
}

#[test]
fn apply_skips_unencodable_entry_and_withdraws_its_previous_route() {
    let topology = Topology::new(vec![4, 2, 2, 2]).unwrap();
    let naddr = Naddr::new(topology, vec![1, 0, 1, 0]).unwrap();
    let mut installer = RouteInstaller::new(naddr, 200, 9_990);

    let stable = HCoord::new(1, 1);
    let stale = HCoord::new(2, 0);

    let baseline = snapshot_of(vec![(stable, path(1, 10)), (stale, path(2, 10))], 4);
    let plan = installer.apply(&baseline).unwrap();
    assert_eq!(installer.commit(plan).added, 2, "both valid destinations install");

    let fresh = HCoord::new(0, 3);
    let corrupt = HCoord::new(2, 7);
    let next = snapshot_of(
        vec![(fresh, path(3, 10)), (stable, path(1, 10)), (corrupt, path(4, 10))],
        4,
    );
    let plan = installer.apply(&next).expect("one unencodable entry must not abort");
    assert_eq!(plan.delta.added, 1, "fresh is added");
    assert_eq!(plan.delta.changed, 0, "stable is unchanged");
    assert_eq!(plan.delta.removed, 1, "stale is withdrawn");
    assert_eq!(plan.ops.len(), 2);
    assert!(matches!(&plan.ops[0], KernelOp::AddRoute(spec) if spec.table == 200));
    assert!(matches!(&plan.ops[1], KernelOp::RemoveRoute(key) if key.table == 200));
    installer.commit(plan);

    let again = installer.apply(&next).unwrap();
    assert!(again.ops.is_empty(), "a second reconciliation asks nothing");
}

#[test]
fn a_changed_way_is_replaced_and_a_later_entry_counts() {
    let topology = Topology::new(vec![4, 2]).unwrap();
    let mut installer =
        RouteInstaller::new(Naddr::new(topology, vec![1, 0]).unwrap(), 200, 9_990);
    installer.set_arc_endpoint(ArcId(1), parse("169.254.1.1"), Interface::name("eth0"));
    let hc = HCoord::new(0, 2);
    let plan = installer
        .apply(&snapshot_of(vec![(hc, path(9, 5)), (hc, path(1, 10))], 2))
        .unwrap();
    assert_eq!(plan.ops.len(), 1);
    assert!(matches!(&plan.ops[0], KernelOp::AddRoute(r) if matches!(r.target, RouteTarget::Gateway { .. })));
    installer.commit(plan);
    installer.clear_arc_endpoint(ArcId(1));
    let plan = installer.apply(&snapshot_of(vec![(hc, path(1, 10))], 2)).unwrap();
    assert_eq!(plan.delta, AppliedDelta { added: 0, changed: 1, removed: 0 });
    assert!(matches!(&plan.ops[0], KernelOp::ChangeRoute(r) if r.target == RouteTarget::Unreachable));
}

#[test]
fn teardown_takes_back_what_was_installed_last_things_first() {
    let topology = Topology::new(vec![4, 2]).unwrap();
    let mut installer =
        RouteInstaller::new(Naddr::new(topology, vec![1, 0]).unwrap(), 200, 9_990);
    let plan = installer.install_identity().unwrap().unwrap();
    let address = Ipv4Net::host(parse("10.0.0.1"));
    let rule = RuleSpec { table: 200, priority: 9_990, selector: RuleSelector::Any };
    assert_eq!(
        plan.ops,
        vec![
            KernelOp::AddAddress { dev: Interface::name("lo"), address },
            KernelOp::AddRule(rule),
        ]
    );
    installer.identity_installed(plan);
    let plan = installer
        .apply(&snapshot_of(vec![(HCoord::new(1, 1), path(1, 1)), (HCoord::new(0, 2), path(1, 1))], 2))
        .unwrap();
    installer.commit(plan);
    let removed = installer.teardown_routes();
    assert_eq!(removed.len(), 2);
    assert!(removed.iter().all(|op| matches!(op, KernelOp::RemoveRoute(_))));
    assert_eq!(
        installer.teardown_identity(),
        vec![
            KernelOp::RemoveRule(rule),
            KernelOp::RemoveAddress { dev: Interface::name("lo"), address },
        ]
    );
    assert!(installer.teardown_routes().is_empty());
    assert!(installer.teardown_identity().is_empty());
}

#[test]
fn an_empty_snapshot_asks_nothing_at_first() {
    let topology = Topology::new(vec![4, 2]).unwrap();
    let mut installer =
        RouteInstaller::new(Naddr::new(topology, vec![1, 0]).unwrap(), 200, 9_990);
    let plan = installer.apply(&snapshot_of(vec![], 2)).unwrap();
    assert!(plan.ops.is_empty());
    assert_eq!(installer.commit(plan), AppliedDelta { added: 0, changed: 0, removed: 0 });
    assert!(installer.teardown_routes().is_empty());
}

#[test]
fn an_address_that_does_not_fit_is_not_installed() {
    let wide = Topology::new(vec![2u32; 23]).unwrap();
    let installer = RouteInstaller::new(Naddr::new(wide, vec![0u32; 23]).unwrap(), 200, 9_990);
    assert!(installer.install_identity().is_err());
}
