use ntkd::node::dispatch::{
    module_for, select_identity, Call, Dispatcher, Module, Selection, Target, UnicastId,
};
use ntkd::node::ip_route::{
    add_neighbor, cleanup_neighbor_routes, linklocal_net, neighbor_route, neighbor_route_key,
    needs_neighbor_rule, parse_addr, NEIGHBOR_ROUTE_TABLE, NEIGHBOR_RULE_PRIORITY,
};
use ntkd::kernel::routes::KernelOp;
use ntkd::net::{Interface, Ipv4Addr, RouteTarget, RuleSelector, RuleSpec};
use ntkd::node::peers::PeerLinks;
use ntkd::node::registry::{LinkId, LinkRegistry};
use ntkd::node::stubs::{
    after_attempt, arc_for_caller, caller_for_id, deadline_after, dial_start, empty_caller,
    gateway_link, level_on_the_wire, missing_arcs, typed_reply, CallerContext, DialStart,
    RespValue, RetryStep, RpcError, TcpDialer, LAZY_LINK_DIAL_RETRY_BUDGET_MILLIS,
    LAZY_LINK_DIAL_RETRY_INTERVAL_MILLIS,
};
use ntkd::node::wire::{
    decode_caller_id, decode_identity_id, encode_caller_id, encode_identity_id, IdentityId, NodeId,
    TypedValue,
};
use ntkd::qspn::{ArcId, RouteEntry, RoutePath, RouteSnapshot};
use ntkd::space::{Cost, HCoord};

fn node_id(raw: i32) -> NodeId {
    NodeId::from_raw(raw).unwrap()
}

#[test]
fn an_empty_unicast_id_selects_main() {
    let main = IdentityId(1);
    assert_eq!(
        select_identity(&Ok(UnicastId::MainIdentity), main).unwrap(),
        Selection::Main
    );
}

#[test]
fn an_identity_aware_unicast_id_naming_main_selects_main() {
    let main = IdentityId(1);
    let id = Ok(UnicastId::IdentityAware(encode_identity_id(main)));
    assert_eq!(select_identity(&id, main).unwrap(), Selection::Main);
}

#[test]
fn an_identity_aware_unicast_id_naming_another_identity_selects_that_identity_not_main() {
    let main = IdentityId(1);
    let other = IdentityId(2);
    let id = Ok(UnicastId::IdentityAware(encode_identity_id(other)));
    assert_eq!(select_identity(&id, main).unwrap(), Selection::Secondary(other));
}

#[test]
fn a_whole_node_unicast_id_is_rejected_on_an_identity_scoped_call() {
    let main = IdentityId(1);
    let id = Ok(UnicastId::WholeNode(encode_identity_id(main)));
    assert_eq!(
        select_identity(&id, main).unwrap_err().message,
        "Request.unicast_id: WholeNode is not valid for an identity-scoped call"
    );
}

#[test]
fn an_unreadable_unicast_id_is_rejected() {
    let main = IdentityId(1);
    assert_eq!(
        select_identity(&Err("bad".to_string()), main).unwrap_err().message,
        "Request.unicast_id: bad"
    );
    let id = Ok(UnicastId::IdentityAware(TypedValue::new("ntkd.IdentityId", vec![1])));
    assert_eq!(
        select_identity(&id, main).unwrap_err().message,
        "Request.unicast_id: IdentityAware payload is not a valid identity id"
    );
}

#[test]
fn an_empty_unicast_id_resolves_the_main_stack() {
    let d = Dispatcher::new("main");
    let resolved = d.resolve_stack(&Ok(UnicastId::MainIdentity), IdentityId(1)).unwrap();
    assert_eq!(*resolved, "main");
}

#[test]
fn a_registered_second_identity_resolves_to_its_own_stack_not_main() {
    let mut d = Dispatcher::new("main");
    d.register_identity(IdentityId(2), "second");
    let id = Ok(UnicastId::IdentityAware(encode_identity_id(IdentityId(2))));
    assert_eq!(*d.resolve_stack(&id, IdentityId(1)).unwrap(), "second");
    d.replace_identity_stack("moved");
    assert_eq!(*d.resolve_stack(&id, IdentityId(1)).unwrap(), "second");
    assert_eq!(*d.resolve_stack(&id, IdentityId(2)).unwrap(), "moved");
}

#[test]
fn an_identity_aware_unicast_id_naming_an_unregistered_identity_is_rejected() {
    let d = Dispatcher::new("main");
    let id = Ok(UnicastId::IdentityAware(encode_identity_id(IdentityId(100))));
    assert_eq!(
        d.resolve_stack(&id, IdentityId(1)).unwrap_err().message,
        "Request.unicast_id: no locally-hosted identity with id 100"
    );
}

#[test]
fn unregistering_a_second_identity_makes_it_unknown_again() {
    let mut d = Dispatcher::new("main");
    d.register_identity(IdentityId(2), "second");
    d.unregister_identity(IdentityId(2));
    let id = Ok(UnicastId::IdentityAware(encode_identity_id(IdentityId(2))));
    assert!(d.resolve_stack(&id, IdentityId(1)).is_err());
}

#[test]
fn calls_reach_the_module_they_are_for() {
    let d = Dispatcher::new("main");
    let main = IdentityId(1);
    let refused = Err("bad".to_string());
    assert_eq!(
        d.handle(None, &refused, main).unwrap_err().message,
        "MethodCall with no oneof arm set"
    );
    assert!(matches!(
        d.handle(Some(Call::NeighborhoodNop), &refused, main),
        Ok(Target::Neighborhood)
    ));
    assert!(matches!(
        d.handle(Some(Call::IdentityGetPeerMainId), &refused, main),
        Ok(Target::Identity)
    ));
    assert!(d.handle(Some(Call::QspnSendEtp), &refused, main).is_err());
    assert!(matches!(
        d.handle(Some(Call::QspnSendEtp), &Ok(UnicastId::MainIdentity), main),
        Ok(Target::Stack(Module::Qspn, &"main"))
    ));
    assert_eq!(module_for(Call::PeersAskParticipantMaps), Module::Peers);
    assert_eq!(module_for(Call::CoordinatorExecuteFinishEnter), Module::Coordinator);
    assert_eq!(module_for(Call::HookingRouteMigResponse), Module::Hooking);
}

#[test]
fn ids_travel_and_are_not_confused() {
    for raw in [1, 2, 0x0102_0304, i32::MAX] {
        assert_eq!(decode_caller_id(&encode_caller_id(node_id(raw))), Some(node_id(raw)));
    }
    assert_eq!(encode_caller_id(node_id(0x0102_0304)).payload, vec![1, 2, 3, 4]);
    for raw in [0, 1, u64::MAX] {
        assert_eq!(decode_identity_id(&encode_identity_id(IdentityId(raw))), Some(IdentityId(raw)));
    }
    assert_eq!(decode_caller_id(&encode_identity_id(IdentityId(1))), None);
    assert_eq!(decode_identity_id(&encode_caller_id(node_id(1))), None);
    let tagged = |payload| TypedValue::new("ntkd.NeighbourId", payload);
    assert_eq!(decode_caller_id(&tagged(vec![0, 0, 0, 0])), None);
    assert_eq!(decode_caller_id(&tagged(vec![0x80, 0, 0, 0])), None);
    assert_eq!(decode_caller_id(&tagged(vec![0, 0, 1])), None);
    assert_eq!(NodeId::from_raw(0), None);
}

#[test]
fn linklocal_network_is_a_slash_16_not_a_host_route() {
    let net = linklocal_net(Ipv4Addr::parse("169.254.12.34").unwrap());
    assert_eq!(net.prefix_len, 16);
    assert_eq!(net.address, Ipv4Addr::parse("169.254.12.34").unwrap());
}

#[test]
fn neighbor_route_is_a_slash_32_on_link_route_via_the_right_device() {
    let neighbor = Ipv4Addr::parse("169.254.7.9").unwrap();
    let spec = neighbor_route("ntkd-mnr-rb", neighbor);
    assert_eq!(spec.destination.address, neighbor);
    assert_eq!(spec.destination.prefix_len, 32);
    assert_eq!(spec.table, NEIGHBOR_ROUTE_TABLE);
    assert_eq!(spec.target, RouteTarget::OnLink { dev: Interface::name("ntkd-mnr-rb") });
}

#[test]
fn removing_a_neighbor_targets_exactly_the_route_that_was_added() {
    let neighbor = Ipv4Addr::parse("169.254.7.9").unwrap();
    let added = neighbor_route("ntkd-mnr-rb", neighbor);
    let removed = neighbor_route_key(neighbor);
    assert_eq!(removed.destination, added.destination);
    assert_eq!(removed.table, added.table);
}

#[test]
fn neighbors_are_added_and_cleaned_up() {
    let rule = RuleSpec {
        table: NEIGHBOR_ROUTE_TABLE,
        priority: NEIGHBOR_RULE_PRIORITY,
        selector: RuleSelector::Any,
    };
    let other = RuleSpec { table: 254, priority: 1, selector: RuleSelector::Any };
    assert!(needs_neighbor_rule(&vec![other]));
    assert!(!needs_neighbor_rule(&vec![other, rule]));
    let neighbor = Ipv4Addr::parse("169.254.7.9").unwrap();
    let route = neighbor_route("eth0", neighbor);
    assert_eq!(
        add_neighbor("eth0", "169.254.7.9", &vec![]).unwrap(),
        vec![KernelOp::AddRule(rule), KernelOp::ChangeRoute(route.clone())]
    );
    assert_eq!(
        add_neighbor("eth0", "169.254.7.9", &vec![rule]).unwrap(),
        vec![KernelOp::ChangeRoute(route)]
    );
    assert_eq!(
        add_neighbor("eth0", "nowhere", &vec![]).unwrap_err().message,
        "invalid IPv4 address \"nowhere\""
    );
    assert!(parse_addr("169.254.7.9").is_ok());
    let key = neighbor_route_key(neighbor);
    assert_eq!(
        cleanup_neighbor_routes(&vec![key], &vec![other, rule]),
        vec![KernelOp::RemoveRoute(key), KernelOp::RemoveRule(rule)]
    );
}

#[test]
fn links_keep_their_ids_and_ids_are_not_reused() {
    let mut registry = LinkRegistry::new();
    let first = registry.link_for_neighbour(node_id(7), "aa", "eth0");
    assert_eq!(first, LinkId(1));
    assert_eq!(registry.link_for_neighbour(node_id(9), "aa", "eth1"), first);
    assert_eq!(registry.entry(first).unwrap().dev, "eth0");
    let second = registry.link_for_neighbour(node_id(8), "bb", "eth0");
    assert_eq!(second, LinkId(2));
    assert_eq!(registry.len(), 2);
    assert_eq!(registry.all().len(), 2);
    assert_eq!(registry.link_for_dev_and_mac("bb"), Some(second));
    assert_eq!(registry.link_for_dev_and_mac("cc"), None);
    registry.set_qspn_arc(second, ArcId(5));
    registry.set_qspn_arc(LinkId(77), ArcId(6));
    assert_eq!(registry.qspn_arc_of(second), Some(ArcId(5)));
    assert_eq!(registry.qspn_arc_of(first), None);
    assert_eq!(registry.link_of_qspn_arc(ArcId(5)), Some(second));
    assert_eq!(registry.link_of_qspn_arc(ArcId(6)), None);
    assert_eq!(registry.link_for_caller(&encode_caller_id(node_id(8))), Some(second));
    assert_eq!(arc_for_caller(&registry, Some(&encode_caller_id(node_id(8)))), Some(2));
    let gone = registry.remove("bb").unwrap();
    assert_eq!((gone.id, gone.qspn_arc), (second, Some(ArcId(5))));
    assert_eq!(registry.remove("bb"), None);
    assert_eq!(registry.entry(second), None);
    assert_eq!(registry.link_for_neighbour(node_id(8), "bb", "eth0"), LinkId(3));
    assert_eq!((first.hooking(), first.identities()), (1, 1));
}

#[test]
fn bad_links_are_retried_at_intervals() {
    let mut registry = LinkRegistry::new();
    let link = LinkId(1);
    assert!(registry.should_retry_bad_link(link, 1_000, 500));
    assert!(!registry.should_retry_bad_link(link, 1_499, 500));
    assert!(registry.should_retry_bad_link(LinkId(2), 1_499, 500));
    assert!(registry.should_retry_bad_link(link, 1_500, 500));
    assert!(!registry.should_retry_bad_link(link, 1_600, 500));
    assert!(registry.should_retry_bad_link(link, 1_600, 0));
}

#[test]
fn the_first_port_stays() {
    let mut links: PeerLinks<&str> = PeerLinks::new();
    assert_eq!(links.port(), None);
    links.set_port(269);
    links.set_port(1000);
    assert_eq!(links.port(), Some(269));
    links.insert(LinkId(2), "two");
    links.insert(LinkId(1), "one");
    assert_eq!(*links.all(), vec![(LinkId(1), "one"), (LinkId(2), "two")]);
    assert_eq!(links.get(LinkId(2)), Some(&"two"));
    links.remove(LinkId(2));
    assert_eq!(links.get(LinkId(2)), None);
}

#[test]
fn neighbours_are_dialled_until_the_deadline() {
    let mut links: PeerLinks<&str> = PeerLinks::new();
    assert_eq!(
        dial_start(&links, LinkId(1)),
        DialStart::NoPort(
            "PeerLinks::set_port was never called before a neighbour needed dialing".to_string()
        )
    );
    links.set_port(269);
    assert_eq!(dial_start(&links, LinkId(1)), DialStart::Dial(269));
    links.insert(LinkId(1), "open");
    assert_eq!(dial_start(&links, LinkId(1)), DialStart::Connected);
    let deadline = deadline_after(100, LAZY_LINK_DIAL_RETRY_BUDGET_MILLIS);
    assert_eq!(deadline, 5_100);
    assert_eq!(after_attempt(false, 5_099, deadline), RetryStep::Retry);
    assert_eq!(after_attempt(false, 5_100, deadline), RetryStep::GiveUp);
    assert_eq!(after_attempt(true, 9_999, deadline), RetryStep::Use);
    let mut now = 100;
    let mut attempts = 1;
    while after_attempt(false, now, deadline) == RetryStep::Retry {
        now += LAZY_LINK_DIAL_RETRY_INTERVAL_MILLIS;
        attempts += 1;
    }
    assert_eq!(attempts, 51);
    assert_eq!(deadline_after(u64::MAX, 1), u64::MAX);
    assert_eq!(TcpDialer::default().max_frame_length, 1 << 20);
    assert_eq!(TcpDialer::default().call_timeout_millis, 10_000);
}

#[test]
fn callers_say_who_they_are() {
    let caller = caller_for_id(node_id(9));
    assert_eq!(caller.src_nic, Some(encode_caller_id(node_id(9))));
    assert_eq!(empty_caller(), CallerContext { source_id: None, src_nic: None });
    let tv = TypedValue::new("x", vec![1]);
    assert_eq!(
        typed_reply(Some(RespValue::Typed(TypedValue::new("x", vec![1]))), "no"),
        Ok(tv)
    );
    assert_eq!(
        typed_reply(Some(RespValue::Other), "expected a typed reply"),
        Err(RpcError::Malformed("expected a typed reply".to_string()))
    );
    assert!(typed_reply(None, "no").is_err());
}

#[test]
fn a_gateway_needs_a_path_a_link_and_a_connection() {
    let mut registry = LinkRegistry::new();
    let link = registry.link_for_neighbour(node_id(7), "aa", "eth0");
    let hc = HCoord::new(0, 1);
    let path = RoutePath { arc: ArcId(4), cost: Cost::Finite(1), nodes_inside: 1 };
    let snapshot = RouteSnapshot {
        levels: vec![vec![RouteEntry { destination: hc, paths: vec![path] }]],
    };
    let mut links: PeerLinks<&str> = PeerLinks::new();
    assert_eq!(gateway_link(&snapshot, &registry, &links, hc), None);
    registry.set_qspn_arc(link, ArcId(4));
    assert_eq!(gateway_link(&snapshot, &registry, &links, hc), None);
    links.insert(link, "open");
    assert_eq!(gateway_link(&snapshot, &registry, &links, hc), Some(link));
    assert_eq!(gateway_link(&snapshot, &registry, &links, HCoord::new(3, 0)), None);
    assert_eq!(
        missing_arcs(&vec![ArcId(1), ArcId(2), ArcId(3)], &vec![false, true, false]),
        vec![ArcId(1), ArcId(3)]
    );
    assert_eq!(level_on_the_wire(3), 3);
    assert_eq!(level_on_the_wire(usize::MAX), i32::MAX);
}
