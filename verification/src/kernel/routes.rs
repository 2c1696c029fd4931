//! One identity's routes in the kernel: what they should be, and which operations bring the kernel
//! there from what was last installed.
use vstd::prelude::*;
use vstd::string::*;
use crate::kernel::addressing::{
    destination_of, gnode_destination, host_address, packing, AddressingError,
};
use crate::net::{
    nexthop_views, Interface, Ipv4Addr, Ipv4Net, Nexthop, NexthopView, RouteKey, RouteSpec,
    RouteTarget, RouteView, RuleSelector, RuleSpec, TargetView,
};
use crate::qspn::{all_entries, ArcId, RouteEntry, RoutePath, RouteSnapshot};
use crate::sorted_map::{map_of, map_of_is_finite, ordered, ordered_is_the_list, SortedMap};
use crate::space::{Cost, HCoord, Naddr};

verus! {

/// How many operations of each kind one reconciliation took.
#[derive(Debug, Clone, Copy, PartialEq, Eq, Structural)]
pub struct AppliedDelta {
    /// Destinations that appeared.
    pub added: usize,
    /// Destinations whose way changed.
    pub changed: usize,
    /// Destinations that disappeared.
    pub removed: usize,
}

impl Default for AppliedDelta {
    fn default() -> (r: Self)
        ensures
            r == (AppliedDelta { added: 0, changed: 0, removed: 0 }),
    {
        AppliedDelta { added: 0, changed: 0, removed: 0 }
    }
}

/// The far end of a local arc: the neighbour's address and the interface it is reached on.
pub struct EndpointView {
    /// The neighbour's address.
    pub via: Ipv4Addr,
    /// The interface's name.
    pub dev: Seq<char>,
}

/// What the recorded endpoints say.
pub open spec fn endpoint_views(endpoints: Map<ArcId, (Ipv4Addr, Interface)>) -> Map<
    ArcId,
    EndpointView,
> {
    endpoints.map_values(|e: (Ipv4Addr, Interface)| EndpointView { via: e.0, dev: e.1@ })
}

/// A path whose first gateway is known.
pub struct UsableView {
    /// The gateway.
    pub via: Ipv4Addr,
    /// The interface's name.
    pub dev: Seq<char>,
    /// What the path costs.
    pub cost: Cost,
}

/// The paths that lead somewhere through a known gateway, in their order.
pub open spec fn usable_paths(
    paths: Seq<RoutePath>,
    endpoints: Map<ArcId, EndpointView>,
) -> Seq<UsableView>
    decreases paths.len(),
{
    if paths.len() == 0 {
        Seq::empty()
    } else {
        let before = usable_paths(paths.drop_last(), endpoints);
        let path = paths.last();
        if path.cost != Cost::Dead && endpoints.contains_key(path.arc) {
            before.push(
                UsableView {
                    via: endpoints[path.arc].via,
                    dev: endpoints[path.arc].dev,
                    cost: path.cost,
                },
            )
        } else {
            before
        }
    }
}

/// Some path of the list leaves through this gateway.
pub open spec fn has_gateway(paths: Seq<UsableView>, via: Ipv4Addr, dev: Seq<char>) -> bool {
    exists|i: int|
        0 <= i < paths.len() && (#[trigger] paths[i]).via == via && paths[i].dev == dev
}

/// Of the paths through one gateway the first.
pub open spec fn first_per_gateway(paths: Seq<UsableView>) -> Seq<UsableView>
    decreases paths.len(),
{
    if paths.len() == 0 {
        Seq::empty()
    } else {
        let before = first_per_gateway(paths.drop_last());
        let path = paths.last();
        if has_gateway(before, path.via, path.dev) {
            before
        } else {
            before.push(path)
        }
    }
}

/// A cost as a positive number.
pub open spec fn positive_cost(cost: Cost) -> nat {
    match cost {
        Cost::Finite(magnitude) => if magnitude == 0 {
            1
        } else {
            magnitude as nat
        },
        _ => 1,
    }
}

/// The least cost of the paths.
pub open spec fn least_cost(paths: Seq<UsableView>) -> nat
    decreases paths.len(),
{
    if paths.len() == 0 {
        u64::MAX as nat
    } else {
        let before = least_cost(paths.drop_last());
        let last = positive_cost(paths.last().cost);
        if last < before {
            last
        } else {
            before
        }
    }
}

/// The stored share of a path: 256 parts for one that costs `best`, proportionally fewer for a
/// dearer one, at least one part; the kernel stores the parts less one.
pub open spec fn share_of(cost: Cost, best: nat) -> int {
    let parts = (256 * best / positive_cost(cost)) as int;
    (if parts < 1 {
        1
    } else if parts > 256 {
        256
    } else {
        parts
    }) - 1
}

/// Where a destination with these paths is routed.
pub open spec fn target_of(
    paths: Seq<RoutePath>,
    endpoints: Map<ArcId, EndpointView>,
    src: Option<Ipv4Addr>,
) -> TargetView {
    let usable = first_per_gateway(usable_paths(paths, endpoints));
    if usable.len() == 0 {
        TargetView::Unreachable
    } else if usable.len() == 1 {
        TargetView::Gateway { via: usable[0].via, dev: usable[0].dev, src }
    } else {
        TargetView::Multipath(shares(usable, least_cost(usable)))
    }
}

/// The gateways with their shares.
pub open spec fn shares(usable: Seq<UsableView>, best: nat) -> Seq<NexthopView> {
    usable.map_values(
        |u: UsableView|
            NexthopView { via: u.via, dev: u.dev, weight: share_of(u.cost, best) as u8 },
    )
}

struct Usable {
    via: Ipv4Addr,
    dev: Interface,
    cost: Cost,
}

impl Usable {
    spec fn view(&self) -> UsableView {
        UsableView { via: self.via, dev: self.dev@, cost: self.cost }
    }
}

spec fn usable_views(v: Seq<Usable>) -> Seq<UsableView> {
    v.map_values(|u: Usable| u@)
}

fn resolve_usable(
    paths: &Vec<RoutePath>,
    endpoints: &SortedMap<ArcId, (Ipv4Addr, Interface)>,
) -> (r: Vec<Usable>)
    ensures
        usable_views(r@) == usable_paths(paths@, endpoint_views(endpoints@)),
        forall|i: int| 0 <= i < r@.len() ==> (#[trigger] r@[i]).cost != Cost::Dead,
{
    let mut r: Vec<Usable> = Vec::new();
    let mut i: usize = 0;
    let ghost known = endpoint_views(endpoints@);
    assert(usable_views(r@) =~= usable_paths(paths@.take(0), known));
    while i < paths.len()
        invariant
            i <= paths@.len(),
            known == endpoint_views(endpoints@),
            usable_views(r@) == usable_paths(paths@.take(i as int), known),
            forall|j: int| 0 <= j < r@.len() ==> (#[trigger] r@[j]).cost != Cost::Dead,
        decreases paths@.len() - i,
    {
        let path = paths[i];
        let ghost before = r@;
        assert(paths@.take(i + 1).drop_last() =~= paths@.take(i as int));
        if path.cost != Cost::Dead {
            match endpoints.get(&path.arc) {
                Some(endpoint) => {
                    let usable = Usable {
                        via: endpoint.0,
                        dev: endpoint.1.clone(),
                        cost: path.cost,
                    };
                    r.push(usable);
                    assert(usable_views(r@) =~= usable_views(before).push(usable@));
                },
                None => {},
            }
        }
        i += 1;
    }
    assert(paths@.take(paths@.len() as int) =~= paths@);
    r
}

fn gateway_among(list: &Vec<Usable>, via: Ipv4Addr, dev: &Interface) -> (r: bool)
    ensures
        r == has_gateway(usable_views(list@), via, dev@),
{
    let mut i: usize = 0;
    let ghost views = usable_views(list@);
    while i < list.len()
        invariant
            i <= list@.len(),
            views == usable_views(list@),
            forall|j: int|
                0 <= j < i ==> !((#[trigger] views[j]).via == via && views[j].dev == dev@),
        decreases list@.len() - i,
    {
        if list[i].via == via && list[i].dev.same(dev) {
            assert(views[i as int].via == via && views[i as int].dev == dev@);
            return true;
        }
        i += 1;
    }
    false
}

fn dedupe_by_gateway(usable: Vec<Usable>) -> (r: Vec<Usable>)
    requires
        forall|i: int| 0 <= i < usable@.len() ==> (#[trigger] usable@[i]).cost != Cost::Dead,
    ensures
        usable_views(r@) == first_per_gateway(usable_views(usable@)),
        forall|i: int| 0 <= i < r@.len() ==> (#[trigger] r@[i]).cost != Cost::Dead,
{
    let mut r: Vec<Usable> = Vec::new();
    let mut i: usize = 0;
    let ghost views = usable_views(usable@);
    assert(usable_views(r@) =~= first_per_gateway(views.take(0)));
    while i < usable.len()
        invariant
            i <= usable@.len(),
            views == usable_views(usable@),
            usable_views(r@) == first_per_gateway(views.take(i as int)),
            forall|j: int| 0 <= j < usable@.len() ==> (#[trigger] usable@[j]).cost != Cost::Dead,
            forall|j: int| 0 <= j < r@.len() ==> (#[trigger] r@[j]).cost != Cost::Dead,
        decreases usable@.len() - i,
    {
        let u = &usable[i];
        let ghost before = r@;
        assert(views.take(i + 1).drop_last() =~= views.take(i as int));
        assert(views.take(i + 1).last() == u@);
        if !gateway_among(&r, u.via, &u.dev) {
            let kept = Usable { via: u.via, dev: u.dev.clone(), cost: u.cost };
            r.push(kept);
            assert(usable_views(r@) =~= usable_views(before).push(kept@));
        }
        i += 1;
    }
    assert(views.take(views.len() as int) =~= views);
    r
}

/// A cost as a positive number.
pub fn effective_cost(cost: Cost) -> (r: u64)
    requires
        cost != Cost::Dead,
    ensures
        r == positive_cost(cost),
        r >= 1,
{
    match cost {
        Cost::Finite(magnitude) => if magnitude == 0 {
            1
        } else {
            magnitude
        },
        _ => 1,
    }
}

/// The stored share of a path that costs `cost` beside one that costs `best`.
pub fn nexthop_weight(cost: Cost, best: u64) -> (r: u8)
    requires
        cost != Cost::Dead,
    ensures
        r == share_of(cost, best as nat),
{
    let effective: u64 = effective_cost(cost);
    let parts: u128 = 256 * (best as u128) / (effective as u128);
    let bounded: u128 = if parts < 1 {
        1
    } else if parts > 256 {
        256
    } else {
        parts
    };
    (bounded - 1) as u8
}

proof fn share_is_a_byte(cost: Cost, best: nat)
    ensures
        0 <= share_of(cost, best) <= 255,
{
}

/// The way for one destination: none where no gateway is known, the gateway where there is one,
/// and a share for each where there are several.
pub fn route_target(
    paths: &Vec<RoutePath>,
    endpoints: &SortedMap<ArcId, (Ipv4Addr, Interface)>,
    src: Option<Ipv4Addr>,
) -> (r: RouteTarget)
    ensures
        r@ == target_of(paths@, endpoint_views(endpoints@), src),
{
    let usable = dedupe_by_gateway(resolve_usable(paths, endpoints));
    let ghost views = usable_views(usable@);
    if usable.len() == 0 {
        return RouteTarget::Unreachable;
    }
    if usable.len() == 1 {
        assert(views[0] == usable@[0]@);
        return RouteTarget::Gateway { via: usable[0].via, dev: usable[0].dev.clone(), src };
    }
    let mut best: u64 = u64::MAX;
    let mut i: usize = 0;
    while i < usable.len()
        invariant
            i <= usable@.len(),
            views == usable_views(usable@),
            best == least_cost(views.take(i as int)),
            forall|j: int| 0 <= j < usable@.len() ==> (#[trigger] usable@[j]).cost != Cost::Dead,
        decreases usable@.len() - i,
    {
        assert(views.take(i + 1).drop_last() =~= views.take(i as int));
        assert(views.take(i + 1).last() == usable@[i as int]@);
        let cost: u64 = effective_cost(usable[i].cost);
        if cost < best {
            best = cost;
        }
        i += 1;
    }
    assert(views.take(views.len() as int) =~= views);
    let mut nexthops: Vec<Nexthop> = Vec::new();
    let mut j: usize = 0;
    while j < usable.len()
        invariant
            j <= usable@.len(),
            views == usable_views(usable@),
            best == least_cost(views),
            nexthop_views(nexthops@) == shares(views.take(j as int), best as nat),
            forall|k: int| 0 <= k < usable@.len() ==> (#[trigger] usable@[k]).cost != Cost::Dead,
        decreases usable@.len() - j,
    {
        let u = &usable[j];
        let ghost before = nexthops@;
        let nexthop = Nexthop {
            via: u.via,
            dev: u.dev.clone(),
            weight: nexthop_weight(u.cost, best),
        };
        nexthops.push(nexthop);
        proof {
            share_is_a_byte(u.cost, best as nat);
            assert(nexthop_views(nexthops@) =~= nexthop_views(before).push(nexthop@));
            assert(views.take(j + 1) =~= views.take(j as int).push(u@));
            assert(shares(views.take(j + 1), best as nat) =~= shares(
                views.take(j as int),
                best as nat,
            ).push(nexthop@));
        }
        j += 1;
    }
    assert(views.take(views.len() as int) =~= views);
    RouteTarget::Multipath(nexthops)
}

/// A request to the kernel.
#[derive(Debug, PartialEq, Eq)]
pub enum KernelOp {
    /// Install a route.
    AddRoute(RouteSpec),
    /// Replace a route.
    ChangeRoute(RouteSpec),
    /// Withdraw a route.
    RemoveRoute(RouteKey),
    /// Put an address on an interface.
    AddAddress {
        /// The interface.
        dev: Interface,
        /// The address.
        address: Ipv4Net,
    },
    /// Take an address off an interface.
    RemoveAddress {
        /// The interface.
        dev: Interface,
        /// The address.
        address: Ipv4Net,
    },
    /// Install a rule.
    AddRule(RuleSpec),
    /// Withdraw a rule.
    RemoveRule(RuleSpec),
}

/// What a [`KernelOp`] asks.
pub enum OpView {
    /// Install a route.
    AddRoute(RouteView),
    /// Replace a route.
    ChangeRoute(RouteView),
    /// Withdraw a route.
    RemoveRoute(RouteKey),
    /// Put an address on an interface.
    AddAddress {
        /// The interface's name.
        dev: Seq<char>,
        /// The address.
        address: Ipv4Net,
    },
    /// Take an address off an interface.
    RemoveAddress {
        /// The interface's name.
        dev: Seq<char>,
        /// The address.
        address: Ipv4Net,
    },
    /// Install a rule.
    AddRule(RuleSpec),
    /// Withdraw a rule.
    RemoveRule(RuleSpec),
}

impl KernelOp {
    /// What it asks.
    pub open spec fn view(&self) -> OpView {
        match *self {
            KernelOp::AddRoute(route) => OpView::AddRoute(route@),
            KernelOp::ChangeRoute(route) => OpView::ChangeRoute(route@),
            KernelOp::RemoveRoute(key) => OpView::RemoveRoute(key),
            KernelOp::AddAddress { dev, address } => OpView::AddAddress { dev: dev@, address },
            KernelOp::RemoveAddress { dev, address } => OpView::RemoveAddress {
                dev: dev@,
                address,
            },
            KernelOp::AddRule(rule) => OpView::AddRule(rule),
            KernelOp::RemoveRule(rule) => OpView::RemoveRule(rule),
        }
    }
}

/// What a list of requests asks.
pub open spec fn op_views(ops: Seq<KernelOp>) -> Seq<OpView> {
    ops.map_values(|op: KernelOp| op@)
}

/// What a map of routes says.
pub open spec fn route_views(routes: Map<HCoord, RouteSpec>) -> Map<HCoord, RouteView> {
    routes.map_values(|r: RouteSpec| r@)
}

/// What a list of routes says.
pub open spec fn listing(order: Seq<(HCoord, RouteSpec)>) -> Seq<(HCoord, RouteView)> {
    order.map_values(|e: (HCoord, RouteSpec)| (e.0, e.1@))
}

/// The routes that these entries call for, seen from one node: each entry whose g-node has a
/// network gets one, and of two entries for one g-node the later counts.
pub open spec fn wanted_routes(
    entries: Seq<RouteEntry>,
    gsizes: Seq<u32>,
    positions: Seq<u32>,
    table: u32,
    endpoints: Map<ArcId, EndpointView>,
    src: Option<Ipv4Addr>,
) -> Map<HCoord, RouteView>
    decreases entries.len(),
{
    if entries.len() == 0 {
        Map::empty()
    } else {
        let before = wanted_routes(entries.drop_last(), gsizes, positions, table, endpoints, src);
        let entry = entries.last();
        match destination_of(gsizes, positions, entry.destination) {
            Ok(destination) => before.insert(
                entry.destination,
                RouteView { destination, table, target: target_of(entry.paths@, endpoints, src) },
            ),
            Err(_) => before,
        }
    }
}

/// The requests for routes that are new or have changed, in the order of the list.
pub open spec fn upserts(
    wanted: Seq<(HCoord, RouteView)>,
    applied: Map<HCoord, RouteView>,
) -> Seq<OpView>
    decreases wanted.len(),
{
    if wanted.len() == 0 {
        Seq::empty()
    } else {
        let before = upserts(wanted.drop_last(), applied);
        let (hc, route) = wanted.last();
        if !applied.contains_key(hc) {
            before.push(OpView::AddRoute(route))
        } else if applied[hc] != route {
            before.push(OpView::ChangeRoute(route))
        } else {
            before
        }
    }
}

/// The requests to withdraw the routes that are no longer wanted, in the order of the list.
pub open spec fn withdrawals(
    applied: Seq<(HCoord, RouteView)>,
    wanted: Map<HCoord, RouteView>,
) -> Seq<OpView>
    decreases applied.len(),
{
    if applied.len() == 0 {
        Seq::empty()
    } else {
        let before = withdrawals(applied.drop_last(), wanted);
        let (hc, route) = applied.last();
        if wanted.contains_key(hc) {
            before
        } else {
            before.push(OpView::RemoveRoute(route.key()))
        }
    }
}

/// How many of the requests install, replace and withdraw a route.
pub open spec fn op_counts(ops: Seq<OpView>) -> (nat, nat, nat)
    decreases ops.len(),
{
    if ops.len() == 0 {
        (0, 0, 0)
    } else {
        let (added, changed, removed) = op_counts(ops.drop_last());
        match ops.last() {
            OpView::AddRoute(_) => (added + 1, changed, removed),
            OpView::ChangeRoute(_) => (added, changed + 1, removed),
            OpView::RemoveRoute(_) => (added, changed, removed + 1),
            _ => (added, changed, removed),
        }
    }
}

/// One identity's routes: where it stands, whom it reaches, and what was last installed for it.
#[derive(Debug)]
pub struct RouteInstaller {
    my_naddr: Naddr,
    table: u32,
    rule_priority: u32,
    arc_endpoints: SortedMap<ArcId, (Ipv4Addr, Interface)>,
    applied: SortedMap<HCoord, RouteSpec>,
    identity_address: Option<Ipv4Net>,
}

/// What a [`RouteInstaller`] knows.
pub struct InstallerView {
    /// The g-node sizes of the topology.
    pub gsizes: Seq<u32>,
    /// The identity's positions.
    pub positions: Seq<u32>,
    /// The routing table.
    pub table: u32,
    /// The priority of the identity's rule.
    pub rule_priority: u32,
    /// The endpoints of the local arcs.
    pub endpoints: Map<ArcId, EndpointView>,
    /// The routes last installed, by g-node.
    pub applied: Map<HCoord, RouteView>,
    /// The identity's own address, once it is installed.
    pub identity_address: Option<Ipv4Net>,
}

impl InstallerView {
    /// Some position is not settled yet.
    pub open spec fn virtual_somewhere(self) -> bool {
        !crate::space::in_range(self.gsizes, 0, self.positions)
    }

    /// The routes that `snapshot` calls for.
    pub open spec fn wanted(self, snapshot: RouteSnapshot) -> Map<HCoord, RouteView> {
        wanted_routes(
            all_entries(snapshot.levels@),
            self.gsizes,
            self.positions,
            self.table,
            self.endpoints,
            match self.identity_address {
                Some(net) => Some(net.address),
                None => None,
            },
        )
    }

    /// The requests that bring the kernel from what was last installed to what `snapshot` calls
    /// for, each part by ascending g-node.
    pub open spec fn reconciliation(self, snapshot: RouteSnapshot) -> Seq<OpView> {
        let wanted = self.wanted(snapshot);
        upserts(ordered(wanted), self.applied) + withdrawals(ordered(self.applied), wanted)
    }

    /// The requests that withdraw every route.
    pub open spec fn withdrawal(self) -> Seq<OpView> {
        withdrawals(ordered(self.applied), Map::empty())
    }

    /// The requests that install the identity's address and then its rule.
    pub open spec fn installation(self, address: Ipv4Net) -> Seq<OpView> {
        seq![OpView::AddAddress { dev: "lo"@, address }, OpView::AddRule(self.rule())]
    }

    /// The requests that withdraw the identity's rule and address, where they are installed.
    pub open spec fn retirement(self) -> Seq<OpView> {
        match self.identity_address {
            None => Seq::empty(),
            Some(address) => seq![
                OpView::RemoveRule(self.rule()),
                OpView::RemoveAddress { dev: "lo"@, address },
            ],
        }
    }

    /// The identity's rule.
    pub open spec fn rule(self) -> RuleSpec {
        RuleSpec { table: self.table, priority: self.rule_priority, selector: RuleSelector::Any }
    }
}

/// How to bring the kernel to a snapshot, and what is installed once that is done.
#[derive(Debug)]
pub struct RoutePlan {
    /// The requests, in the order in which to make them.
    pub ops: Vec<KernelOp>,
    /// The routes that are installed afterwards.
    pub next: SortedMap<HCoord, RouteSpec>,
    /// How many requests of each kind there are.
    pub delta: AppliedDelta,
}

/// How to install an identity's address.
#[derive(Debug)]
pub struct IdentityPlan {
    /// The requests, in the order in which to make them.
    pub ops: Vec<KernelOp>,
    /// The address.
    pub address: Ipv4Net,
}

proof fn listing_maps_alike(order: Seq<(HCoord, RouteSpec)>)
    ensures
        map_of(listing(order)) == route_views(map_of(order)),
    decreases order.len(),
{
    if order.len() == 0 {
        assert(map_of(listing(order)) =~= route_views(map_of(order)));
    } else {
        listing_maps_alike(order.drop_last());
        assert(listing(order).drop_last() =~= listing(order.drop_last()));
        assert(map_of(listing(order)) =~= route_views(map_of(order)));
    }
}

proof fn count_one_more(ops: Seq<OpView>, op: OpView)
    ensures
        op_counts(ops.push(op)) == (match op {
            OpView::AddRoute(_) => (op_counts(ops).0 + 1, op_counts(ops).1, op_counts(ops).2),
            OpView::ChangeRoute(_) => (op_counts(ops).0, op_counts(ops).1 + 1, op_counts(ops).2),
            OpView::RemoveRoute(_) => (op_counts(ops).0, op_counts(ops).1, op_counts(ops).2 + 1),
            _ => op_counts(ops),
        }),
{
    assert(ops.push(op).drop_last() =~= ops);
}

impl RouteInstaller {
    /// What the installer knows.
    pub closed spec fn view(&self) -> InstallerView {
        InstallerView {
            gsizes: self.my_naddr.gsizes(),
            positions: self.my_naddr@,
            table: self.table,
            rule_priority: self.rule_priority,
            endpoints: endpoint_views(self.arc_endpoints@),
            applied: route_views(self.applied@),
            identity_address: self.identity_address,
        }
    }

    /// An installer that has installed nothing yet.
    pub fn new(my_naddr: Naddr, table: u32, rule_priority: u32) -> (r: RouteInstaller)
        ensures
            r@ == (InstallerView {
                gsizes: my_naddr.gsizes(),
                positions: my_naddr@,
                table,
                rule_priority,
                endpoints: Map::empty(),
                applied: Map::empty(),
                identity_address: None,
            }),
    {
        let r = RouteInstaller {
            my_naddr,
            table,
            rule_priority,
            arc_endpoints: SortedMap::new(),
            applied: SortedMap::new(),
            identity_address: None,
        };
        assert(r@.endpoints =~= Map::empty());
        assert(r@.applied =~= Map::empty());
        r
    }

    /// Moves the identity to `real_naddr`. Installs nothing by itself.
    pub fn realize(&mut self, real_naddr: Naddr)
        ensures
            final(self)@ == (InstallerView {
                gsizes: real_naddr.gsizes(),
                positions: real_naddr@,
                ..old(self)@
            }),
    {
        self.my_naddr = real_naddr;
    }

    /// Records the far end of `arc`.
    pub fn set_arc_endpoint(&mut self, arc: ArcId, via: Ipv4Addr, dev: Interface)
        ensures
            final(self)@ == (InstallerView {
                endpoints: old(self)@.endpoints.insert(arc, EndpointView { via, dev: dev@ }),
                ..old(self)@
            }),
    {
        let ghost before = self@;
        self.arc_endpoints.insert(arc, (via, dev));
        assert(self@.endpoints =~= before.endpoints.insert(arc, EndpointView { via, dev: dev@ }));
    }

    /// Forgets the far end of `arc`.
    pub fn clear_arc_endpoint(&mut self, arc: ArcId)
        ensures
            final(self)@ == (InstallerView {
                endpoints: old(self)@.endpoints.remove(arc),
                ..old(self)@
            }),
    {
        let ghost before = self@;
        let _ = self.arc_endpoints.remove(&arc);
        assert(self@.endpoints =~= before.endpoints.remove(arc));
    }

    /// How to install this identity's own address and its catch-all rule. Nothing is to be done
    /// while the position is not settled: its address would be that of another node.
    pub fn install_identity(&self) -> (r: Result<Option<IdentityPlan>, AddressingError>)
        ensures
            self@.virtual_somewhere() ==> r is Ok && r->Ok_0 is None,
            !self@.virtual_somewhere() ==> match packing(self@.gsizes, 0, self@.positions) {
                Err(error) => r is Err && r->Err_0 == error,
                Ok(address) => {
                    &&& r is Ok
                    &&& r->Ok_0 is Some
                    &&& r->Ok_0->Some_0.address == address
                    &&& op_views(r->Ok_0->Some_0.ops@) == seq![
                        OpView::AddAddress { dev: "lo"@, address },
                        OpView::AddRule(self@.rule()),
                    ]
                    &&& op_views(r->Ok_0->Some_0.ops@) == self@.installation(address)
                },
            },
    {
        if self.my_naddr.is_virtual() {
            return Ok(None);
        }
        let address = match host_address(&self.my_naddr) {
            Ok(address) => address,
            Err(error) => {
                return Err(error);
            },
        };
        let rule = RuleSpec {
            table: self.table,
            priority: self.rule_priority,
            selector: RuleSelector::Any,
        };
        let mut ops: Vec<KernelOp> = Vec::new();
        ops.push(KernelOp::AddAddress { dev: Interface::name("lo"), address });
        ops.push(KernelOp::AddRule(rule));
        assert(op_views(ops@) =~= seq![
            OpView::AddAddress { dev: "lo"@, address },
            OpView::AddRule(self@.rule()),
        ]);
        Ok(Some(IdentityPlan { ops, address }))
    }

    /// Records that the requests of `plan` have been carried out.
    pub fn identity_installed(&mut self, plan: IdentityPlan)
        ensures
            final(self)@ == (InstallerView {
                identity_address: Some(plan.address),
                ..old(self)@
            }),
    {
        self.identity_address = Some(plan.address);
    }

    fn wanted_now(&self, snapshot: &RouteSnapshot) -> (next: SortedMap<HCoord, RouteSpec>)
        ensures
            route_views(next@) == self@.wanted(*snapshot),
    {
        let src: Option<Ipv4Addr> = match self.identity_address {
            Some(net) => Some(net.address),
            None => None,
        };
        let ghost knows = self@;
        let mut next: SortedMap<HCoord, RouteSpec> = SortedMap::new();
        let mut l: usize = 0;
        assert(route_views(next@) =~= Map::empty());
        assert(all_entries(snapshot.levels@.take(0)) =~= Seq::empty());
        while l < snapshot.levels.len()
            invariant
                l <= snapshot.levels@.len(),
                knows == self@,
                src == (match knows.identity_address {
                    Some(net) => Some(net.address),
                    None => None,
                }),
                route_views(next@) == wanted_routes(
                    all_entries(snapshot.levels@.take(l as int)),
                    knows.gsizes,
                    knows.positions,
                    knows.table,
                    knows.endpoints,
                    src,
                ),
            decreases snapshot.levels@.len() - l,
        {
            let entries = &snapshot.levels[l];
            let ghost before = all_entries(snapshot.levels@.take(l as int));
            let mut i: usize = 0;
            assert(before + entries@.take(0) =~= before);
            while i < entries.len()
                invariant
                    i <= entries@.len(),
                    knows == self@,
                    src == (match knows.identity_address {
                        Some(net) => Some(net.address),
                        None => None,
                    }),
                    route_views(next@) == wanted_routes(
                        before + entries@.take(i as int),
                        knows.gsizes,
                        knows.positions,
                        knows.table,
                        knows.endpoints,
                        src,
                    ),
                decreases entries@.len() - i,
            {
                let entry = &entries[i];
                proof {
                    let grown = before + entries@.take(i + 1);
                    assert(grown.drop_last() =~= before + entries@.take(i as int));
                    assert(grown.last() == *entry);
                }
                match gnode_destination(&self.my_naddr, entry.destination) {
                    Ok(destination) => {
                        let route = RouteSpec {
                            destination,
                            table: self.table,
                            target: route_target(&entry.paths, &self.arc_endpoints, src),
                        };
                        let ghost was = next@;
                        next.insert(entry.destination, route);
                        assert(route_views(next@) =~= route_views(was).insert(
                            entry.destination,
                            route@,
                        ));
                    },
                    Err(_) => {},
                }
                i += 1;
            }
            proof {
                assert(entries@.take(entries@.len() as int) =~= entries@);
                assert(snapshot.levels@.take(l + 1).drop_last() =~= snapshot.levels@.take(
                    l as int,
                ));
            }
            l += 1;
        }
        assert(snapshot.levels@.take(snapshot.levels@.len() as int) =~= snapshot.levels@);
        next
    }

    /// How to bring the kernel from what was last installed to what `snapshot` calls for: only the
    /// routes that differ are touched. Nothing is to be done while the position is not settled,
    /// and what is installed then stays.
    pub fn apply(&self, snapshot: &RouteSnapshot) -> (r: Option<RoutePlan>)
        ensures
            r is None <==> self@.virtual_somewhere(),
            self@.applied.dom().finite(),
            r is Some ==> {
                let plan = r->Some_0;
                &&& route_views(plan.next@) == self@.wanted(*snapshot)
                &&& op_views(plan.ops@) == self@.reconciliation(*snapshot)
                &&& op_counts(op_views(plan.ops@)) == (
                    plan.delta.added as nat,
                    plan.delta.changed as nat,
                    plan.delta.removed as nat,
                )
            },
    {
        proof {
            listing_maps_alike(self.applied.order());
            map_of_is_finite(listing(self.applied.order()));
        }
        if self.my_naddr.is_virtual() {
            return None;
        }
        let next = self.wanted_now(snapshot);
        let mut ops: Vec<KernelOp> = Vec::new();
        let mut delta = AppliedDelta::default();
        let wanted = next.entries();
        let ghost wants = listing(wanted@);
        let ghost has = route_views(self.applied@);
        let mut i: usize = 0;
        assert(op_views(ops@) =~= upserts(wants.take(0), has));
        while i < wanted.len()
            invariant
                i <= wanted@.len(),
                wants == listing(wanted@),
                has == route_views(self.applied@),
                op_views(ops@) == upserts(wants.take(i as int), has),
                op_counts(op_views(ops@)) == (
                    delta.added as nat,
                    delta.changed as nat,
                    delta.removed as nat,
                ),
                delta.added + delta.changed <= i,
                delta.removed == 0,
            decreases wanted@.len() - i,
        {
            let hc = wanted[i].0;
            let route = &wanted[i].1;
            let ghost before = ops@;
            assert(wants.take(i + 1).drop_last() =~= wants.take(i as int));
            assert(wants.take(i + 1).last() == (hc, route@));
            match self.applied.get(&hc) {
                None => {
                    let op = KernelOp::AddRoute(route.clone());
                    ops.push(op);
                    delta.added = delta.added + 1;
                    proof {
                        count_one_more(op_views(before), op@);
                        assert(op_views(ops@) =~= op_views(before).push(op@));
                    }
                },
                Some(previous) => {
                    if !previous.same(route) {
                        let op = KernelOp::ChangeRoute(route.clone());
                        ops.push(op);
                        delta.changed = delta.changed + 1;
                        proof {
                            count_one_more(op_views(before), op@);
                            assert(op_views(ops@) =~= op_views(before).push(op@));
                        }
                    }
                },
            }
            i += 1;
        }
        assert(wants.take(wants.len() as int) =~= wants);
        let applied = self.applied.entries();
        let ghost had = listing(applied@);
        let ghost first = op_views(ops@);
        let ghost wish = route_views(next@);
        let mut j: usize = 0;
        assert(first + withdrawals(had.take(0), wish) =~= first);
        while j < applied.len()
            invariant
                j <= applied@.len(),
                had == listing(applied@),
                wish == route_views(next@),
                op_views(ops@) == first + withdrawals(had.take(j as int), wish),
                op_counts(op_views(ops@)) == (
                    delta.added as nat,
                    delta.changed as nat,
                    delta.removed as nat,
                ),
                delta.removed <= j,
            decreases applied@.len() - j,
        {
            let hc = applied[j].0;
            let ghost before = ops@;
            assert(had.take(j + 1).drop_last() =~= had.take(j as int));
            assert(had.take(j + 1).last() == (hc, applied@[j as int].1@));
            if !next.contains_key(&hc) {
                let op = KernelOp::RemoveRoute(applied[j].1.key());
                ops.push(op);
                delta.removed = delta.removed + 1;
                proof {
                    count_one_more(op_views(before), op@);
                    assert(op_views(ops@) =~= op_views(before).push(op@));
                    assert(op_views(ops@) =~= first + withdrawals(had.take(j + 1), wish));
                }
            }
            j += 1;
        }
        proof {
            assert(had.take(had.len() as int) =~= had);
            listing_maps_alike(wanted@);
            ordered_is_the_list(wants);
            listing_maps_alike(applied@);
            ordered_is_the_list(had);
        }
        Some(RoutePlan { ops, next, delta })
    }

    /// Records that the requests of `plan` have been carried out.
    pub fn commit(&mut self, plan: RoutePlan) -> (r: AppliedDelta)
        ensures
            final(self)@ == (InstallerView { applied: route_views(plan.next@), ..old(self)@ }),
            r == plan.delta,
    {
        self.applied = plan.next;
        plan.delta
    }

    /// Forgets every route and says how to withdraw them, first of the two steps of taking an
    /// identity down.
    pub fn teardown_routes(&mut self) -> (ops: Vec<KernelOp>)
        ensures
            old(self)@.applied.dom().finite(),
            final(self)@ == (InstallerView { applied: Map::empty(), ..old(self)@ }),
            op_views(ops@) == old(self)@.withdrawal(),
    {
        let mut ops: Vec<KernelOp> = Vec::new();
        let applied = self.applied.entries();
        let ghost had = listing(applied@);
        let mut j: usize = 0;
        assert(op_views(ops@) =~= withdrawals(had.take(0), Map::empty()));
        while j < applied.len()
            invariant
                j <= applied@.len(),
                had == listing(applied@),
                op_views(ops@) == withdrawals(had.take(j as int), Map::empty()),
            decreases applied@.len() - j,
        {
            let ghost before = ops@;
            let op = KernelOp::RemoveRoute(applied[j].1.key());
            ops.push(op);
            proof {
                assert(had.take(j + 1).drop_last() =~= had.take(j as int));
                assert(had.take(j + 1).last() == (applied@[j as int].0, applied@[j as int].1@));
                assert(op_views(ops@) =~= op_views(before).push(op@));
            }
            j += 1;
        }
        proof {
            assert(had.take(had.len() as int) =~= had);
            listing_maps_alike(applied@);
            ordered_is_the_list(had);
            map_of_is_finite(had);
        }
        self.applied = SortedMap::new();
        assert(self@.applied =~= Map::empty());
        ops
    }

    /// Forgets the identity's address and says how to withdraw its rule and the address, second of
    /// the two steps of taking an identity down.
    pub fn teardown_identity(&mut self) -> (ops: Vec<KernelOp>)
        ensures
            final(self)@ == (InstallerView { identity_address: None, ..old(self)@ }),
            op_views(ops@) == old(self)@.retirement(),
    {
        let mut ops: Vec<KernelOp> = Vec::new();
        match self.identity_address {
            None => {
                assert(op_views(ops@) =~= Seq::empty());
            },
            Some(address) => {
                let rule = RuleSpec {
                    table: self.table,
                    priority: self.rule_priority,
                    selector: RuleSelector::Any,
                };
                ops.push(KernelOp::RemoveRule(rule));
                ops.push(KernelOp::RemoveAddress { dev: Interface::name("lo"), address });
                assert(op_views(ops@) =~= seq![
                    OpView::RemoveRule(rule),
                    OpView::RemoveAddress { dev: "lo"@, address },
                ]);
            },
        }
        self.identity_address = None;
        ops
    }
}

} // verus!
