//! The neighbours on a link: the addresses and routes by which the kernel reaches them.
use vstd::prelude::*;
use vstd::string::*;
use crate::kernel::routes::{op_views, KernelOp, OpView};
use crate::net::{
    Interface, Ipv4Addr, Ipv4Net, RouteKey, RouteSpec, RouteTarget, RouteView, RuleSelector,
    RuleSpec, TargetView,
};
use crate::text::{debug_form, debug_text};

verus! {

/// The routing table of the routes to neighbours.
pub const NEIGHBOR_ROUTE_TABLE: u32 = 252;

/// The priority of the rule that leads to that table.
pub const NEIGHBOR_RULE_PRIORITY: u32 = 10_001;

/// The rule that leads to the table of the routes to neighbours.
pub open spec fn neighbor_rule() -> RuleSpec {
    RuleSpec {
        table: NEIGHBOR_ROUTE_TABLE,
        priority: NEIGHBOR_RULE_PRIORITY,
        selector: RuleSelector::Any,
    }
}

/// An address is not what it should be.
#[derive(Debug, PartialEq, Eq)]
pub struct MalformedAddress {
    /// What is wrong.
    pub message: String,
}

/// Reads a dotted address.
pub fn parse_addr(addr: &str) -> (r: Result<Ipv4Addr, MalformedAddress>)
    ensures
        r is Ok <==> exists|a: Ipv4Addr| #[trigger] a.dotted() == addr@,
        r is Ok ==> r->Ok_0.dotted() == addr@,
        r is Err ==> r->Err_0.message@ == "invalid IPv4 address "@ + debug_form(addr@),
{
    match Ipv4Addr::parse(addr) {
        Some(a) => Ok(a),
        None => {
            let mut message = String::from_str("invalid IPv4 address ");
            message.append(debug_text(addr).as_str());
            Err(MalformedAddress { message })
        },
    }
}

/// The network of a link-local address: all link-local addresses.
pub fn linklocal_net(addr: Ipv4Addr) -> (r: Ipv4Net)
    ensures
        r == (Ipv4Net { address: addr, prefix_len: 16 }),
{
    Ipv4Net { address: addr, prefix_len: 16 }
}

/// The route to a neighbour: straight out of the interface it is on.
pub open spec fn route_to_neighbor(dev: Seq<char>, neighbor: Ipv4Addr) -> RouteView {
    RouteView {
        destination: Ipv4Net { address: neighbor, prefix_len: 32 },
        table: NEIGHBOR_ROUTE_TABLE,
        target: TargetView::OnLink { dev },
    }
}

/// The route to a neighbour: straight out of the interface it is on.
pub fn neighbor_route(my_dev: &str, neighbor: Ipv4Addr) -> (r: RouteSpec)
    ensures
        r@ == route_to_neighbor(my_dev@, neighbor),
{
    RouteSpec {
        destination: Ipv4Net::host(neighbor),
        table: NEIGHBOR_ROUTE_TABLE,
        target: RouteTarget::OnLink { dev: Interface::name(my_dev) },
    }
}

/// What names the route to a neighbour in the kernel.
pub fn neighbor_route_key(neighbor: Ipv4Addr) -> (r: RouteKey)
    ensures
        r == (RouteKey {
            destination: Ipv4Net { address: neighbor, prefix_len: 32 },
            table: NEIGHBOR_ROUTE_TABLE,
        }),
{
    RouteKey { destination: Ipv4Net::host(neighbor), table: NEIGHBOR_ROUTE_TABLE }
}

/// Removing a neighbour names exactly the route that adding it installed, whatever the interface.
pub proof fn removal_names_the_added_route(dev: Seq<char>, neighbor: Ipv4Addr)
    ensures
        route_to_neighbor(dev, neighbor).key() == (RouteKey {
            destination: Ipv4Net { address: neighbor, prefix_len: 32 },
            table: NEIGHBOR_ROUTE_TABLE,
        }),
{
}

/// Whether the rule for neighbours must still be installed, given the rules that the kernel has.
pub fn needs_neighbor_rule(rules: &Vec<RuleSpec>) -> (r: bool)
    ensures
        r == !rules@.contains(neighbor_rule()),
{
    let rule = RuleSpec {
        table: NEIGHBOR_ROUTE_TABLE,
        priority: NEIGHBOR_RULE_PRIORITY,
        selector: RuleSelector::Any,
    };
    let mut i: usize = 0;
    while i < rules.len()
        invariant
            i <= rules@.len(),
            rule == neighbor_rule(),
            forall|j: int| 0 <= j < i ==> #[trigger] rules@[j] != rule,
        decreases rules@.len() - i,
    {
        if rules[i] == rule {
            assert(rules@[i as int] == neighbor_rule());
            return false;
        }
        i += 1;
    }
    true
}

/// How to reach a neighbour: the rule, unless it is installed, and then the route, which replaces
/// one to the same neighbour.
pub fn add_neighbor(my_dev: &str, neighbor_addr: &str, rules: &Vec<RuleSpec>) -> (r: Result<
    Vec<KernelOp>,
    MalformedAddress,
>)
    ensures
        r is Ok <==> exists|a: Ipv4Addr| #[trigger] a.dotted() == neighbor_addr@,
        r is Err ==> r->Err_0.message@ == "invalid IPv4 address "@ + debug_form(neighbor_addr@),
        forall|a: Ipv4Addr| #[trigger]
            a.dotted() == neighbor_addr@ ==> op_views(r->Ok_0@) == (if rules@.contains(
                neighbor_rule(),
            ) {
                seq![OpView::ChangeRoute(route_to_neighbor(my_dev@, a))]
            } else {
                seq![
                    OpView::AddRule(neighbor_rule()),
                    OpView::ChangeRoute(route_to_neighbor(my_dev@, a)),
                ]
            }),
{
    let neighbor = match parse_addr(neighbor_addr) {
        Ok(neighbor) => neighbor,
        Err(error) => {
            return Err(error);
        },
    };
    let mut ops: Vec<KernelOp> = Vec::new();
    let missing = needs_neighbor_rule(rules);
    if missing {
        ops.push(
            KernelOp::AddRule(
                RuleSpec {
                    table: NEIGHBOR_ROUTE_TABLE,
                    priority: NEIGHBOR_RULE_PRIORITY,
                    selector: RuleSelector::Any,
                },
            ),
        );
    }
    ops.push(KernelOp::ChangeRoute(neighbor_route(my_dev, neighbor)));
    proof {
        assert forall|a: Ipv4Addr| #[trigger] a.dotted() == neighbor_addr@ implies a == neighbor by {
            crate::net::dotted_tells_apart(a, neighbor);
        }
        if missing {
            assert(op_views(ops@) =~= seq![
                OpView::AddRule(neighbor_rule()),
                OpView::ChangeRoute(route_to_neighbor(my_dev@, neighbor)),
            ]);
        } else {
            assert(op_views(ops@) =~= seq![
                OpView::ChangeRoute(route_to_neighbor(my_dev@, neighbor)),
            ]);
        }
    }
    Ok(ops)
}

/// The requests to withdraw these routes, in their order.
pub open spec fn route_removals(routes: Seq<RouteKey>) -> Seq<OpView> {
    routes.map_values(|key: RouteKey| OpView::RemoveRoute(key))
}

/// The requests to withdraw those of the rules that lead to the table of the routes to neighbours,
/// in their order.
pub open spec fn rule_removals(rules: Seq<RuleSpec>) -> Seq<OpView>
    decreases rules.len(),
{
    if rules.len() == 0 {
        Seq::empty()
    } else {
        let before = rule_removals(rules.drop_last());
        if rules.last().table == NEIGHBOR_ROUTE_TABLE {
            before.push(OpView::RemoveRule(rules.last()))
        } else {
            before
        }
    }
}

/// The routes to neighbours stand in the table that their rule leads to, for every packet; each
/// leads to one address, straight out of the interface.
pub proof fn the_rule_leads_to_the_neighbours(dev: Seq<char>, neighbor: Ipv4Addr)
    ensures
        neighbor_rule().table == 252,
        neighbor_rule().priority == 10_001,
        neighbor_rule().selector is Any,
        route_to_neighbor(dev, neighbor).table == neighbor_rule().table,
        route_to_neighbor(dev, neighbor).destination.address == neighbor,
        route_to_neighbor(dev, neighbor).destination.prefix_len == 32,
        route_to_neighbor(dev, neighbor).target == (TargetView::OnLink { dev }),
{
}

/// Leaving no trace withdraws every route that stands in the table, and of the rules those that
/// lead to it, each as often as it stands, in their order, and nothing else.
pub proof fn just_the_neighbours_are_withdrawn(routes: Seq<RouteKey>, rules: Seq<RuleSpec>) -> (from:
    Seq<int>)
    ensures
        route_removals(routes).len() == routes.len(),
        forall|i: int|
            0 <= i < routes.len() ==> #[trigger] route_removals(routes)[i] == OpView::RemoveRoute(
                routes[i],
            ),
        rule_removals(rules).len() == from.len(),
        forall|k: int|
            0 <= k < from.len() ==> 0 <= #[trigger] from[k] < rules.len() && rules[from[k]].table
                == 252 && rule_removals(rules)[k] == OpView::RemoveRule(rules[from[k]]),
        forall|j: int, k: int| 0 <= j < k < from.len() ==> from[j] < from[k],
        forall|i: int|
            0 <= i < rules.len() && (#[trigger] rules[i]).table == 252 ==> from.contains(i),
    decreases rules.len(),
{
    if rules.len() == 0 {
        Seq::empty()
    } else {
        let n = rules.len() - 1;
        let front = rules.drop_last();
        let before = just_the_neighbours_are_withdrawn(routes, front);
        let from = if rules.last().table == 252 {
            before.push(n)
        } else {
            before
        };
        assert forall|k: int| 0 <= k < from.len() implies 0 <= #[trigger] from[k] < rules.len()
            && rules[from[k]].table == 252 && rule_removals(rules)[k] == OpView::RemoveRule(
            rules[from[k]],
        ) by {
            if k < before.len() {
                assert(before[k] == from[k]);
                assert(front[from[k]] == rules[from[k]]);
            }
        }
        assert forall|i: int| 0 <= i < rules.len() && (#[trigger] rules[i]).table
            == 252 implies from.contains(i) by {
            if i < n {
                assert(front[i] == rules[i]);
                assert(before.contains(i));
                let k = choose|k: int| 0 <= k < before.len() && before[k] == i;
                assert(from[k] == i);
            } else {
                assert(from[before.len() as int] == n);
            }
        }
        from
    }
}

/// How to leave no trace of the neighbours: first every route of their table is withdrawn, then
/// every rule that leads to it.
pub fn cleanup_neighbor_routes(routes: &Vec<RouteKey>, rules: &Vec<RuleSpec>) -> (ops: Vec<
    KernelOp,
>)
    ensures
        op_views(ops@) == route_removals(routes@) + rule_removals(rules@),
{
    let mut ops: Vec<KernelOp> = Vec::new();
    let mut i: usize = 0;
    while i < routes.len()
        invariant
            i <= routes@.len(),
            ops@.len() == i,
            forall|j: int|
                0 <= j < i ==> (#[trigger] ops@[j])@ == OpView::RemoveRoute(routes@[j]),
        decreases routes@.len() - i,
    {
        ops.push(KernelOp::RemoveRoute(routes[i]));
        i += 1;
    }
    assert(op_views(ops@) =~= route_removals(routes@));
    let ghost first = op_views(ops@);
    let mut j: usize = 0;
    assert(first + rule_removals(rules@.take(0)) =~= first);
    while j < rules.len()
        invariant
            j <= rules@.len(),
            op_views(ops@) == first + rule_removals(rules@.take(j as int)),
        decreases rules@.len() - j,
    {
        let ghost before = ops@;
        let rule = rules[j];
        assert(rules@.take(j + 1).drop_last() =~= rules@.take(j as int));
        if rule.table == NEIGHBOR_ROUTE_TABLE {
            ops.push(KernelOp::RemoveRule(rule));
            assert(op_views(ops@) =~= op_views(before).push(OpView::RemoveRule(rule)));
            assert(op_views(ops@) =~= first + rule_removals(rules@.take(j + 1)));
        }
        j += 1;
    }
    assert(rules@.take(rules@.len() as int) =~= rules@);
    ops
}

} // verus!
