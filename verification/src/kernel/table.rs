//! What the installer's requests do to the kernel's routing table, and what follows from that.
use vstd::prelude::*;
use crate::kernel::addressing::{destination_of, networks_tell_gnodes_apart};
use crate::kernel::routes::{
    first_per_gateway, has_gateway, least_cost, op_counts, positive_cost, share_of, shares,
    target_of, upserts, usable_paths, wanted_routes, withdrawals, EndpointView, InstallerView,
    OpView, UsableView,
};
use crate::net::{Ipv4Addr, Ipv4Net, RouteKey, RouteView, RuleSelector, RuleSpec, TargetView};
use crate::qspn::{all_entries, ArcId, RouteEntry, RoutePath, RouteSnapshot};
use crate::sorted_map::{
    ascending, map_of, map_of_ascending, map_of_is_finite, ordered, ordered_is_the_list,
    ordered_lists_the_map, Key,
};
use crate::space::{valid_gsizes, Cost, HCoord};

verus! {

/// The table after one request.
pub open spec fn after_op(table: Map<RouteKey, TargetView>, op: OpView) -> Map<
    RouteKey,
    TargetView,
> {
    match op {
        OpView::AddRoute(route) => table.insert(route.key(), route.target),
        OpView::ChangeRoute(route) => table.insert(route.key(), route.target),
        OpView::RemoveRoute(key) => table.remove(key),
        _ => table,
    }
}

/// The table after these requests, made in their order.
pub open spec fn after_ops(table: Map<RouteKey, TargetView>, ops: Seq<OpView>) -> Map<
    RouteKey,
    TargetView,
>
    decreases ops.len(),
{
    if ops.len() == 0 {
        table
    } else {
        after_op(after_ops(table, ops.drop_last()), ops.last())
    }
}

/// Some route of the map has this key.
pub open spec fn routed(routes: Map<HCoord, RouteView>, key: RouteKey) -> bool {
    exists|hc: HCoord| #[trigger] routes.contains_key(hc) && routes[hc].key() == key
}

/// The table that holds exactly these routes.
pub open spec fn table_of(routes: Map<HCoord, RouteView>) -> Map<RouteKey, TargetView> {
    Map::new(
        |key: RouteKey| routed(routes, key),
        |key: RouteKey|
            routes[choose|hc: HCoord| #[trigger]
                routes.contains_key(hc) && routes[hc].key() == key].target,
    )
}

/// Over both maps, two routes have one key exactly where they are for one g-node.
pub open spec fn one_key_each(a: Map<HCoord, RouteView>, b: Map<HCoord, RouteView>) -> bool {
    &&& forall|x: HCoord, y: HCoord| #[trigger]
        a.contains_key(x) && #[trigger] a.contains_key(y) && a[x].key() == a[y].key() ==> x == y
    &&& forall|x: HCoord, y: HCoord| #[trigger]
        b.contains_key(x) && #[trigger] b.contains_key(y) && b[x].key() == b[y].key() ==> x == y
    &&& forall|x: HCoord, y: HCoord| #[trigger]
        a.contains_key(x) && #[trigger] b.contains_key(y) ==> (a[x].key() == b[y].key() <==> x
            == y)
}

proof fn table_entry(routes: Map<HCoord, RouteView>, hc: HCoord)
    requires
        one_key_each(routes, routes),
        routes.contains_key(hc),
    ensures
        table_of(routes).contains_key(routes[hc].key()),
        table_of(routes)[routes[hc].key()] == routes[hc].target,
{
    let key = routes[hc].key();
    assert(routed(routes, key));
    let other = choose|x: HCoord| #[trigger] routes.contains_key(x) && routes[x].key() == key;
    assert(other == hc);
}

/// Some route of the list has this key.
spec fn listed(list: Seq<(HCoord, RouteView)>, key: RouteKey) -> bool {
    exists|i: int| 0 <= i < list.len() && (#[trigger] list[i]).1.key() == key
}

/// Some route of the list has this key and is for a g-node outside `kept`.
spec fn dropped(
    list: Seq<(HCoord, RouteView)>,
    kept: Map<HCoord, RouteView>,
    key: RouteKey,
) -> bool {
    exists|i: int|
        0 <= i < list.len() && !kept.contains_key((#[trigger] list[i]).0) && list[i].1.key() == key
}

proof fn after_upserts(wanted: Seq<(HCoord, RouteView)>, applied: Map<HCoord, RouteView>)
    requires
        ascending(wanted),
        one_key_each(applied, map_of(wanted)),
    ensures
        ({
            let table = after_ops(table_of(applied), upserts(wanted, applied));
            &&& forall|k: RouteKey| #[trigger]
                table.contains_key(k) <==> (table_of(applied).contains_key(k) || listed(wanted, k))
            &&& forall|k: RouteKey| #[trigger]
                table.contains_key(k) && !listed(wanted, k) ==> table[k] == table_of(applied)[k]
            &&& forall|i: int|
                0 <= i < wanted.len() ==> table[(#[trigger] wanted[i]).1.key()]
                    == wanted[i].1.target
        }),
    decreases wanted.len(),
{
    let base = table_of(applied);
    if wanted.len() > 0 {
        let front = wanted.drop_last();
        let (hc, route) = wanted.last();
        let n = wanted.len() - 1;
        assert(forall|i: int| 0 <= i < front.len() ==> #[trigger] front[i] == wanted[i]);
        map_of_ascending(wanted);
        assert(ascending(front));
        map_of_ascending(front);
        assert forall|x: HCoord| #[trigger] map_of(front).contains_key(x) implies map_of(
            wanted,
        ).contains_key(x) && map_of(wanted)[x] == map_of(front)[x] by {
            let i = choose|i: int| 0 <= i < front.len() && (#[trigger] front[i]).0 == x;
            assert(wanted[i] == front[i]);
        }
        after_upserts(front, applied);
        let before = after_ops(base, upserts(front, applied));
        let all = upserts(wanted, applied);
        assert(wanted[n] == (hc, route));
        assert(map_of(wanted).contains_key(hc) && map_of(wanted)[hc] == route);
        // The last route's key is no earlier one's.
        assert forall|i: int| 0 <= i < front.len() implies (#[trigger] front[i]).1.key()
            != route.key() by {
            assert(wanted[i].0.rank() < wanted[n].0.rank());
            assert(map_of(wanted).contains_key(wanted[i].0));
            assert(map_of(wanted)[wanted[i].0] == wanted[i].1);
        }
        let table = after_ops(base, all);
        assert(!listed(front, route.key()));
        if applied.contains_key(hc) && applied[hc] == route {
            table_entry(applied, hc);
            assert(table == before);
            assert(before.contains_key(route.key()));
            assert(table[route.key()] == route.target);
        } else {
            assert(all.drop_last() =~= upserts(front, applied));
            assert(table == before.insert(route.key(), route.target));
        }
        assert forall|k: RouteKey| listed(wanted, k) <==> (listed(front, k) || k == route.key()) by {
            if listed(wanted, k) {
                let i = choose|i: int| 0 <= i < wanted.len() && (#[trigger] wanted[i]).1.key() == k;
                if i < n {
                    assert(front[i].1.key() == k);
                }
            }
            if listed(front, k) {
                let i = choose|i: int| 0 <= i < front.len() && (#[trigger] front[i]).1.key() == k;
                assert(wanted[i].1.key() == k);
            }
            assert(wanted[n].1.key() == route.key());
        }
        assert forall|i: int| 0 <= i < wanted.len() implies table[(#[trigger] wanted[i]).1.key()]
            == wanted[i].1.target by {
            if i < n {
                assert(front[i] == wanted[i]);
                assert(listed(front, front[i].1.key()));
            }
        }
    } else {
        assert(forall|k: RouteKey| !listed(wanted, k));
    }
}

proof fn after_withdrawals(
    table: Map<RouteKey, TargetView>,
    applied: Seq<(HCoord, RouteView)>,
    wanted: Map<HCoord, RouteView>,
)
    ensures
        ({
            let after = after_ops(table, withdrawals(applied, wanted));
            &&& forall|k: RouteKey| #[trigger]
                after.contains_key(k) <==> (table.contains_key(k) && !dropped(applied, wanted, k))
            &&& forall|k: RouteKey| #[trigger] after.contains_key(k) ==> after[k] == table[k]
        }),
    decreases applied.len(),
{
    if applied.len() > 0 {
        let front = applied.drop_last();
        let (hc, route) = applied.last();
        let n = applied.len() - 1;
        after_withdrawals(table, front, wanted);
        let all = withdrawals(applied, wanted);
        let prev = after_ops(table, withdrawals(front, wanted));
        let after = after_ops(table, all);
        if !wanted.contains_key(hc) {
            assert(all.drop_last() =~= withdrawals(front, wanted));
            assert(all.last() == OpView::RemoveRoute(route.key()));
            assert(after == prev.remove(route.key()));
        } else {
            assert(all == withdrawals(front, wanted));
            assert(after == prev);
        }
        assert forall|k: RouteKey| #[trigger]
            dropped(applied, wanted, k) <==> (dropped(front, wanted, k) || (!wanted.contains_key(hc)
                && k == route.key())) by {
            if dropped(applied, wanted, k) {
                let i = choose|i: int|
                    0 <= i < applied.len() && !wanted.contains_key((#[trigger] applied[i]).0)
                        && applied[i].1.key() == k;
                if i < n {
                    assert(front[i] == applied[i]);
                }
            }
            if dropped(front, wanted, k) {
                let i = choose|i: int|
                    0 <= i < front.len() && !wanted.contains_key((#[trigger] front[i]).0)
                        && front[i].1.key() == k;
                assert(applied[i] == front[i]);
            }
            assert(applied[n] == (hc, route));
        }
        assert forall|k: RouteKey| #[trigger] after.contains_key(k) <==> (table.contains_key(k)
            && !dropped(applied, wanted, k)) by {
            assert(prev.contains_key(k) <==> (table.contains_key(k) && !dropped(front, wanted, k)));
        }
        assert forall|k: RouteKey| #[trigger] after.contains_key(k) implies after[k]
            == table[k] by {
            assert(prev.contains_key(k));
        }
    } else {
        assert(forall|k: RouteKey| !dropped(applied, wanted, k));
    }
}

/// Requests in two parts are made one part after the other.
pub proof fn after_both(table: Map<RouteKey, TargetView>, a: Seq<OpView>, b: Seq<OpView>)
    ensures
        after_ops(table, a + b) == after_ops(after_ops(table, a), b),
    decreases b.len(),
{
    if b.len() == 0 {
        assert(a + b =~= a);
    } else {
        after_both(table, a, b.drop_last());
        assert((a + b).drop_last() =~= a + b.drop_last());
    }
}

/// Carried out on a table that holds exactly the routes last installed, the requests of one
/// reconciliation leave it holding exactly the routes wanted now.
pub proof fn reconciliation_reaches_the_wanted_table(
    applied: Map<HCoord, RouteView>,
    wanted: Map<HCoord, RouteView>,
)
    requires
        applied.dom().finite(),
        wanted.dom().finite(),
        one_key_each(applied, wanted),
    ensures
        after_ops(
            table_of(applied),
            upserts(ordered(wanted), applied) + withdrawals(ordered(applied), wanted),
        ) == table_of(wanted),
{
    ordered_lists_the_map(applied);
    ordered_lists_the_map(wanted);
    listed_reconciliation(ordered(applied), ordered(wanted));
}

proof fn listed_reconciliation(
    applied: Seq<(HCoord, RouteView)>,
    wanted: Seq<(HCoord, RouteView)>,
)
    requires
        ascending(applied),
        ascending(wanted),
        one_key_each(map_of(applied), map_of(wanted)),
    ensures
        after_ops(
            table_of(map_of(applied)),
            upserts(wanted, map_of(applied)) + withdrawals(applied, map_of(wanted)),
        ) == table_of(map_of(wanted)),
{
    let old_routes = map_of(applied);
    let new_routes = map_of(wanted);
    let base = table_of(old_routes);
    let middle = after_ops(base, upserts(wanted, old_routes));
    let after = after_ops(middle, withdrawals(applied, new_routes));
    let goal = table_of(new_routes);
    after_both(base, upserts(wanted, old_routes), withdrawals(applied, new_routes));
    after_upserts(wanted, old_routes);
    after_withdrawals(middle, applied, new_routes);
    map_of_ascending(applied);
    map_of_ascending(wanted);
    assert forall|k: RouteKey| #[trigger] after.contains_key(k) <==> goal.contains_key(k) by {
        if after.contains_key(k) {
            if !listed(wanted, k) {
                assert(routed(old_routes, k));
                let x = choose|x: HCoord| #[trigger]
                    old_routes.contains_key(x) && old_routes[x].key() == k;
                let i = choose|i: int| 0 <= i < applied.len() && (#[trigger] applied[i]).0 == x;
                assert(applied[i].1 == old_routes[x]);
                if new_routes.contains_key(x) {
                    let j = choose|j: int| 0 <= j < wanted.len() && (#[trigger] wanted[j]).0 == x;
                    assert(wanted[j].1.key() == k);
                    assert(listed(wanted, k));
                }
                assert(dropped(applied, new_routes, k));
            } else {
                let j = choose|j: int| 0 <= j < wanted.len() && (#[trigger] wanted[j]).1.key() == k;
                assert(new_routes.contains_key(wanted[j].0));
                assert(routed(new_routes, k));
            }
        }
        if goal.contains_key(k) {
            let y = choose|y: HCoord| #[trigger]
                new_routes.contains_key(y) && new_routes[y].key() == k;
            let j = choose|j: int| 0 <= j < wanted.len() && (#[trigger] wanted[j]).0 == y;
            assert(wanted[j].1.key() == k);
            assert(listed(wanted, k));
            if dropped(applied, new_routes, k) {
                let i = choose|i: int|
                    0 <= i < applied.len() && !new_routes.contains_key((#[trigger] applied[i]).0)
                        && applied[i].1.key() == k;
                assert(old_routes.contains_key(applied[i].0));
                assert(applied[i].0 == y);
            }
        }
    }
    assert forall|k: RouteKey| #[trigger] after.contains_key(k) implies after[k] == goal[k] by {
        assert(goal.contains_key(k));
        let y = choose|y: HCoord| #[trigger]
            new_routes.contains_key(y) && new_routes[y].key() == k;
        let j = choose|j: int| 0 <= j < wanted.len() && (#[trigger] wanted[j]).0 == y;
        assert(new_routes[y] == wanted[j].1);
        assert(middle[wanted[j].1.key()] == wanted[j].1.target);
        assert(one_key_each(new_routes, new_routes));
        table_entry(new_routes, y);
    }
    assert(after =~= goal);
}

/// The routes that one node wants at two times, from one position, have one key each, where every
/// level has at least two positions.
pub proof fn wanted_routes_have_one_key_each(
    before: Seq<RouteEntry>,
    after: Seq<RouteEntry>,
    gsizes: Seq<u32>,
    positions: Seq<u32>,
    table: u32,
    endpoints_before: Map<ArcId, EndpointView>,
    endpoints_after: Map<ArcId, EndpointView>,
    src_before: Option<Ipv4Addr>,
    src_after: Option<Ipv4Addr>,
)
    requires
        valid_gsizes(gsizes),
        forall|l: int| 0 <= l < gsizes.len() ==> #[trigger] gsizes[l] > 1,
        positions.len() == gsizes.len(),
    ensures
        one_key_each(
            wanted_routes(before, gsizes, positions, table, endpoints_before, src_before),
            wanted_routes(after, gsizes, positions, table, endpoints_after, src_after),
        ),
{
    let a = wanted_routes(before, gsizes, positions, table, endpoints_before, src_before);
    let b = wanted_routes(after, gsizes, positions, table, endpoints_after, src_after);
    wanted_destinations(before, gsizes, positions, table, endpoints_before, src_before);
    wanted_destinations(after, gsizes, positions, table, endpoints_after, src_after);
    assert forall|x: HCoord, y: HCoord| #[trigger]
        a.contains_key(x) && #[trigger] a.contains_key(y) && a[x].key() == a[y].key() implies x
        == y by {
        networks_tell_gnodes_apart(gsizes, positions, x, y);
    }
    assert forall|x: HCoord, y: HCoord| #[trigger]
        b.contains_key(x) && #[trigger] b.contains_key(y) && b[x].key() == b[y].key() implies x
        == y by {
        networks_tell_gnodes_apart(gsizes, positions, x, y);
    }
    assert forall|x: HCoord, y: HCoord| #[trigger]
        a.contains_key(x) && #[trigger] b.contains_key(y) implies (a[x].key() == b[y].key() <==> x
        == y) by {
        if a[x].key() == b[y].key() {
            networks_tell_gnodes_apart(gsizes, positions, x, y);
        }
    }
}

proof fn wanted_destinations(
    entries: Seq<RouteEntry>,
    gsizes: Seq<u32>,
    positions: Seq<u32>,
    table: u32,
    endpoints: Map<ArcId, EndpointView>,
    src: Option<Ipv4Addr>,
)
    ensures
        forall|hc: HCoord| #[trigger]
            wanted_routes(entries, gsizes, positions, table, endpoints, src).contains_key(hc)
                ==> {
                let route = wanted_routes(entries, gsizes, positions, table, endpoints, src)[hc];
                &&& destination_of(gsizes, positions, hc) is Ok
                &&& destination_of(gsizes, positions, hc)->Ok_0 == route.destination
                &&& route.table == table
            },
    decreases entries.len(),
{
    if entries.len() > 0 {
        wanted_destinations(entries.drop_last(), gsizes, positions, table, endpoints, src);
    }
}

/// A route is to be installed for the g-node.
pub open spec fn is_added(
    applied: Map<HCoord, RouteView>,
    wanted: Map<HCoord, RouteView>,
    hc: HCoord,
) -> bool {
    wanted.contains_key(hc) && !applied.contains_key(hc)
}

/// The g-node's route is to be replaced.
pub open spec fn is_changed(
    applied: Map<HCoord, RouteView>,
    wanted: Map<HCoord, RouteView>,
    hc: HCoord,
) -> bool {
    wanted.contains_key(hc) && applied.contains_key(hc) && applied[hc] != wanted[hc]
}

/// The g-node's route is to be withdrawn.
pub open spec fn is_removed(
    applied: Map<HCoord, RouteView>,
    wanted: Map<HCoord, RouteView>,
    hc: HCoord,
) -> bool {
    applied.contains_key(hc) && !wanted.contains_key(hc)
}

proof fn front_of_listing(list: Seq<(HCoord, RouteView)>)
    requires
        ascending(list),
        list.len() > 0,
    ensures
        ascending(list.drop_last()),
        !map_of(list.drop_last()).contains_key(list.last().0),
        map_of(list) == map_of(list.drop_last()).insert(list.last().0, list.last().1),
        map_of(list).dom().finite(),
{
    let front = list.drop_last();
    let n = list.len() - 1;
    assert(forall|i: int| 0 <= i < n ==> #[trigger] front[i] == list[i]);
    assert(ascending(front));
    map_of_ascending(front);
    map_of_is_finite(list);
    if map_of(front).contains_key(list.last().0) {
        let i = choose|i: int| 0 <= i < front.len() && (#[trigger] front[i]).0 == list.last().0;
        assert(list[i].0.rank() < list[n].0.rank());
    }
}

proof fn pushed_contains(ops: Seq<OpView>, op: OpView)
    ensures
        forall|x: OpView| #[trigger] ops.push(op).contains(x) <==> ops.contains(x) || x == op,
        op_counts(ops.push(op)) == match op {
            OpView::AddRoute(_) => (op_counts(ops).0 + 1, op_counts(ops).1, op_counts(ops).2),
            OpView::ChangeRoute(_) => (op_counts(ops).0, op_counts(ops).1 + 1, op_counts(ops).2),
            OpView::RemoveRoute(_) => (op_counts(ops).0, op_counts(ops).1, op_counts(ops).2 + 1),
            _ => op_counts(ops),
        },
{
    let all = ops.push(op);
    assert(all.drop_last() =~= ops);
    assert forall|x: OpView| #[trigger] all.contains(x) <==> ops.contains(x) || x == op by {
        if ops.contains(x) {
            let i = choose|i: int| 0 <= i < ops.len() && ops[i] == x;
            assert(all[i] == x);
        }
        if all.contains(x) && x != op {
            let i = choose|i: int| 0 <= i < all.len() && all[i] == x;
            assert(ops[i] == x);
        }
        assert(all[ops.len() as int] == op);
    }
}

proof fn upserts_are_exact(list: Seq<(HCoord, RouteView)>, applied: Map<HCoord, RouteView>)
    requires
        ascending(list),
    ensures
        ({
            let ops = upserts(list, applied);
            let wanted = map_of(list);
            let added = Set::new(|hc: HCoord| is_added(applied, wanted, hc));
            let changed = Set::new(|hc: HCoord| is_changed(applied, wanted, hc));
            &&& added.finite() && changed.finite()
            &&& op_counts(ops) == (added.len(), changed.len(), 0nat)
            &&& forall|op: OpView| #[trigger]
                ops.contains(op) <==> exists|hc: HCoord| #[trigger]
                    wanted.contains_key(hc) && ((is_added(applied, wanted, hc) && op
                        == OpView::AddRoute(wanted[hc])) || (is_changed(applied, wanted, hc) && op
                        == OpView::ChangeRoute(wanted[hc])))
        }),
    decreases list.len(),
{
    let ops = upserts(list, applied);
    let wanted = map_of(list);
    let added = Set::new(|hc: HCoord| is_added(applied, wanted, hc));
    let changed = Set::new(|hc: HCoord| is_changed(applied, wanted, hc));
    if list.len() == 0 {
        assert(added =~= Set::empty());
        assert(changed =~= Set::empty());
    } else {
        let front = list.drop_last();
        let (hc, route) = list.last();
        front_of_listing(list);
        upserts_are_exact(front, applied);
        let before = map_of(front);
        let ops_before = upserts(front, applied);
        let was_added = Set::new(|hc: HCoord| is_added(applied, before, hc));
        let was_changed = Set::new(|hc: HCoord| is_changed(applied, before, hc));
        assert(wanted[hc] == route);
        if !applied.contains_key(hc) {
            assert(added =~= was_added.insert(hc));
            assert(changed =~= was_changed);
            pushed_contains(ops_before, OpView::AddRoute(route));
        } else if applied[hc] != route {
            assert(added =~= was_added);
            assert(changed =~= was_changed.insert(hc));
            pushed_contains(ops_before, OpView::ChangeRoute(route));
        } else {
            assert(added =~= was_added);
            assert(changed =~= was_changed);
        }
        assert forall|op: OpView| #[trigger] ops.contains(op) <==> exists|x: HCoord| #[trigger]
            wanted.contains_key(x) && ((is_added(applied, wanted, x) && op == OpView::AddRoute(
                wanted[x],
            )) || (is_changed(applied, wanted, x) && op == OpView::ChangeRoute(wanted[x]))) by {
            if ops.contains(op) {
                if ops_before.contains(op) {
                    let x = choose|x: HCoord| #[trigger]
                        before.contains_key(x) && ((is_added(applied, before, x) && op
                            == OpView::AddRoute(before[x])) || (is_changed(applied, before, x)
                            && op == OpView::ChangeRoute(before[x])));
                    assert(wanted.contains_key(x) && wanted[x] == before[x]);
                } else {
                    assert(wanted.contains_key(hc));
                }
            }
            if exists|x: HCoord| #[trigger]
                wanted.contains_key(x) && ((is_added(applied, wanted, x) && op
                    == OpView::AddRoute(wanted[x])) || (is_changed(applied, wanted, x) && op
                    == OpView::ChangeRoute(wanted[x]))) {
                let x = choose|x: HCoord| #[trigger]
                    wanted.contains_key(x) && ((is_added(applied, wanted, x) && op
                        == OpView::AddRoute(wanted[x])) || (is_changed(applied, wanted, x) && op
                        == OpView::ChangeRoute(wanted[x])));
                if x != hc {
                    assert(before.contains_key(x) && wanted[x] == before[x]);
                }
            }
        }
    }
}

proof fn withdrawals_are_exact(list: Seq<(HCoord, RouteView)>, wanted: Map<HCoord, RouteView>)
    requires
        ascending(list),
    ensures
        ({
            let ops = withdrawals(list, wanted);
            let applied = map_of(list);
            let removed = Set::new(|hc: HCoord| is_removed(applied, wanted, hc));
            &&& removed.finite()
            &&& op_counts(ops) == (0nat, 0nat, removed.len())
            &&& forall|op: OpView| #[trigger]
                ops.contains(op) <==> exists|hc: HCoord| #[trigger]
                    applied.contains_key(hc) && is_removed(applied, wanted, hc) && op
                        == OpView::RemoveRoute(applied[hc].key())
        }),
    decreases list.len(),
{
    let ops = withdrawals(list, wanted);
    let applied = map_of(list);
    let removed = Set::new(|hc: HCoord| is_removed(applied, wanted, hc));
    if list.len() == 0 {
        assert(removed =~= Set::empty());
    } else {
        let front = list.drop_last();
        let (hc, route) = list.last();
        front_of_listing(list);
        withdrawals_are_exact(front, wanted);
        let before = map_of(front);
        let ops_before = withdrawals(front, wanted);
        let was_removed = Set::new(|hc: HCoord| is_removed(before, wanted, hc));
        assert(applied[hc] == route);
        if wanted.contains_key(hc) {
            assert(removed =~= was_removed);
        } else {
            assert(removed =~= was_removed.insert(hc));
            pushed_contains(ops_before, OpView::RemoveRoute(route.key()));
        }
        assert forall|op: OpView| #[trigger] ops.contains(op) <==> exists|x: HCoord| #[trigger]
            applied.contains_key(x) && is_removed(applied, wanted, x) && op
                == OpView::RemoveRoute(applied[x].key()) by {
            if ops.contains(op) {
                if ops_before.contains(op) {
                    let x = choose|x: HCoord| #[trigger]
                        before.contains_key(x) && is_removed(before, wanted, x) && op
                            == OpView::RemoveRoute(before[x].key());
                    assert(applied.contains_key(x) && applied[x] == before[x]);
                } else {
                    assert(applied.contains_key(hc));
                }
            }
            if exists|x: HCoord| #[trigger]
                applied.contains_key(x) && is_removed(applied, wanted, x) && op
                    == OpView::RemoveRoute(applied[x].key()) {
                let x = choose|x: HCoord| #[trigger]
                    applied.contains_key(x) && is_removed(applied, wanted, x) && op
                        == OpView::RemoveRoute(applied[x].key());
                if x != hc {
                    assert(before.contains_key(x) && applied[x] == before[x]);
                }
            }
        }
    }
}

proof fn counts_add_up(a: Seq<OpView>, b: Seq<OpView>)
    ensures
        op_counts(a + b) == (
            op_counts(a).0 + op_counts(b).0,
            op_counts(a).1 + op_counts(b).1,
            op_counts(a).2 + op_counts(b).2,
        ),
    decreases b.len(),
{
    if b.len() == 0 {
        assert(a + b =~= a);
    } else {
        counts_add_up(a, b.drop_last());
        assert((a + b).drop_last() =~= a + b.drop_last());
    }
}

/// A reconciliation asks exactly for what differs, and for each difference once: a route is
/// installed for each g-node that has none yet, replaced where it is another, and withdrawn where
/// none is wanted, the withdrawals last.
pub proof fn reconciliation_asks_for_the_differences(view: InstallerView, snapshot: RouteSnapshot)
    requires
        view.applied.dom().finite(),
    ensures
        ({
            let applied = view.applied;
            let wanted = view.wanted(snapshot);
            let ops = view.reconciliation(snapshot);
            &&& op_counts(ops) == (
                Set::new(|hc: HCoord| is_added(applied, wanted, hc)).len(),
                Set::new(|hc: HCoord| is_changed(applied, wanted, hc)).len(),
                Set::new(|hc: HCoord| is_removed(applied, wanted, hc)).len(),
            )
            &&& forall|op: OpView| #[trigger]
                ops.contains(op) <==> exists|hc: HCoord| #[trigger]
                    asked_for(applied, wanted, hc, op)
            &&& forall|i: int, j: int|
                0 <= i < j < ops.len() && (#[trigger] ops[i]) is RemoveRoute ==> (
                #[trigger] ops[j]) is RemoveRoute
        }),
{
    let applied = view.applied;
    let wanted = view.wanted(snapshot);
    wanted_is_finite(view, snapshot);
    ordered_lists_the_map(applied);
    ordered_lists_the_map(wanted);
    let first = upserts(ordered(wanted), applied);
    let second = withdrawals(ordered(applied), wanted);
    upserts_are_exact(ordered(wanted), applied);
    withdrawals_are_exact(ordered(applied), wanted);
    counts_add_up(first, second);
    let ops = first + second;
    assert forall|op: OpView| #[trigger] ops.contains(op) <==> first.contains(op)
        || second.contains(op) by {
        if ops.contains(op) {
            let i = choose|i: int| 0 <= i < ops.len() && ops[i] == op;
            if i < first.len() {
                assert(first[i] == op);
            } else {
                assert(second[i - first.len()] == op);
            }
        }
        if first.contains(op) {
            let i = choose|i: int| 0 <= i < first.len() && first[i] == op;
            assert(ops[i] == op);
        }
        if second.contains(op) {
            let i = choose|i: int| 0 <= i < second.len() && second[i] == op;
            assert(ops[first.len() + i] == op);
        }
    }
    assert forall|op: OpView| #[trigger] ops.contains(op) <==> exists|hc: HCoord| #[trigger]
        asked_for(applied, wanted, hc, op) by {
        if first.contains(op) {
            let hc = choose|hc: HCoord| #[trigger]
                wanted.contains_key(hc) && ((is_added(applied, wanted, hc) && op
                    == OpView::AddRoute(wanted[hc])) || (is_changed(applied, wanted, hc) && op
                    == OpView::ChangeRoute(wanted[hc])));
            assert(asked_for(applied, wanted, hc, op));
        }
        if second.contains(op) {
            let hc = choose|hc: HCoord| #[trigger]
                applied.contains_key(hc) && is_removed(applied, wanted, hc) && op
                    == OpView::RemoveRoute(applied[hc].key());
            assert(asked_for(applied, wanted, hc, op));
        }
        if exists|hc: HCoord| #[trigger] asked_for(applied, wanted, hc, op) {
            let hc = choose|hc: HCoord| #[trigger] asked_for(applied, wanted, hc, op);
            assert(wanted.contains_key(hc) || applied.contains_key(hc));
            assert(first.contains(op) || second.contains(op));
        }
    }
    assert forall|i: int, j: int|
        0 <= i < j < ops.len() && (#[trigger] ops[i]) is RemoveRoute implies (
    #[trigger] ops[j]) is RemoveRoute by {
        if i < first.len() {
            assert(first.contains(first[i]));
        }
        assert(second.contains(second[j - first.len()]));
    }
}

/// The request is what the g-node's difference calls for.
pub open spec fn asked_for(
    applied: Map<HCoord, RouteView>,
    wanted: Map<HCoord, RouteView>,
    hc: HCoord,
    op: OpView,
) -> bool {
    ||| is_added(applied, wanted, hc) && op == OpView::AddRoute(wanted[hc])
    ||| is_changed(applied, wanted, hc) && op == OpView::ChangeRoute(wanted[hc])
    ||| is_removed(applied, wanted, hc) && op == OpView::RemoveRoute(applied[hc].key())
}

proof fn wanted_is_finite(view: InstallerView, snapshot: RouteSnapshot)
    ensures
        view.wanted(snapshot).dom().finite(),
{
    let src = match view.identity_address {
        Some(net) => Some(net.address),
        None => None,
    };
    finitely_many_wanted(
        all_entries(snapshot.levels@),
        view.gsizes,
        view.positions,
        view.table,
        view.endpoints,
        src,
    );
}

/// Finitely many routes are wanted.
pub proof fn finitely_many_wanted(
    entries: Seq<RouteEntry>,
    gsizes: Seq<u32>,
    positions: Seq<u32>,
    table: u32,
    endpoints: Map<ArcId, EndpointView>,
    src: Option<Ipv4Addr>,
)
    ensures
        wanted_routes(entries, gsizes, positions, table, endpoints, src).dom().finite(),
    decreases entries.len(),
{
    if entries.len() > 0 {
        finitely_many_wanted(entries.drop_last(), gsizes, positions, table, endpoints, src);
    }
}

/// What the installer knows once a snapshot's requests are carried out is what the next
/// reconciliation starts from: the same snapshot again asks nothing of the kernel.
pub proof fn reconciling_twice_asks_nothing(view: InstallerView, snapshot: RouteSnapshot)
    ensures
        (InstallerView { applied: view.wanted(snapshot), ..view }).reconciliation(snapshot) == Seq::<
            OpView,
        >::empty(),
{
    let after = InstallerView { applied: view.wanted(snapshot), ..view };
    let applied = after.applied;
    assert(after.wanted(snapshot) == applied);
    wanted_is_finite(view, snapshot);
    ordered_lists_the_map(applied);
    map_of_ascending(ordered(applied));
    nothing_to_upsert(ordered(applied), applied);
    nothing_to_withdraw(ordered(applied), applied);
    assert(after.reconciliation(snapshot) =~= Seq::<OpView>::empty());
}

proof fn nothing_to_upsert(list: Seq<(HCoord, RouteView)>, applied: Map<HCoord, RouteView>)
    requires
        forall|i: int|
            0 <= i < list.len() ==> applied.contains_key((#[trigger] list[i]).0)
                && applied[list[i].0] == list[i].1,
    ensures
        upserts(list, applied) == Seq::<OpView>::empty(),
    decreases list.len(),
{
    if list.len() > 0 {
        let n = list.len() - 1;
        assert(applied.contains_key(list[n].0));
        assert(forall|i: int| 0 <= i < n ==> #[trigger] list.drop_last()[i] == list[i]);
        nothing_to_upsert(list.drop_last(), applied);
    }
}

proof fn nothing_to_withdraw(list: Seq<(HCoord, RouteView)>, wanted: Map<HCoord, RouteView>)
    requires
        forall|i: int| 0 <= i < list.len() ==> wanted.contains_key((#[trigger] list[i]).0),
    ensures
        withdrawals(list, wanted) == Seq::<OpView>::empty(),
    decreases list.len(),
{
    if list.len() > 0 {
        let n = list.len() - 1;
        assert(wanted.contains_key(list[n].0));
        assert(forall|i: int| 0 <= i < n ==> #[trigger] list.drop_last()[i] == list[i]);
        nothing_to_withdraw(list.drop_last(), wanted);
    }
}

/// Taking an identity down empties the table of its routes.
pub proof fn teardown_empties_the_table(applied: Map<HCoord, RouteView>)
    requires
        applied.dom().finite(),
    ensures
        after_ops(table_of(applied), withdrawals(ordered(applied), Map::empty())) == Map::<
            RouteKey,
            TargetView,
        >::empty(),
{
    let list = ordered(applied);
    let base = table_of(applied);
    let after = after_ops(base, withdrawals(list, Map::empty()));
    ordered_lists_the_map(applied);
    after_withdrawals(base, list, Map::empty());
    map_of_ascending(list);
    assert forall|k: RouteKey| !(#[trigger] after.contains_key(k)) by {
        if base.contains_key(k) {
            let x = choose|x: HCoord| #[trigger] applied.contains_key(x) && applied[x].key() == k;
            let i = choose|i: int| 0 <= i < list.len() && (#[trigger] list[i]).0 == x;
            assert(list[i].1.key() == k);
            assert(dropped(list, Map::empty(), k));
        }
    }
    assert(after =~= Map::empty());
}

proof fn every_route_is_withdrawn(list: Seq<(HCoord, RouteView)>)
    ensures
        withdrawals(list, Map::empty()) == list.map_values(
            |e: (HCoord, RouteView)| OpView::RemoveRoute(e.1.key()),
        ),
    decreases list.len(),
{
    let all = list.map_values(|e: (HCoord, RouteView)| OpView::RemoveRoute(e.1.key()));
    if list.len() > 0 {
        every_route_is_withdrawn(list.drop_last());
    }
    assert(withdrawals(list, Map::empty()) =~= all);
}

/// What an installer knows once its identity is taken down.
pub open spec fn torn_down(view: InstallerView) -> InstallerView {
    InstallerView { applied: Map::empty(), identity_address: None, ..view }
}

/// Taking an identity down withdraws each of its routes once, then its rule and then its address,
/// and nothing else; taking it down again asks nothing.
pub proof fn teardown_withdraws_everything_once(view: InstallerView)
    requires
        view.applied.dom().finite(),
    ensures
        ascending(ordered(view.applied)),
        map_of(ordered(view.applied)) == view.applied,
        view.withdrawal() == ordered(view.applied).map_values(
            |e: (HCoord, RouteView)| OpView::RemoveRoute(e.1.key()),
        ),
        view.identity_address is Some ==> view.retirement() == seq![
            OpView::RemoveRule(view.rule()),
            OpView::RemoveAddress { dev: "lo"@, address: view.identity_address->Some_0 },
        ],
        torn_down(view).withdrawal() + torn_down(view).retirement() == Seq::<OpView>::empty(),
{
    ordered_lists_the_map(view.applied);
    every_route_is_withdrawn(ordered(view.applied));
    nothing_is_listed();
    assert(torn_down(view).withdrawal() + torn_down(view).retirement() =~= Seq::<OpView>::empty());
}

/// Where nothing is installed, nothing is listed.
pub proof fn nothing_is_listed()
    ensures
        ordered(Map::<HCoord, RouteView>::empty()) == Seq::<(HCoord, RouteView)>::empty(),
{
    ordered_is_the_list(Seq::<(HCoord, RouteView)>::empty());
}

/// An entry whose g-node has no network changes nothing for the others, wherever it stands.
pub proof fn a_bad_entry_harms_no_other(
    entries: Seq<RouteEntry>,
    bad: int,
    gsizes: Seq<u32>,
    positions: Seq<u32>,
    table: u32,
    endpoints: Map<ArcId, EndpointView>,
    src: Option<Ipv4Addr>,
)
    requires
        0 <= bad < entries.len(),
        destination_of(gsizes, positions, entries[bad].destination) is Err,
    ensures
        wanted_routes(entries, gsizes, positions, table, endpoints, src) == wanted_routes(
            entries.remove(bad),
            gsizes,
            positions,
            table,
            endpoints,
            src,
        ),
    decreases entries.len(),
{
    if bad == entries.len() - 1 {
        assert(entries.remove(bad) =~= entries.drop_last());
    } else {
        a_bad_entry_harms_no_other(
            entries.drop_last(),
            bad,
            gsizes,
            positions,
            table,
            endpoints,
            src,
        );
        assert(entries.remove(bad).drop_last() =~= entries.drop_last().remove(bad));
        assert(entries.remove(bad).last() == entries.last());
    }
}

/// A known g-node gets a route exactly if it has a network, seen from this node: into the table of
/// the identity, to that network, by the paths of the last entry for it.
pub proof fn a_known_gnode_gets_a_route(
    entries: Seq<RouteEntry>,
    i: int,
    gsizes: Seq<u32>,
    positions: Seq<u32>,
    table: u32,
    endpoints: Map<ArcId, EndpointView>,
    src: Option<Ipv4Addr>,
)
    requires
        0 <= i < entries.len(),
        forall|j: int|
            i < j < entries.len() ==> (#[trigger] entries[j]).destination
                != entries[i].destination,
    ensures
        ({
            let hc = entries[i].destination;
            let wanted = wanted_routes(entries, gsizes, positions, table, endpoints, src);
            &&& wanted.contains_key(hc) <==> destination_of(gsizes, positions, hc) is Ok
            &&& wanted.contains_key(hc) ==> wanted[hc].destination == destination_of(
                gsizes,
                positions,
                hc,
            )->Ok_0 && wanted[hc].table == table && wanted[hc].target == target_of(
                entries[i].paths@,
                endpoints,
                src,
            )
        }),
    decreases entries.len(),
{
    let hc = entries[i].destination;
    let front = entries.drop_last();
    let n = entries.len() - 1;
    if i < n {
        assert(entries[n].destination != hc);
        assert(front[i] == entries[i]);
        assert forall|j: int| i < j < front.len() implies (#[trigger] front[j]).destination
            != front[i].destination by {
            assert(entries[j].destination != entries[i].destination);
        }
        a_known_gnode_gets_a_route(front, i, gsizes, positions, table, endpoints, src);
    } else {
        nothing_without_a_network(front, hc, gsizes, positions, table, endpoints, src);
    }
}

proof fn nothing_without_a_network(
    entries: Seq<RouteEntry>,
    hc: HCoord,
    gsizes: Seq<u32>,
    positions: Seq<u32>,
    table: u32,
    endpoints: Map<ArcId, EndpointView>,
    src: Option<Ipv4Addr>,
)
    ensures
        wanted_routes(entries, gsizes, positions, table, endpoints, src).contains_key(hc)
            ==> destination_of(gsizes, positions, hc) is Ok && exists|i: int|
            0 <= i < entries.len() && (#[trigger] entries[i]).destination == hc,
    decreases entries.len(),
{
    if entries.len() > 0 {
        let front = entries.drop_last();
        nothing_without_a_network(front, hc, gsizes, positions, table, endpoints, src);
        if wanted_routes(front, gsizes, positions, table, endpoints, src).contains_key(hc) {
            let i = choose|i: int|
                0 <= i < front.len() && (#[trigger] front[i]).destination == hc;
            assert(entries[i].destination == hc);
        } else if entries.last().destination == hc {
            assert(entries[entries.len() - 1].destination == hc);
        }
    }
}

proof fn entries_of_all_levels(levels: Seq<Vec<RouteEntry>>, l: int, k: int) -> (i: int)
    requires
        0 <= l < levels.len(),
        0 <= k < levels[l]@.len(),
    ensures
        0 <= i < all_entries(levels).len(),
        all_entries(levels)[i] == levels[l]@[k],
    decreases levels.len(),
{
    if l == levels.len() - 1 {
        all_entries(levels.drop_last()).len() as int + k
    } else {
        let i = entries_of_all_levels(levels.drop_last(), l, k);
        i
    }
}

proof fn no_other_entries(levels: Seq<Vec<RouteEntry>>, i: int) -> (r: (int, int))
    requires
        0 <= i < all_entries(levels).len(),
    ensures
        0 <= r.0 < levels.len(),
        0 <= r.1 < levels[r.0]@.len(),
        levels[r.0]@[r.1] == all_entries(levels)[i],
    decreases levels.len(),
{
    let before = all_entries(levels.drop_last());
    if i < before.len() {
        let (l, k) = no_other_entries(levels.drop_last(), i);
        (l, k)
    } else {
        (levels.len() - 1, i - before.len())
    }
}

/// What an installer wants is one route for each g-node that is known at any level and has a
/// network, seen from where it stands, and no other; a g-node that is listed once is routed by its
/// paths over the known gateways, out of the identity's own address once it has one.
pub proof fn every_level_is_routed(view: InstallerView, snapshot: RouteSnapshot, hc: HCoord)
    ensures
        view.wanted(snapshot).contains_key(hc) <==> destination_of(
            view.gsizes,
            view.positions,
            hc,
        ) is Ok && exists|l: int, k: int|
            0 <= l < snapshot.levels@.len() && 0 <= k < snapshot.levels@[l]@.len()
                && (#[trigger] snapshot.levels@[l]@[k]).destination == hc,
        view.wanted(snapshot).contains_key(hc) ==> view.wanted(snapshot)[hc].table == view.table
            && view.wanted(snapshot)[hc].destination == destination_of(
            view.gsizes,
            view.positions,
            hc,
        )->Ok_0 && exists|l: int, k: int|
            0 <= l < snapshot.levels@.len() && 0 <= k < snapshot.levels@[l]@.len() && (
            #[trigger] snapshot.levels@[l]@[k]).destination == hc && view.wanted(
                snapshot,
            )[hc].target == target_of(
                snapshot.levels@[l]@[k].paths@,
                view.endpoints,
                if view.identity_address is Some {
                    Some(view.identity_address->Some_0.address)
                } else {
                    None
                },
            ),
{
    let entries = all_entries(snapshot.levels@);
    let src = match view.identity_address {
        Some(net) => Some(net.address),
        None => None,
    };
    nothing_without_a_network(
        entries,
        hc,
        view.gsizes,
        view.positions,
        view.table,
        view.endpoints,
        src,
    );
    if exists|l: int, k: int|
        0 <= l < snapshot.levels@.len() && 0 <= k < snapshot.levels@[l]@.len()
            && (#[trigger] snapshot.levels@[l]@[k]).destination == hc {
        let (l, k) = choose|l: int, k: int|
            0 <= l < snapshot.levels@.len() && 0 <= k < snapshot.levels@[l]@.len()
                && (#[trigger] snapshot.levels@[l]@[k]).destination == hc;
        let i = entries_of_all_levels(snapshot.levels@, l, k);
        let last = last_entry_for(entries, hc, i);
        a_known_gnode_gets_a_route(
            entries,
            last,
            view.gsizes,
            view.positions,
            view.table,
            view.endpoints,
            src,
        );
        let (ll, kk) = no_other_entries(snapshot.levels@, last);
        assert(snapshot.levels@[ll]@[kk].destination == hc);
    }
    if view.wanted(snapshot).contains_key(hc) {
        let i = choose|i: int| 0 <= i < entries.len() && (#[trigger] entries[i]).destination == hc;
        let (l, k) = no_other_entries(snapshot.levels@, i);
        assert(snapshot.levels@[l]@[k].destination == hc);
    }
}

proof fn last_entry_for(entries: Seq<RouteEntry>, hc: HCoord, i: int) -> (last: int)
    requires
        0 <= i < entries.len(),
        entries[i].destination == hc,
    ensures
        i <= last < entries.len(),
        entries[last].destination == hc,
        forall|j: int|
            last < j < entries.len() ==> (#[trigger] entries[j]).destination != hc,
    decreases entries.len() - i,
{
    if exists|j: int| i < j < entries.len() && (#[trigger] entries[j]).destination == hc {
        let j = choose|j: int| i < j < entries.len() && (#[trigger] entries[j]).destination == hc;
        let last = last_entry_for(entries, hc, j);
        last
    } else {
        i
    }
}

/// A place is settled exactly once each of its positions lies inside its g-node.
pub proof fn a_place_is_settled_position_by_position(view: InstallerView)
    requires
        view.positions.len() == view.gsizes.len(),
    ensures
        !view.virtual_somewhere() <==> forall|l: int|
            0 <= l < view.gsizes.len() ==> #[trigger] view.positions[l] < view.gsizes[l],
{
    if !view.virtual_somewhere() {
        assert forall|l: int| 0 <= l < view.gsizes.len() implies #[trigger] view.positions[l]
            < view.gsizes[l] by {
            assert(view.gsizes[0 + l] == view.gsizes[l]);
        }
    }
}

/// What a host has besides routes: the addresses on its interfaces, and its rules.
pub struct HostView {
    /// The addresses, each with its interface.
    pub addresses: Set<(Seq<char>, Ipv4Net)>,
    /// The rules.
    pub rules: Set<RuleSpec>,
}

/// The host after one request.
pub open spec fn host_after(host: HostView, op: OpView) -> HostView {
    match op {
        OpView::AddAddress { dev, address } => HostView {
            addresses: host.addresses.insert((dev, address)),
            ..host
        },
        OpView::RemoveAddress { dev, address } => HostView {
            addresses: host.addresses.remove((dev, address)),
            ..host
        },
        OpView::AddRule(rule) => HostView { rules: host.rules.insert(rule), ..host },
        OpView::RemoveRule(rule) => HostView { rules: host.rules.remove(rule), ..host },
        _ => host,
    }
}

/// Installing an identity puts its address on the loopback interface and then leads all packets to
/// its table, at its priority; taking it down first stops leading them there and then takes the
/// address away, and leaves the host as it was. The table is never consulted while the address is
/// missing.
pub proof fn an_identity_leaves_as_it_came(view: InstallerView, address: Ipv4Net, host: HostView)
    requires
        !host.addresses.contains(("lo"@, address)),
        !host.rules.contains(
            RuleSpec {
                table: view.table,
                priority: view.rule_priority,
                selector: RuleSelector::Any,
            },
        ),
    ensures
        ({
            let rule = RuleSpec {
                table: view.table,
                priority: view.rule_priority,
                selector: RuleSelector::Any,
            };
            let up = view.installation(address);
            let down = (InstallerView { identity_address: Some(address), ..view }).retirement();
            let h1 = host_after(host, up[0]);
            let h2 = host_after(h1, up[1]);
            let h3 = host_after(h2, down[0]);
            let h4 = host_after(h3, down[1]);
            &&& up.len() == 2 && down.len() == 2
            &&& h1.addresses == host.addresses.insert(("lo"@, address)) && h1.rules == host.rules
            &&& h2.addresses == host.addresses.insert(("lo"@, address)) && h2.rules
                == host.rules.insert(rule)
            &&& h3.addresses == host.addresses.insert(("lo"@, address)) && h3.rules == host.rules
            &&& h4 == host
            &&& (InstallerView { identity_address: None, ..view }).retirement().len() == 0
        }),
{
    let rule = view.rule();
    assert(host.rules.insert(rule).remove(rule) =~= host.rules);
    assert(host.addresses.insert(("lo"@, address)).remove(("lo"@, address)) =~= host.addresses);
}

/// A route that is no longer wanted is withdrawn.
pub proof fn an_unwanted_route_is_withdrawn(
    applied: Seq<(HCoord, RouteView)>,
    i: int,
    wanted: Map<HCoord, RouteView>,
)
    requires
        0 <= i < applied.len(),
        !wanted.contains_key(applied[i].0),
    ensures
        withdrawals(applied, wanted).contains(OpView::RemoveRoute(applied[i].1.key())),
    decreases applied.len(),
{
    let op = OpView::RemoveRoute(applied[i].1.key());
    let all = withdrawals(applied, wanted);
    if i == applied.len() - 1 {
        assert(all.last() == op);
        assert(all[all.len() - 1] == op);
    } else {
        an_unwanted_route_is_withdrawn(applied.drop_last(), i, wanted);
        let before = withdrawals(applied.drop_last(), wanted);
        let j = choose|j: int| 0 <= j < before.len() && before[j] == op;
        assert(all[j] == op);
    }
}

/// No gateway is named twice, and none is lost.
pub proof fn gateways_stand_once(paths: Seq<UsableView>)
    ensures
        ({
            let kept = first_per_gateway(paths);
            &&& forall|i: int, j: int|
                0 <= i < j < kept.len() ==> !((#[trigger] kept[i]).via == (
                #[trigger] kept[j]).via && kept[i].dev == kept[j].dev)
            &&& forall|via: Ipv4Addr, dev: Seq<char>| #[trigger]
                has_gateway(paths, via, dev) == has_gateway(kept, via, dev)
        }),
    decreases paths.len(),
{
    let kept = first_per_gateway(paths);
    if paths.len() > 0 {
        let front = paths.drop_last();
        let before = first_per_gateway(front);
        let last = paths.last();
        let n = paths.len() - 1;
        gateways_stand_once(front);
        assert forall|via: Ipv4Addr, dev: Seq<char>| #[trigger]
            has_gateway(paths, via, dev) == has_gateway(kept, via, dev) by {
            assert(has_gateway(front, via, dev) == has_gateway(before, via, dev));
            if has_gateway(paths, via, dev) {
                let i = choose|i: int|
                    0 <= i < paths.len() && (#[trigger] paths[i]).via == via && paths[i].dev
                        == dev;
                if i < n {
                    assert(front[i] == paths[i]);
                    assert(has_gateway(front, via, dev));
                    let j = choose|j: int|
                        0 <= j < before.len() && (#[trigger] before[j]).via == via
                            && before[j].dev == dev;
                    assert(kept[j] == before[j]);
                } else if !has_gateway(before, last.via, last.dev) {
                    assert(kept[kept.len() - 1] == last);
                }
            }
            if has_gateway(kept, via, dev) {
                let j = choose|j: int|
                    0 <= j < kept.len() && (#[trigger] kept[j]).via == via && kept[j].dev == dev;
                if j < before.len() {
                    assert(before[j] == kept[j]);
                    assert(has_gateway(before, via, dev));
                    let i = choose|i: int|
                        0 <= i < front.len() && (#[trigger] front[i]).via == via && front[i].dev
                            == dev;
                    assert(paths[i] == front[i]);
                } else {
                    assert(paths[n] == last);
                }
            }
        }
        assert forall|i: int, j: int| 0 <= i < j < kept.len() implies !((
        #[trigger] kept[i]).via == (#[trigger] kept[j]).via && kept[i].dev == kept[j].dev) by {
            assert(kept[i] == before[i]);
            if j < before.len() {
                assert(kept[j] == before[j]);
            } else {
                assert(!has_gateway(before, last.via, last.dev));
            }
        }
    } else {
        assert forall|via: Ipv4Addr, dev: Seq<char>| #[trigger]
            has_gateway(paths, via, dev) == has_gateway(kept, via, dev) by {}
    }
}

/// Every usable path has a neighbour of the same address and the same interface among those that
/// are kept, and at or before its own place.
pub proof fn no_gateway_is_lost(paths: Seq<UsableView>, i: int) -> (j: int)
    requires
        0 <= i < paths.len(),
    ensures
        0 <= j < first_per_gateway(paths).len(),
        j <= i,
        first_per_gateway(paths)[j].via == paths[i].via,
        first_per_gateway(paths)[j].dev == paths[i].dev,
    decreases paths.len(),
{
    let front = paths.drop_last();
    let before = first_per_gateway(front);
    let kept = first_per_gateway(paths);
    kept_are_no_more(front);
    if i < front.len() {
        let j = no_gateway_is_lost(front, i);
        assert(kept[j] == before[j]);
        j
    } else {
        let last = paths.last();
        if has_gateway(before, last.via, last.dev) {
            let j = choose|j: int|
                0 <= j < before.len() && (#[trigger] before[j]).via == last.via && before[j].dev
                    == last.dev;
            j
        } else {
            before.len() as int
        }
    }
}

proof fn kept_are_no_more(paths: Seq<UsableView>)
    ensures
        first_per_gateway(paths).len() <= paths.len(),
    decreases paths.len(),
{
    if paths.len() > 0 {
        kept_are_no_more(paths.drop_last());
    }
}

/// The paths that are kept, by their places, and for each path that of the one whose gateway is its
/// own.
struct Kept {
    from: Seq<int>,
    at: Seq<int>,
}

spec fn is_usable(paths: Seq<RoutePath>, endpoints: Map<ArcId, EndpointView>, i: int) -> bool {
    paths[i].cost != Cost::Dead && endpoints.contains_key(paths[i].arc)
}

spec fn is_kept_at(
    paths: Seq<RoutePath>,
    endpoints: Map<ArcId, EndpointView>,
    kept: Seq<UsableView>,
    from: Seq<int>,
    k: int,
) -> bool {
    &&& 0 <= from[k] < paths.len()
    &&& is_usable(paths, endpoints, from[k])
    &&& kept[k].via == endpoints[paths[from[k]].arc].via
    &&& kept[k].dev == endpoints[paths[from[k]].arc].dev
    &&& kept[k].cost == paths[from[k]].cost
}

spec fn is_stood_for(
    paths: Seq<RoutePath>,
    endpoints: Map<ArcId, EndpointView>,
    kept: Seq<UsableView>,
    from: Seq<int>,
    i: int,
    k: int,
) -> bool {
    &&& 0 <= k < from.len()
    &&& from[k] <= i
    &&& kept[k].via == endpoints[paths[i].arc].via
    &&& kept[k].dev == endpoints[paths[i].arc].dev
}

proof fn kept_paths(paths: Seq<RoutePath>, endpoints: Map<ArcId, EndpointView>) -> (r: Kept)
    ensures
        ({
            let kept = first_per_gateway(usable_paths(paths, endpoints));
            &&& kept.len() == r.from.len()
            &&& r.at.len() == paths.len()
            &&& forall|k: int|
                0 <= k < r.from.len() ==> #[trigger] is_kept_at(paths, endpoints, kept, r.from, k)
            &&& forall|i: int|
                #![trigger r.at[i]]
                0 <= i < paths.len() && is_usable(paths, endpoints, i) ==> is_stood_for(
                    paths,
                    endpoints,
                    kept,
                    r.from,
                    i,
                    r.at[i],
                )
        }),
        forall|j: int, k: int| 0 <= j < k < r.from.len() ==> r.from[j] < r.from[k],
    decreases paths.len(),
{
    if paths.len() == 0 {
        Kept { from: Seq::empty(), at: Seq::empty() }
    } else {
        let front = paths.drop_last();
        let n = front.len() as int;
        let path = paths.last();
        let was = kept_paths(front, endpoints);
        let before = first_per_gateway(usable_paths(front, endpoints));
        let kept = first_per_gateway(usable_paths(paths, endpoints));
        let usable = is_usable(paths, endpoints, n);
        let end = endpoints[path.arc];
        let grows = usable && !has_gateway(before, end.via, end.dev);
        if usable {
            let all = usable_paths(paths, endpoints);
            assert(all.drop_last() =~= usable_paths(front, endpoints));
            assert(all.last() == (UsableView { via: end.via, dev: end.dev, cost: path.cost }));
        }
        let from = if grows {
            was.from.push(n)
        } else {
            was.from
        };
        let own = if grows {
            was.from.len() as int
        } else {
            choose|k: int|
                0 <= k < before.len() && (#[trigger] before[k]).via == end.via && before[k].dev
                    == end.dev
        };
        let at = was.at.push(own);
        assert forall|k: int| 0 <= k < was.from.len() implies 0 <= #[trigger] was.from[k] < n by {
            assert(is_kept_at(front, endpoints, before, was.from, k));
        }
        assert forall|k: int| 0 <= k < from.len() implies #[trigger] is_kept_at(
            paths,
            endpoints,
            kept,
            from,
            k,
        ) by {
            if k < was.from.len() {
                assert(is_kept_at(front, endpoints, before, was.from, k));
                assert(front[was.from[k]] == paths[from[k]]);
                assert(kept[k] == before[k]);
            }
        }
        assert forall|i: int|
            #![trigger at[i]]
            0 <= i < paths.len() && is_usable(paths, endpoints, i) implies is_stood_for(
            paths,
            endpoints,
            kept,
            from,
            i,
            at[i],
        ) by {
            if i < n {
                assert(front[i] == paths[i]);
                assert(at[i] == was.at[i]);
                assert(is_usable(front, endpoints, i));
                assert(is_stood_for(front, endpoints, before, was.from, i, was.at[i]));
                assert(kept[at[i]] == before[at[i]]);
            }
        }
        Kept { from, at }
    }
}

proof fn cheapest(kept: Seq<UsableView>) -> (best: int)
    requires
        kept.len() > 0,
    ensures
        0 <= best < kept.len(),
        positive_cost(kept[best].cost) == least_cost(kept),
        forall|k: int|
            0 <= k < kept.len() ==> least_cost(kept) <= positive_cost((#[trigger] kept[k]).cost),
    decreases kept.len(),
{
    let front = kept.drop_last();
    let n = front.len() as int;
    let last = positive_cost(kept.last().cost);
    assert(kept.last() == kept[n]);
    if front.len() == 0 {
        assert(least_cost(front) == u64::MAX as nat);
        0
    } else {
        let before = cheapest(front);
        assert(forall|k: int| 0 <= k < n ==> #[trigger] front[k] == kept[k]);
        assert forall|k: int| 0 <= k < kept.len() implies least_cost(kept) <= positive_cost(
            (#[trigger] kept[k]).cost,
        ) by {
            if k < n {
                assert(front[k] == kept[k]);
                assert(least_cost(front) <= positive_cost(front[k].cost));
            }
        }
        if last < least_cost(front) {
            n
        } else {
            before
        }
    }
}

proof fn share_of_a_hop(cost: Cost, least: nat)
    requires
        least <= positive_cost(cost),
    ensures
        ({
            let share = share_of(cost, least);
            let c = positive_cost(cost) as int;
            &&& 0 <= share <= 255
            &&& (share + 1) * c <= 256 * least < (share + 2) * c || (share == 0 && 256 * least < c)
        }),
{
    let c = positive_cost(cost) as int;
    share_bounds((256 * least) as int, c, least as int);
    let parts = (256 * least) as int / c;
    assert(parts >= 1 ==> share_of(cost, least) == parts - 1);
    assert((parts - 1 + 1) * c == parts * c) by (nonlinear_arith);
    assert((parts - 1 + 2) * c == (parts + 1) * c) by (nonlinear_arith);
}

/// Which paths a route is made of: the places of those that are taken, for each path the one taken
/// that leaves through the same neighbour, and which of them is the cheapest.
pub struct RouteParts {
    /// The places of the paths that are taken.
    pub from: Seq<int>,
    /// For each path, which of those leaves through the same neighbour.
    pub at: Seq<int>,
    /// Which of those is the cheapest.
    pub best: int,
}

/// A destination is routed through every neighbour by which a path to it leaves and whose address
/// and interface are known, and through no other: a neighbour is told apart from another by its
/// address or its interface, stands once, and in the place of its first path. There is no route
/// where there is none, and one gateway, with the source address, where there is one; of several
/// each has a share, as many of 256 parts as its cost goes into that of the cheapest, but at least
/// one, the kernel's number being one less.
pub proof fn a_route_goes_through_every_gateway(
    paths: Seq<RoutePath>,
    endpoints: Map<ArcId, EndpointView>,
    src: Option<Ipv4Addr>,
) -> (r: RouteParts)
    ensures
        r.at.len() == paths.len(),
        forall|j: int, k: int| 0 <= j < k < r.from.len() ==> r.from[j] < r.from[k],
        forall|k: int|
            0 <= k < r.from.len() ==> 0 <= #[trigger] r.from[k] < paths.len()
                && paths[r.from[k]].cost != Cost::Dead && endpoints.contains_key(
                paths[r.from[k]].arc,
            ),
        forall|i: int|
            #![trigger r.at[i]]
            0 <= i < paths.len() && paths[i].cost != Cost::Dead && endpoints.contains_key(
                paths[i].arc,
            ) ==> 0 <= r.at[i] < r.from.len() && r.from[r.at[i]] <= i
                && endpoints[paths[r.from[r.at[i]]].arc].via == endpoints[paths[i].arc].via
                && endpoints[paths[r.from[r.at[i]]].arc].dev == endpoints[paths[i].arc].dev,
        forall|j: int, k: int|
            0 <= j < k < r.from.len() ==> endpoints[paths[#[trigger] r.from[j]].arc].via
                != endpoints[paths[#[trigger] r.from[k]].arc].via
                || endpoints[paths[r.from[j]].arc].dev != endpoints[paths[r.from[k]].arc].dev,
        r.from.len() == 0 ==> target_of(paths, endpoints, src) == TargetView::Unreachable,
        r.from.len() == 1 ==> target_of(paths, endpoints, src) == (TargetView::Gateway {
            via: endpoints[paths[r.from[0]].arc].via,
            dev: endpoints[paths[r.from[0]].arc].dev,
            src,
        }),
        r.from.len() > 1 ==> {
            let target = target_of(paths, endpoints, src);
            let cost = |k: int|
                match paths[r.from[k]].cost {
                    Cost::Finite(magnitude) => if magnitude == 0 {
                        1int
                    } else {
                        magnitude as int
                    },
                    _ => 1int,
                };
            &&& target is Multipath
            &&& target->Multipath_0.len() == r.from.len()
            &&& 0 <= r.best < r.from.len()
            &&& forall|k: int|
                #![trigger target->Multipath_0[k]]
                0 <= k < r.from.len() ==> {
                    let hop = target->Multipath_0[k];
                    &&& hop.via == endpoints[paths[r.from[k]].arc].via
                    &&& hop.dev == endpoints[paths[r.from[k]].arc].dev
                    &&& cost(r.best) <= cost(k)
                    &&& (hop.weight + 1) * cost(k) <= 256 * cost(r.best) < (hop.weight + 2) * cost(
                        k,
                    ) || (hop.weight == 0 && 256 * cost(r.best) < cost(k))
                }
        },
{
    let made = kept_paths(paths, endpoints);
    let from = made.from;
    let at = made.at;
    let usable = usable_paths(paths, endpoints);
    let kept = first_per_gateway(usable);
    gateways_stand_once(usable);
    assert forall|k: int| 0 <= k < from.len() implies 0 <= #[trigger] from[k] < paths.len()
        && paths[from[k]].cost != Cost::Dead && endpoints.contains_key(paths[from[k]].arc) by {
        assert(is_kept_at(paths, endpoints, kept, from, k));
    }
    assert forall|i: int|
        #![trigger at[i]]
        0 <= i < paths.len() && paths[i].cost != Cost::Dead && endpoints.contains_key(
            paths[i].arc,
        ) implies 0 <= at[i] < from.len() && from[at[i]] <= i
        && endpoints[paths[from[at[i]]].arc].via == endpoints[paths[i].arc].via
        && endpoints[paths[from[at[i]]].arc].dev == endpoints[paths[i].arc].dev by {
        assert(is_usable(paths, endpoints, i));
        assert(is_stood_for(paths, endpoints, kept, from, i, at[i]));
        assert(is_kept_at(paths, endpoints, kept, from, at[i]));
    }
    assert forall|j: int, k: int|
        0 <= j < k < from.len() implies endpoints[paths[#[trigger] from[j]].arc].via
        != endpoints[paths[#[trigger] from[k]].arc].via || endpoints[paths[from[j]].arc].dev
        != endpoints[paths[from[k]].arc].dev by {
        assert(is_kept_at(paths, endpoints, kept, from, j));
        assert(is_kept_at(paths, endpoints, kept, from, k));
        assert(!(kept[j].via == kept[k].via && kept[j].dev == kept[k].dev));
    }
    if kept.len() == 1 {
        assert(is_kept_at(paths, endpoints, kept, from, 0));
    }
    let best = if kept.len() > 1 {
        cheapest(kept)
    } else {
        0
    };
    if kept.len() > 1 {
        let hops = target_of(paths, endpoints, src)->Multipath_0;
        let least = least_cost(kept);
        let cost = |k: int|
            match paths[from[k]].cost {
                Cost::Finite(magnitude) => if magnitude == 0 {
                    1int
                } else {
                    magnitude as int
                },
                _ => 1int,
            };
        assert(hops == shares(kept, least));
        assert(is_kept_at(paths, endpoints, kept, from, best));
        assert(cost(best) == least);
        assert forall|k: int|
            #![trigger hops[k]]
            0 <= k < from.len() implies ({
            let hop = hops[k];
            &&& hop.via == endpoints[paths[from[k]].arc].via
            &&& hop.dev == endpoints[paths[from[k]].arc].dev
            &&& cost(best) <= cost(k)
            &&& (hop.weight + 1) * cost(k) <= 256 * cost(best) < (hop.weight + 2) * cost(k) || (
            hop.weight == 0 && 256 * cost(best) < cost(k))
        }) by {
            assert(is_kept_at(paths, endpoints, kept, from, k));
            let u = kept[k];
            assert(positive_cost(u.cost) == cost(k));
            share_of_a_hop(u.cost, least);
            assert(hops[k].weight == share_of(u.cost, least));
        }
    }
    RouteParts { from, at, best }
}

proof fn share_bounds(n: int, c: int, least: int)
    requires
        c >= 1,
        n == 256 * least,
        0 <= least <= c,
    ensures
        0 <= n / c <= 256,
        (n / c) * c <= n < (n / c + 1) * c,
        n / c < 1 ==> n < c,
{
    vstd::arithmetic::div_mod::lemma_fundamental_div_mod(n, c);
    vstd::arithmetic::div_mod::lemma_mod_bound(n, c);
    assert((n / c) * c == c * (n / c)) by (nonlinear_arith);
    assert((n / c + 1) * c == c * (n / c) + c) by (nonlinear_arith);
    vstd::arithmetic::div_mod::lemma_div_pos_is_pos(n, c);
    if n / c < 1 {
        assert(n / c == 0);
        assert(c * (n / c) == 0) by (nonlinear_arith)
            requires
                n / c == 0,
        ;
    }
    if n / c > 256 {
        assert(c * (n / c) >= c * 257) by (nonlinear_arith)
            requires
                c >= 1,
                n / c >= 257,
        ;
    }
}

/// A dearer path never gets the larger share; the cheapest gets all 256 parts, and every path at
/// least one.
pub proof fn shares_follow_cost(cheap: Cost, dear: Cost, best: nat)
    requires
        positive_cost(cheap) <= positive_cost(dear),
    ensures
        share_of(dear, best) <= share_of(cheap, best),
        0 <= share_of(dear, best),
        share_of(cheap, best) <= 255,
        positive_cost(cheap) == best ==> share_of(cheap, best) == 255,
{
    let a = positive_cost(cheap) as int;
    let b = positive_cost(dear) as int;
    let n = 256 * best as int;
    vstd::arithmetic::div_mod::lemma_div_is_ordered_by_denominator(n, a, b);
    if a == best {
        vstd::arithmetic::div_mod::lemma_div_multiples_vanish(256, a);
        assert(n == a * 256);
    }
}

/// The request that takes back what another asked for, where there is one.
pub open spec fn taken_back(op: OpView) -> OpView {
    match op {
        OpView::AddAddress { dev, address } => OpView::RemoveAddress { dev, address },
        OpView::AddRule(rule) => OpView::RemoveRule(rule),
        OpView::AddRoute(route) => OpView::RemoveRoute(route.key()),
        _ => op,
    }
}

/// Taking an identity down takes back what its installation asked for, last things first.
pub proof fn teardown_reverses_installation(address: Ipv4Net, rule: RuleSpec, dev: Seq<char>)
    ensures
        seq![OpView::AddAddress { dev, address }, OpView::AddRule(rule)].reverse().map_values(
            |op: OpView| taken_back(op),
        ) == seq![OpView::RemoveRule(rule), OpView::RemoveAddress { dev, address }],
{
    assert(seq![OpView::AddAddress { dev, address }, OpView::AddRule(rule)].reverse().map_values(
        |op: OpView| taken_back(op),
    ) =~= seq![OpView::RemoveRule(rule), OpView::RemoveAddress { dev, address }]);
}

} // verus!
