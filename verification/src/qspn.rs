//! What the routing protocol publishes: for each level, the known g-nodes and the paths to them.
use vstd::prelude::*;
use crate::sorted_map::Key;
use crate::space::{Cost, HCoord};

verus! {

/// A local arc of the routing protocol.
#[derive(Debug, Clone, Copy, PartialEq, Eq, Structural)]
pub struct ArcId(pub u64);

impl Key for ArcId {
    open spec fn rank(self) -> int {
        self.0 as int
    }

    proof fn rank_is_injective(a: Self, b: Self) {
    }

    fn before(&self, other: &Self) -> (r: bool) {
        self.0 < other.0
    }
}

/// One way to a g-node.
#[derive(Debug, Clone, Copy, PartialEq, Eq, Structural)]
pub struct RoutePath {
    /// The arc it leaves by.
    pub arc: ArcId,
    /// What it costs.
    pub cost: Cost,
    /// How many nodes the g-node is said to hold.
    pub nodes_inside: u32,
}

/// A known g-node and the ways to it, cheapest first.
#[derive(Debug, PartialEq, Eq)]
pub struct RouteEntry {
    /// The g-node.
    pub destination: HCoord,
    /// The ways.
    pub paths: Vec<RoutePath>,
}

/// The known g-nodes, level by level.
#[derive(Debug, PartialEq, Eq)]
pub struct RouteSnapshot {
    /// For each level its g-nodes.
    pub levels: Vec<Vec<RouteEntry>>,
}

/// The entries of all levels in a row.
pub open spec fn all_entries(levels: Seq<Vec<RouteEntry>>) -> Seq<RouteEntry>
    decreases levels.len(),
{
    if levels.len() == 0 {
        Seq::empty()
    } else {
        all_entries(levels.drop_last()) + levels.last()@
    }
}

impl RouteSnapshot {
    /// The entries at `level`; none where there is no such level.
    pub open spec fn at(&self, level: int) -> Seq<RouteEntry> {
        if 0 <= level < self.levels@.len() {
            self.levels@[level]@
        } else {
            Seq::empty()
        }
    }

    /// The entry of the g-node `hc`: the first for it at its level.
    pub open spec fn entry(&self, hc: HCoord) -> Option<RouteEntry> {
        first_entry(self.at(hc.level as int), hc)
    }

    /// The arc by which the cheapest path to the g-node `hc` leaves, passing over `skip`.
    pub open spec fn departure(&self, hc: HCoord, skip: Option<ArcId>) -> Option<ArcId> {
        match self.entry(hc) {
            Some(entry) => first_departure(entry.paths@, skip),
            None => None,
        }
    }

    /// The entry of the g-node `hc`, if it is known.
    pub fn find(&self, hc: HCoord) -> (r: Option<&RouteEntry>)
        ensures
            r is Some == self.entry(hc) is Some,
            r is Some ==> *r->Some_0 == self.entry(hc)->Some_0,
    {
        if hc.level >= self.levels.len() {
            return None;
        }
        let entries = &self.levels[hc.level];
        let mut i: usize = 0;
        assert(entries@.skip(0) =~= entries@);
        while i < entries.len()
            invariant
                i <= entries@.len(),
                entries@ == self.at(hc.level as int),
                self.entry(hc) == first_entry(entries@.skip(i as int), hc),
            decreases entries@.len() - i,
        {
            if entries[i].destination == hc {
                return Some(&entries[i]);
            }
            assert(entries@.skip(i as int).drop_first() =~= entries@.skip(i + 1));
            i += 1;
        }
        None
    }

    /// The arc by which the cheapest path to the g-node `hc` leaves, passing over `skip`.
    pub fn first_arc(&self, hc: HCoord, skip: Option<ArcId>) -> (r: Option<ArcId>)
        ensures
            r == self.departure(hc, skip),
    {
        let entry = match self.find(hc) {
            Some(entry) => entry,
            None => {
                return None;
            },
        };
        let paths = &entry.paths;
        let mut i: usize = 0;
        assert(paths@.skip(0) =~= paths@);
        while i < paths.len()
            invariant
                i <= paths@.len(),
                self.departure(hc, skip) == first_departure(paths@.skip(i as int), skip),
            decreases paths@.len() - i,
        {
            let arc = paths[i].arc;
            let skipped = match skip {
                Some(other) => arc == other,
                None => false,
            };
            if !skipped {
                return Some(arc);
            }
            assert(paths@.skip(i as int).drop_first() =~= paths@.skip(i + 1));
            i += 1;
        }
        None
    }
}

/// The first of the entries that is for the g-node `hc`.
pub open spec fn first_entry(entries: Seq<RouteEntry>, hc: HCoord) -> Option<RouteEntry>
    decreases entries.len(),
{
    if entries.len() == 0 {
        None
    } else if entries[0].destination == hc {
        Some(entries[0])
    } else {
        first_entry(entries.drop_first(), hc)
    }
}

/// The arc of the first of the paths that does not leave by `skip`.
pub open spec fn first_departure(paths: Seq<RoutePath>, skip: Option<ArcId>) -> Option<ArcId>
    decreases paths.len(),
{
    if paths.len() == 0 {
        None
    } else if skip != Some(paths[0].arc) {
        Some(paths[0].arc)
    } else {
        first_departure(paths.drop_first(), skip)
    }
}

/// The entries of all levels stand in a row, level by level, and none is left out or stands twice.
pub proof fn entries_of_all_levels_stand_in_a_row(
    a: Seq<Vec<RouteEntry>>,
    b: Seq<Vec<RouteEntry>>,
    one: Vec<RouteEntry>,
)
    ensures
        all_entries(Seq::empty()) == Seq::<RouteEntry>::empty(),
        all_entries(seq![one]) == one@,
        all_entries(a + b) == all_entries(a) + all_entries(b),
    decreases b.len(),
{
    assert(seq![one].drop_last() =~= Seq::empty());
    assert(all_entries(seq![one].drop_last()) =~= Seq::empty());
    assert(all_entries(seq![one]) =~= one@);
    if b.len() == 0 {
        assert(a + b =~= a);
        assert(all_entries(a) + all_entries(b) =~= all_entries(a));
    } else {
        entries_of_all_levels_stand_in_a_row(a, b.drop_last(), one);
        assert((a + b).drop_last() =~= a + b.drop_last());
        assert((a + b).last() == b.last());
        assert(all_entries(a + b) =~= all_entries(a) + all_entries(b));
    }
}

/// The g-node's entry is the first at its level that names it, and there is none exactly if none
/// does.
pub proof fn an_entry_is_the_first_for_its_gnode(snapshot: RouteSnapshot, hc: HCoord) -> (i: int)
    ensures
        hc.level >= snapshot.levels@.len() ==> snapshot.entry(hc) is None,
        hc.level < snapshot.levels@.len() ==> {
            let entries = snapshot.levels@[hc.level as int]@;
            &&& snapshot.entry(hc) is None <==> forall|k: int|
                0 <= k < entries.len() ==> (#[trigger] entries[k]).destination != hc
            &&& snapshot.entry(hc) is Some ==> 0 <= i < entries.len() && snapshot.entry(hc)
                == Some(entries[i]) && entries[i].destination == hc && forall|k: int|
                0 <= k < i ==> (#[trigger] entries[k]).destination != hc
        },
{
    first_of(snapshot.at(hc.level as int), hc)
}

proof fn first_of(entries: Seq<RouteEntry>, hc: HCoord) -> (i: int)
    ensures
        first_entry(entries, hc) is None <==> forall|k: int|
            0 <= k < entries.len() ==> (#[trigger] entries[k]).destination != hc,
        first_entry(entries, hc) is Some ==> 0 <= i < entries.len() && first_entry(entries, hc)
            == Some(entries[i]) && entries[i].destination == hc && forall|k: int|
            0 <= k < i ==> (#[trigger] entries[k]).destination != hc,
    decreases entries.len(),
{
    if entries.len() == 0 {
        0
    } else if entries[0].destination == hc {
        0
    } else {
        let rest = entries.drop_first();
        let i = first_of(rest, hc);
        assert(forall|k: int| 0 <= k < rest.len() ==> #[trigger] rest[k] == entries[k + 1]);
        assert forall|k: int| 1 <= k < entries.len() implies #[trigger] entries[k] == rest[k
            - 1] by {}
        if first_entry(rest, hc) is None {
            assert forall|k: int| 0 <= k < entries.len() implies (#[trigger] entries[k]).destination
                != hc by {
                if k > 0 {
                    assert(rest[k - 1].destination != hc);
                }
            }
        } else {
            assert(entries[i + 1].destination == hc);
            assert forall|k: int| 0 <= k < i + 1 implies (#[trigger] entries[k]).destination
                != hc by {
                if k > 0 {
                    assert(rest[k - 1].destination != hc);
                }
            }
        }
        i + 1
    }
}

/// A message leaves by the first of the listed paths that is not passed over, the cheapest of those
/// that remain, and stays only where all are.
pub proof fn the_first_remaining_path_is_taken(paths: Seq<RoutePath>, skip: Option<ArcId>) -> (i: int)
    ensures
        first_departure(paths, skip) is None <==> forall|k: int|
            0 <= k < paths.len() ==> skip == Some((#[trigger] paths[k]).arc),
        first_departure(paths, skip) is Some ==> 0 <= i < paths.len() && first_departure(
            paths,
            skip,
        ) == Some(paths[i].arc) && skip != Some(paths[i].arc) && forall|k: int|
            0 <= k < i ==> skip == Some((#[trigger] paths[k]).arc),
    decreases paths.len(),
{
    if paths.len() == 0 {
        0
    } else if skip != Some(paths[0].arc) {
        0
    } else {
        let rest = paths.drop_first();
        let i = the_first_remaining_path_is_taken(rest, skip);
        assert(forall|k: int| 0 <= k < rest.len() ==> #[trigger] rest[k] == paths[k + 1]);
        if first_departure(rest, skip) is None {
            assert forall|k: int| 0 <= k < paths.len() implies skip == Some(
                (#[trigger] paths[k]).arc,
            ) by {
                if k > 0 {
                    assert(rest[k - 1].arc == paths[k].arc);
                }
            }
        } else {
            assert(rest[i] == paths[i + 1]);
            assert forall|k: int| 0 <= k < i + 1 implies skip == Some(
                (#[trigger] paths[k]).arc,
            ) by {
                if k > 0 {
                    assert(rest[k - 1].arc == paths[k].arc);
                }
            }
        }
        i + 1
    }
}

/// The departure for a g-node is that of the paths of its entry.
pub proof fn a_departure_is_that_of_the_entry(
    snapshot: RouteSnapshot,
    hc: HCoord,
    skip: Option<ArcId>,
)
    ensures
        snapshot.entry(hc) is None ==> snapshot.departure(hc, skip) is None,
        snapshot.entry(hc) is Some ==> snapshot.departure(hc, skip) == first_departure(
            snapshot.entry(hc)->Some_0.paths@,
            skip,
        ),
{
}

/// A path that is passed over is never taken.
pub proof fn skipped_arcs_are_not_taken(paths: Seq<RoutePath>, skip: ArcId)
    ensures
        first_departure(paths, Some(skip)) != Some(skip),
    decreases paths.len(),
{
    if paths.len() > 0 {
        skipped_arcs_are_not_taken(paths.drop_first(), skip);
    }
}

} // verus!
