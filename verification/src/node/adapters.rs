//! What a node knows of its own network, read out of the routing snapshot: how many nodes it holds,
//! which positions are free, how far a merge must reach, and which way a message goes.
use std::collections::HashMap;
use vstd::prelude::*;
use crate::kernel::addressing::{address_bits, address_bits_split, level_bits, position_bits};
use crate::node::peers::PeerLinks;
use crate::node::registry::{leads_to, LinkId, LinkRegistry};
use crate::node::stubs::{is_gateway, stub_toward};
use crate::node::wire::{caller_in, TypedValue};
use crate::qspn::{ArcId, RouteEntry, RouteSnapshot};
use crate::sorted_map::{map_of_ascending, Key, SortedMap};
use crate::space::{copy_numbers, in_range, HCoord, Naddr, Topology, TupleNode};

verus! {

/// What an identity knows of its network: its id, and which positions were reported foreign or
/// confirmed as its own.
#[derive(Debug)]
pub struct NetworkInfo {
    network_id: i64,
    bootstrapped: bool,
    foreign: SortedMap<HCoord, ()>,
    same_network: SortedMap<HCoord, ()>,
}

/// What a [`NetworkInfo`] says.
pub struct NetworkView {
    /// The network.
    pub network_id: i64,
    /// Whether routing has settled once.
    pub bootstrapped: bool,
    /// The positions that some arc reported foreign.
    pub foreign: Set<HCoord>,
    /// The positions that some arc confirmed as this network's.
    pub same_network: Set<HCoord>,
}

impl NetworkView {
    /// The positions that count as foreign: reported, and never confirmed as this network's.
    pub open spec fn foreign_now(self) -> Set<HCoord> {
        self.foreign.difference(self.same_network)
    }
}

impl NetworkInfo {
    /// What it says.
    pub closed spec fn view(&self) -> NetworkView {
        NetworkView {
            network_id: self.network_id,
            bootstrapped: self.bootstrapped,
            foreign: self.foreign@.dom(),
            same_network: self.same_network@.dom(),
        }
    }

    /// Knowledge of nothing but the network's id.
    pub fn new(_levels: usize, initial_network_id: i64) -> (r: NetworkInfo)
        ensures
            r@ == (NetworkView {
                network_id: initial_network_id,
                bootstrapped: false,
                foreign: Set::empty(),
                same_network: Set::empty(),
            }),
    {
        let r = NetworkInfo {
            network_id: initial_network_id,
            bootstrapped: false,
            foreign: SortedMap::new(),
            same_network: SortedMap::new(),
        };
        assert(r@.foreign =~= Set::empty());
        assert(r@.same_network =~= Set::empty());
        r
    }

    /// Moves the identity to the network `id`.
    pub fn set_network_id(&mut self, id: i64)
        ensures
            final(self)@ == (NetworkView { network_id: id, ..old(self)@ }),
    {
        self.network_id = id;
    }

    /// The network this identity belongs to.
    pub fn network_id(&self) -> (r: i64)
        ensures
            r == self@.network_id,
    {
        self.network_id
    }

    /// Some arc reported the position foreign. That alone does not make it so.
    pub fn note_foreign(&mut self, level: usize, pos: u32)
        ensures
            final(self)@ == (NetworkView {
                foreign: old(self)@.foreign.insert(HCoord { level, pos }),
                ..old(self)@
            }),
    {
        let ghost before = self@;
        self.foreign.insert(HCoord { level, pos }, ());
        assert(self@.foreign =~= before.foreign.insert(HCoord { level, pos }));
    }

    /// Some arc confirmed the position as this network's, once and for all.
    pub fn note_same_network(&mut self, level: usize, pos: u32)
        ensures
            final(self)@ == (NetworkView {
                same_network: old(self)@.same_network.insert(HCoord { level, pos }),
                ..old(self)@
            }),
    {
        let ghost before = self@;
        self.same_network.insert(HCoord { level, pos }, ());
        assert(self@.same_network =~= before.same_network.insert(HCoord { level, pos }));
    }

    /// Whether the position counts as foreign.
    pub fn is_foreign(&self, level: usize, pos: u32) -> (r: bool)
        ensures
            r == self@.foreign_now().contains(HCoord { level, pos }),
    {
        let hc = HCoord { level, pos };
        if self.same_network.contains_key(&hc) {
            return false;
        }
        self.foreign.contains_key(&hc)
    }

    /// The positions that count as foreign, each once.
    pub fn foreign_positions(&self) -> (r: Vec<(usize, u32)>)
        ensures
            forall|level: usize, pos: u32| #[trigger]
                r@.contains((level, pos)) <==> self@.foreign_now().contains(HCoord { level, pos }),
            r@.no_duplicates(),
    {
        let entries = self.foreign.entries();
        let mut r: Vec<(usize, u32)> = Vec::new();
        let ghost mut from: Seq<int> = Seq::empty();
        let mut i: usize = 0;
        proof {
            map_of_ascending(entries@);
        }
        while i < entries.len()
            invariant
                i <= entries@.len(),
                entries@ == self.foreign.order(),
                crate::sorted_map::ascending(entries@),
                from.len() == r@.len(),
                forall|j: int|
                    0 <= j < r@.len() ==> 0 <= #[trigger] from[j] < i && r@[j] == (
                        entries@[from[j]].0.level,
                        entries@[from[j]].0.pos,
                    ) && !self.same_network@.contains_key(entries@[from[j]].0),
                forall|j: int, k: int| 0 <= j < k < r@.len() ==> from[j] < from[k],
                forall|k: int|
                    0 <= k < i && !self.same_network@.contains_key((#[trigger] entries@[k]).0)
                        ==> from.contains(k),
            decreases entries@.len() - i,
        {
            let hc = entries[i].0;
            let ghost before = from;
            if !self.same_network.contains_key(&hc) {
                r.push((hc.level, hc.pos));
                proof {
                    from = from.push(i as int);
                    assert forall|k: int|
                        0 <= k < i + 1 && !self.same_network@.contains_key(
                            (#[trigger] entries@[k]).0,
                        ) implies from.contains(k) by {
                        if k < i {
                            let j = choose|j: int| 0 <= j < before.len() && before[j] == k;
                            assert(from[j] == k);
                        } else {
                            assert(from[before.len() as int] == k);
                        }
                    }
                }
            }
            i += 1;
        }
        proof {
            assert forall|level: usize, pos: u32| #[trigger]
                r@.contains((level, pos)) <==> self@.foreign_now().contains(
                    HCoord { level, pos },
                ) by {
                let hc = HCoord { level, pos };
                if r@.contains((level, pos)) {
                    let j = choose|j: int| 0 <= j < r@.len() && r@[j] == (level, pos);
                    assert(0 <= from[j] < i);
                    assert(entries@[from[j]].0 == hc);
                }
                if self@.foreign_now().contains(hc) {
                    let k = choose|k: int| 0 <= k < entries@.len() && (#[trigger] entries@[k]).0 == hc;
                    assert(from.contains(k));
                    let j = choose|j: int| 0 <= j < from.len() && from[j] == k;
                    assert(r@[j] == (level, pos));
                }
            }
            assert forall|j: int, k: int| 0 <= j < r@.len() && 0 <= k < r@.len() && j != k implies r@[j]
                != r@[k] by {
                let (a, b) = if j < k { (j, k) } else { (k, j) };
                assert(from[a] < from[b]);
                assert(0 <= from[a] && from[b] < i);
                assert(entries@[from[a]].0.level as int * 0x1_0000_0000 + entries@[from[a]].0.pos
                    < entries@[from[b]].0.level as int * 0x1_0000_0000 + entries@[from[b]].0.pos) by {
                    assert(entries@[from[a]].0.rank() < entries@[from[b]].0.rank());
                }
            }
        }
        r
    }

    /// Routing has settled.
    pub fn set_bootstrapped(&mut self)
        ensures
            final(self)@ == (NetworkView { bootstrapped: true, ..old(self)@ }),
    {
        self.bootstrapped = true;
    }

    /// Whether routing has settled once.
    pub fn is_bootstrapped(&self) -> (r: bool)
        ensures
            r == self@.bootstrapped,
    {
        self.bootstrapped
    }
}

/// One report about a position.
pub enum Note {
    /// Some arc reported it foreign.
    Foreign(HCoord),
    /// Some arc confirmed it as this network's.
    SameNetwork(HCoord),
}

/// What is known after these reports, in their order.
pub open spec fn after_notes(net: NetworkView, notes: Seq<Note>) -> NetworkView
    decreases notes.len(),
{
    if notes.len() == 0 {
        net
    } else {
        let before = after_notes(net, notes.drop_last());
        match notes.last() {
            Note::Foreign(hc) => NetworkView { foreign: before.foreign.insert(hc), ..before },
            Note::SameNetwork(hc) => NetworkView {
                same_network: before.same_network.insert(hc),
                ..before
            },
        }
    }
}

/// A position counts as foreign exactly if it was ever reported so and never confirmed as this
/// network's, whatever the order of the reports.
pub proof fn confirmation_outweighs_every_report(net: NetworkView, notes: Seq<Note>, hc: HCoord)
    ensures
        after_notes(net, notes).foreign_now().contains(hc) <==> (net.foreign.contains(hc)
            || notes.contains(Note::Foreign(hc))) && !(net.same_network.contains(hc)
            || notes.contains(Note::SameNetwork(hc))),
{
    notes_accumulate(net, notes, hc);
}

proof fn notes_accumulate(net: NetworkView, notes: Seq<Note>, hc: HCoord)
    ensures
        after_notes(net, notes).foreign.contains(hc) <==> net.foreign.contains(hc)
            || notes.contains(Note::Foreign(hc)),
        after_notes(net, notes).same_network.contains(hc) <==> net.same_network.contains(hc)
            || notes.contains(Note::SameNetwork(hc)),
    decreases notes.len(),
{
    if notes.len() > 0 {
        let front = notes.drop_last();
        notes_accumulate(net, front, hc);
        assert(notes =~= front.push(notes.last()));
        assert(notes[notes.len() - 1] == notes.last());
        assert forall|note: Note| notes.contains(note) <==> front.contains(note) || note
            == notes.last() by {
            if notes.contains(note) {
                let i = choose|i: int| 0 <= i < notes.len() && notes[i] == note;
                if i < front.len() {
                    assert(front[i] == note);
                }
            }
            if front.contains(note) {
                let i = choose|i: int| 0 <= i < front.len() && front[i] == note;
                assert(notes[i] == note);
            }
        }
    }
}

/// A g-node's claim to seniority as one number: the claim itself, `-1` for a g-node without a
/// place, and the greatest number where nothing is known.
pub open spec fn eldership_rank(v: Option<Option<u32>>) -> i32 {
    match v {
        Some(Some(n)) => if n <= i32::MAX {
            n as i32
        } else {
            (i32::MAX - 1) as i32
        },
        Some(None) => (-1) as i32,
        None => i32::MAX,
    }
}

/// A g-node's claim to seniority as one number.
pub fn map_eldership(v: Option<Option<u32>>) -> (r: i32)
    ensures
        r == eldership_rank(v),
{
    match v {
        Some(Some(n)) => if n <= 0x7fff_ffff {
            n as i32
        } else {
            i32::MAX - 1
        },
        Some(None) => -1,
        None => i32::MAX,
    }
}

/// Where the lowest claim wins, an unknown one never beats a known one, and of two known ones the
/// lower never loses.
pub proof fn unknown_claims_never_win(a: u32, b: u32)
    ensures
        a < i32::MAX ==> eldership_rank(Some(Some(a))) < eldership_rank(None),
        a > i32::MAX ==> eldership_rank(Some(Some(a))) < eldership_rank(None),
        eldership_rank(Some(None)) < eldership_rank(Some(Some(a))),
        a <= b && a != i32::MAX ==> eldership_rank(Some(Some(a))) <= eldership_rank(Some(Some(b))),
{
}

/// A known claim is told as it is, as far as it fits, so that of two the lower always wins; one that
/// does not fit loses to all that do but the greatest, and a g-node without a place to all.
pub proof fn lower_claims_win(a: u32, b: u32)
    ensures
        a <= i32::MAX ==> eldership_rank(Some(Some(a))) == a,
        a < b <= i32::MAX ==> eldership_rank(Some(Some(a))) < eldership_rank(Some(Some(b))),
        a > i32::MAX ==> eldership_rank(Some(Some(a))) == i32::MAX - 1,
        eldership_rank(Some(None)) == -1,
        eldership_rank(None) == i32::MAX,
{
}

/// The claims last heard of, for this identity's own g-nodes and for others.
#[derive(Debug)]
pub struct EldershipCache {
    my: HashMap<usize, Option<Option<u32>>>,
    foreign: SortedMap<HCoord, Option<Option<u32>>>,
}

/// The claim noted at a key, if one is.
pub open spec fn noted<K>(claims: Map<K, Option<Option<u32>>>, key: K) -> Option<Option<u32>> {
    if claims.contains_key(key) {
        claims[key]
    } else {
        None
    }
}

impl EldershipCache {
    /// The claims noted for this identity's own g-nodes, by level.
    pub closed spec fn own(&self) -> Map<usize, Option<Option<u32>>> {
        self.my@
    }

    /// The claims noted for other g-nodes.
    pub closed spec fn others(&self) -> Map<HCoord, Option<Option<u32>>> {
        self.foreign@
    }

    /// A cache that knows nothing.
    pub fn new() -> (r: EldershipCache)
        ensures
            r.own() == Map::<usize, Option<Option<u32>>>::empty(),
            r.others() == Map::<HCoord, Option<Option<u32>>>::empty(),
    {
        EldershipCache { my: HashMap::new(), foreign: SortedMap::new() }
    }

    /// The rank of this identity's own g-node at `level`.
    pub fn my(&self, level: usize) -> (r: i32)
        ensures
            r == eldership_rank(noted(self.own(), level)),
    {
        match self.my.get(&level) {
            Some(slot) => map_eldership(*slot),
            None => map_eldership(None),
        }
    }

    /// The rank of the g-node at `(level, pos)`.
    pub fn foreign(&self, level: usize, pos: u32) -> (r: i32)
        ensures
            r == eldership_rank(noted(self.others(), HCoord { level, pos })),
    {
        match self.foreign.get(&HCoord { level, pos }) {
            Some(slot) => map_eldership(*slot),
            None => map_eldership(None),
        }
    }

    /// Notes the claim of this identity's own g-node at `level`.
    pub fn set_my(&mut self, level: usize, value: Option<Option<u32>>)
        ensures
            final(self).own() == old(self).own().insert(level, value),
            final(self).others() == old(self).others(),
    {
        let _ = self.my.insert(level, value);
    }

    /// Notes what was heard: the claims of this identity's own g-nodes, level by level, and those
    /// of the g-nodes that were asked for.
    pub fn refresh(
        &mut self,
        own: &Vec<Option<Option<u32>>>,
        gnodes: &Vec<HCoord>,
        heard: &Vec<Option<Option<u32>>>,
    )
        requires
            gnodes@.len() == heard@.len(),
        ensures
            final(self).own() == with_own_claims(old(self).own(), own@),
            final(self).others() == with_claims(old(self).others(), gnodes@, heard@),
    {
        let ghost own_before = self.own();
        let ghost others_before = self.others();
        let mut level: usize = 0;
        assert(self.own() =~= with_own_claims(own_before, own@.take(0)));
        while level < own.len()
            invariant
                level <= own@.len(),
                self.own() == with_own_claims(own_before, own@.take(level as int)),
                self.others() == others_before,
            decreases own@.len() - level,
        {
            self.set_my(level, own[level]);
            assert(self.own() =~= with_own_claims(own_before, own@.take(level + 1)));
            level += 1;
        }
        assert(own@.take(own@.len() as int) =~= own@);
        let mut i: usize = 0;
        assert(gnodes@.take(0) =~= Seq::empty());
        while i < gnodes.len()
            invariant
                i <= gnodes@.len(),
                gnodes@.len() == heard@.len(),
                self.own() == with_own_claims(own_before, own@),
                self.others() == with_claims(
                    others_before,
                    gnodes@.take(i as int),
                    heard@.take(i as int),
                ),
            decreases gnodes@.len() - i,
        {
            self.set_foreign(gnodes[i].level, gnodes[i].pos, heard[i]);
            proof {
                assert(gnodes@.take(i + 1).drop_last() =~= gnodes@.take(i as int));
                assert(heard@.take(i + 1).drop_last() =~= heard@.take(i as int));
            }
            i += 1;
        }
        assert(gnodes@.take(gnodes@.len() as int) =~= gnodes@);
        assert(heard@.take(heard@.len() as int) =~= heard@);
    }

    /// Notes the claim of the g-node at `(level, pos)`.
    pub fn set_foreign(&mut self, level: usize, pos: u32, value: Option<Option<u32>>)
        ensures
            final(self).own() == old(self).own(),
            final(self).others() == old(self).others().insert(HCoord { level, pos }, value),
    {
        self.foreign.insert(HCoord { level, pos }, value);
    }
}

/// The g-nodes listed in a snapshot, each at the level where it is listed.
pub open spec fn listed_gnodes(levels: Seq<Vec<RouteEntry>>) -> Seq<HCoord>
    decreases levels.len(),
{
    if levels.len() == 0 {
        Seq::empty()
    } else {
        listed_gnodes(levels.drop_last()) + levels.last()@.map_values(
            |e: RouteEntry|
                HCoord { level: (levels.len() - 1) as usize, pos: e.destination.pos },
        )
    }
}

/// The g-nodes listed in a snapshot, each at the level where it is listed: those whose claims are to
/// be asked for.
pub fn known_gnodes(snapshot: &RouteSnapshot) -> (r: Vec<HCoord>)
    ensures
        r@ == listed_gnodes(snapshot.levels@),
{
    let mut r: Vec<HCoord> = Vec::new();
    let mut level: usize = 0;
    assert(listed_gnodes(snapshot.levels@.take(0)) =~= Seq::empty());
    while level < snapshot.levels.len()
        invariant
            level <= snapshot.levels@.len(),
            r@ == listed_gnodes(snapshot.levels@.take(level as int)),
        decreases snapshot.levels@.len() - level,
    {
        let entries = &snapshot.levels[level];
        let ghost before = r@;
        let ghost coords = entries@.map_values(
            |e: RouteEntry| HCoord { level, pos: e.destination.pos },
        );
        let mut i: usize = 0;
        assert(before + coords.take(0) =~= before);
        while i < entries.len()
            invariant
                i <= entries@.len(),
                coords == entries@.map_values(
                    |e: RouteEntry| HCoord { level, pos: e.destination.pos },
                ),
                r@ == before + coords.take(i as int),
            decreases entries@.len() - i,
        {
            r.push(HCoord { level, pos: entries[i].destination.pos });
            assert(coords.take(i + 1) =~= coords.take(i as int).push(coords[i as int]));
            assert(r@ =~= before + coords.take(i + 1));
            i += 1;
        }
        proof {
            let grown = snapshot.levels@.take(level + 1);
            assert(grown.drop_last() =~= snapshot.levels@.take(level as int));
            assert(coords.take(coords.len() as int) =~= coords);
            assert(grown.len() - 1 == level);
        }
        level += 1;
    }
    assert(snapshot.levels@.take(snapshot.levels@.len() as int) =~= snapshot.levels@);
    r
}

/// The claims once those of these g-nodes are noted too, the later of two for one g-node counting.
pub open spec fn with_claims(
    claims: Map<HCoord, Option<Option<u32>>>,
    gnodes: Seq<HCoord>,
    heard: Seq<Option<Option<u32>>>,
) -> Map<HCoord, Option<Option<u32>>>
    decreases gnodes.len(),
{
    if gnodes.len() == 0 {
        claims
    } else {
        with_claims(claims, gnodes.drop_last(), heard.drop_last()).insert(
            gnodes.last(),
            heard.last(),
        )
    }
}

/// What is known of a g-node's claim is what was heard of it last, and what was known before where
/// nothing was heard of it.
pub proof fn the_last_claim_counts(
    claims: Map<HCoord, Option<Option<u32>>>,
    gnodes: Seq<HCoord>,
    heard: Seq<Option<Option<u32>>>,
    hc: HCoord,
    i: int,
)
    requires
        gnodes.len() == heard.len(),
        -1 <= i < gnodes.len(),
        i >= 0 ==> gnodes[i] == hc,
        forall|j: int| i < j < gnodes.len() ==> #[trigger] gnodes[j] != hc,
    ensures
        noted(with_claims(claims, gnodes, heard), hc) == if i >= 0 {
            heard[i]
        } else if claims.contains_key(hc) {
            claims[hc]
        } else {
            None
        },
    decreases gnodes.len(),
{
    if gnodes.len() > 0 {
        let n = gnodes.len() - 1;
        if i < n {
            assert(gnodes[n] != hc);
            assert forall|j: int| i < j < gnodes.drop_last().len() implies #[trigger] gnodes.drop_last()[j]
                != hc by {
                assert(gnodes[j] != hc);
            }
            the_last_claim_counts(claims, gnodes.drop_last(), heard.drop_last(), hc, i);
        }
    }
}

/// What is known of the claim of an own g-node is what was heard of its level, and what was known
/// before where nothing was heard of that.
pub proof fn own_claims_go_by_level(
    claims: Map<usize, Option<Option<u32>>>,
    own: Seq<Option<Option<u32>>>,
    level: usize,
)
    ensures
        noted(with_own_claims(claims, own), level) == if level < own.len() {
            own[level as int]
        } else if claims.contains_key(level) {
            claims[level]
        } else {
            None
        },
{
}

/// Each g-node that is listed at some level is asked about, at that level, and no other.
pub proof fn every_listed_gnode_is_asked_about(levels: Seq<Vec<RouteEntry>>, hc: HCoord)
    requires
        levels.len() <= usize::MAX,
    ensures
        listed_gnodes(levels).contains(hc) <==> hc.level < levels.len() && exists|k: int|
            0 <= k < levels[hc.level as int]@.len() && (
            #[trigger] levels[hc.level as int]@[k]).destination.pos == hc.pos,
    decreases levels.len(),
{
    if levels.len() > 0 {
        let front = levels.drop_last();
        let n = levels.len() - 1;
        every_listed_gnode_is_asked_about(front, hc);
        if hc.level < n {
            assert(front[hc.level as int] == levels[hc.level as int]);
        }
        let before = listed_gnodes(front);
        let here = levels.last()@.map_values(
            |e: RouteEntry|
                HCoord { level: (levels.len() - 1) as usize, pos: e.destination.pos },
        );
        let all = listed_gnodes(levels);
        assert(all == before + here);
        if all.contains(hc) {
            let i = choose|i: int| 0 <= i < all.len() && all[i] == hc;
            if i < before.len() {
                assert(before[i] == hc);
            } else {
                assert(here[i - before.len()] == hc);
                assert(levels[n]@[i - before.len()].destination.pos == hc.pos);
            }
        }
        if before.contains(hc) {
            let i = choose|i: int| 0 <= i < before.len() && before[i] == hc;
            assert(all[i] == hc);
        }
        if hc.level == n && exists|k: int|
            0 <= k < levels[n]@.len() && (#[trigger] levels[n]@[k]).destination.pos == hc.pos {
            let k = choose|k: int|
                0 <= k < levels[n]@.len() && (#[trigger] levels[n]@[k]).destination.pos == hc.pos;
            assert(here[k] == hc);
            assert(all[before.len() + k] == hc);
        }
    }
}

/// The g-nodes are listed level by level, from the leaves up, and at each level in the order of its
/// entries.
pub proof fn gnodes_are_listed_in_their_order(levels: Seq<Vec<RouteEntry>>, l: int, k: int) -> (at:
    int)
    requires
        0 <= l < levels.len(),
        0 <= k < levels[l]@.len(),
        levels.len() <= usize::MAX,
    ensures
        at == listed_gnodes(levels.take(l)).len() + k,
        listed_gnodes(levels.take(l + 1)).len() == listed_gnodes(levels.take(l)).len()
            + levels[l]@.len(),
        0 <= at < listed_gnodes(levels).len(),
        listed_gnodes(levels)[at] == (HCoord {
            level: l as usize,
            pos: levels[l]@[k].destination.pos,
        }),
    decreases levels.len(),
{
    let front = levels.drop_last();
    let n = levels.len() - 1;
    let here = levels.last()@.map_values(
        |e: RouteEntry| HCoord { level: (levels.len() - 1) as usize, pos: e.destination.pos },
    );
    assert(listed_gnodes(levels) == listed_gnodes(front) + here);
    if l < n {
        let at = gnodes_are_listed_in_their_order(front, l, k);
        assert(front.take(l) =~= levels.take(l));
        assert(front.take(l + 1) =~= levels.take(l + 1));
        assert(front[l] == levels[l]);
        at
    } else {
        assert(levels.take(l) =~= front);
        assert(levels.take(l + 1) =~= levels);
        assert(here[k].pos == levels[l]@[k].destination.pos);
        listed_gnodes(front).len() + k
    }
}

/// The claims once those of the own g-nodes are noted too, level by level.
pub open spec fn with_own_claims(
    claims: Map<usize, Option<Option<u32>>>,
    own: Seq<Option<Option<u32>>>,
) -> Map<usize, Option<Option<u32>>> {
    Map::new(
        |level: usize| claims.contains_key(level) || level < own.len(),
        |level: usize|
            if level < own.len() {
                own[level as int]
            } else {
                claims[level]
            },
    )
}

/// The nodes that the entries of one level stand for: one each at the leaf level, above it what
/// the first path reports. Entries without a path and foreign ones do not count.
pub open spec fn counted(entries: Seq<RouteEntry>, foreign: Set<HCoord>, level: int) -> nat
    decreases entries.len(),
{
    if entries.len() == 0 {
        0
    } else {
        let before = counted(entries.drop_last(), foreign, level);
        let entry = entries.last();
        if entry.paths@.len() == 0 || foreign.contains(entry.destination) {
            before
        } else if level == 0 {
            before + 1
        } else {
            before + entry.paths@[0].nodes_inside as nat
        }
    }
}

/// The nodes of this node's g-node one level above `level`: itself, and what stands beside it at
/// `level` and every level below.
pub open spec fn population(snapshot: RouteSnapshot, foreign: Set<HCoord>, level: int) -> nat
    decreases level,
{
    counted(snapshot.at(level), foreign, level) + if level <= 0 {
        1
    } else {
        population(snapshot, foreign, level - 1)
    }
}

/// A population only grows with the level.
pub proof fn population_grows(snapshot: RouteSnapshot, foreign: Set<HCoord>, low: int, high: int)
    requires
        0 <= low <= high,
    ensures
        1 <= population(snapshot, foreign, low) <= population(snapshot, foreign, high),
    decreases high,
{
    if high > low {
        population_grows(snapshot, foreign, low, high - 1);
    } else if low > 0 {
        population_grows(snapshot, foreign, low - 1, low - 1);
    }
}

/// The sum of numbers.
pub open spec fn sum_of(numbers: Seq<nat>) -> nat {
    numbers.fold_left(0nat, |sum: nat, n: nat| sum + n)
}

/// The nodes that a level stands for are the sum over its entries: nothing for one that is foreign
/// or has no path, and else one node at the leaf level, and at any level above it as many as the
/// entry's first path says.
pub proof fn a_level_counts_what_its_entries_report(
    entries: Seq<RouteEntry>,
    foreign: Set<HCoord>,
    level: int,
)
    ensures
        counted(entries, foreign, level) == sum_of(
            entries.map_values(
                |e: RouteEntry|
                    if foreign.contains(e.destination) || e.paths@.len() == 0 {
                        0nat
                    } else if level == 0 {
                        1nat
                    } else {
                        e.paths@[0].nodes_inside as nat
                    },
            ),
        ),
    decreases entries.len(),
{
    let each = |e: RouteEntry|
        if foreign.contains(e.destination) || e.paths@.len() == 0 {
            0nat
        } else if level == 0 {
            1nat
        } else {
            e.paths@[0].nodes_inside as nat
        };
    let numbers = entries.map_values(each);
    if entries.len() > 0 {
        a_level_counts_what_its_entries_report(entries.drop_last(), foreign, level);
        assert(numbers.drop_last() =~= entries.drop_last().map_values(each));
        assert(numbers.last() == each(entries.last()));
    }
}

/// One more entry at a level adds just what it stands for.
pub proof fn an_entry_adds_what_it_reports(
    entries: Seq<RouteEntry>,
    entry: RouteEntry,
    foreign: Set<HCoord>,
    level: int,
)
    ensures
        ({
            let before = counted(entries, foreign, level);
            let after = counted(entries.push(entry), foreign, level);
            &&& foreign.contains(entry.destination) || entry.paths@.len() == 0 ==> after == before
            &&& !foreign.contains(entry.destination) && entry.paths@.len() > 0 && level == 0
                ==> after == before + 1
            &&& !foreign.contains(entry.destination) && entry.paths@.len() > 0 && level != 0
                ==> after == before + entry.paths@[0].nodes_inside
        }),
{
    assert(entries.push(entry).drop_last() =~= entries);
}

/// A population is this node, and what every level up to the one asked for stands for.
pub proof fn a_population_adds_the_levels_up(
    snapshot: RouteSnapshot,
    foreign: Set<HCoord>,
    level: int,
)
    requires
        0 <= level,
    ensures
        population(snapshot, foreign, level) == 1 + sum_of(
            Seq::new(
                (level + 1) as nat,
                |l: int|
                    counted(
                        if l < snapshot.levels@.len() {
                            snapshot.levels@[l]@
                        } else {
                            Seq::empty()
                        },
                        foreign,
                        l,
                    ),
            ),
        ),
    decreases level,
{
    let at = |l: int|
        counted(
            if l < snapshot.levels@.len() {
                snapshot.levels@[l]@
            } else {
                Seq::empty()
            },
            foreign,
            l,
        );
    let all = Seq::new((level + 1) as nat, at);
    let before = Seq::new(level as nat, at);
    assert(all.drop_last() =~= before);
    assert(all.last() == at(level));
    assert(sum_of(all) == sum_of(before) + at(level));
    assert(snapshot.at(level) =~= if level < snapshot.levels@.len() {
        snapshot.levels@[level]@
    } else {
        Seq::empty()
    });
    assert(at(level) == counted(snapshot.at(level), foreign, level));
    if level > 0 {
        a_population_adds_the_levels_up(snapshot, foreign, level - 1);
        let rest = Seq::new((level - 1 + 1) as nat, at);
        assert(before =~= rest);
        assert(population(snapshot, foreign, level - 1) == 1 + sum_of(rest));
        assert(population(snapshot, foreign, level) == at(level) + population(
            snapshot,
            foreign,
            level - 1,
        ));
    } else {
        assert(before =~= Seq::empty());
        assert(sum_of(before) == 0);
        assert(population(snapshot, foreign, level) == at(level) + 1);
    }
    assert(population(snapshot, foreign, level) == 1 + sum_of(all));
}

/// The positions that a node leaves out of its counts.
pub open spec fn left_out(net: Option<&NetworkInfo>) -> Set<HCoord> {
    match net {
        Some(n) => n@.foreign_now(),
        None => Set::empty(),
    }
}

proof fn counted_grows(entries: Seq<RouteEntry>, foreign: Set<HCoord>, level: int, i: int)
    requires
        0 <= i <= entries.len(),
    ensures
        counted(entries.take(i), foreign, level) <= counted(entries, foreign, level),
    decreases entries.len(),
{
    if i == entries.len() {
        assert(entries.take(i) =~= entries);
    } else {
        counted_grows(entries.drop_last(), foreign, level, i);
        assert(entries.drop_last().take(i) =~= entries.take(i));
    }
}

fn count_level(snapshot: &RouteSnapshot, net: Option<&NetworkInfo>, level: usize) -> (r: Option<u64>)
    ensures
        r is Some <==> counted(snapshot.at(level as int), left_out(net), level as int) <= u64::MAX,
        r is Some ==> r->Some_0 == counted(
            snapshot.at(level as int),
            left_out(net),
            level as int,
        ),
{
    if level >= snapshot.levels.len() {
        return Some(0);
    }
    let entries = &snapshot.levels[level];
    let ghost foreign = left_out(net);
    let mut total: u64 = 0;
    let mut i: usize = 0;
    while i < entries.len()
        invariant
            i <= entries@.len(),
            foreign == left_out(net),
            entries@ == snapshot.at(level as int),
            total == counted(entries@.take(i as int), foreign, level as int),
        decreases entries@.len() - i,
    {
        let entry = &entries[i];
        let is_foreign = match net {
            Some(n) => n.is_foreign(entry.destination.level, entry.destination.pos),
            None => false,
        };
        proof {
            assert(entries@.take(i + 1).drop_last() =~= entries@.take(i as int));
            counted_grows(entries@, foreign, level as int, i + 1);
        }
        if entry.paths.len() > 0 && !is_foreign {
            let more: u64 = if level == 0 {
                1
            } else {
                entry.paths[0].nodes_inside as u64
            };
            match total.checked_add(more) {
                Some(sum) => {
                    total = sum;
                },
                None => {
                    return None;
                },
            }
        }
        i += 1;
    }
    assert(entries@.take(entries@.len() as int) =~= entries@);
    Some(total)
}

/// How many nodes this node's g-node holds up to `level`, where that number fits.
pub fn checked_n_nodes(snapshot: &RouteSnapshot, net: Option<&NetworkInfo>, level: usize) -> (r:
    Option<u64>)
    ensures
        r is Some <==> population(*snapshot, left_out(net), level as int) <= u64::MAX,
        r is Some ==> r->Some_0 == population(*snapshot, left_out(net), level as int),
{
    let ghost foreign = left_out(net);
    proof {
        population_grows(*snapshot, foreign, 0, level as int);
    }
    let mut total: u64 = match count_level(snapshot, net, 0) {
        Some(leaves) => match leaves.checked_add(1) {
            Some(sum) => sum,
            None => {
                return None;
            },
        },
        None => {
            return None;
        },
    };
    let mut l: usize = 0;
    while l < level
        invariant
            l <= level,
            foreign == left_out(net),
            total == population(*snapshot, foreign, l as int),
        decreases level - l,
    {
        l += 1;
        proof {
            population_grows(*snapshot, foreign, l as int, level as int);
        }
        match count_level(snapshot, net, l) {
            Some(more) => match total.checked_add(more) {
                Some(sum) => {
                    total = sum;
                },
                None => {
                    return None;
                },
            },
            None => {
                return None;
            },
        }
    }
    Some(total)
}

/// How many nodes this node's g-node holds up to `level`, as far as the snapshot tells, leaving out
/// what counts as foreign.
pub fn estimate_n_nodes(snapshot: &RouteSnapshot, net: Option<&NetworkInfo>, level: usize) -> (r:
    u64)
    requires
        population(*snapshot, left_out(net), level as int) <= u64::MAX,
    ensures
        r == population(*snapshot, left_out(net), level as int),
{
    match checked_n_nodes(snapshot, net, level) {
        Some(total) => total,
        None => {
            assert(false);
            0
        },
    }
}

/// Some entry of the level is not foreign.
pub open spec fn has_sibling(entries: Seq<RouteEntry>, foreign: Set<HCoord>) -> bool {
    exists|i: int| 0 <= i < entries.len() && !foreign.contains((#[trigger] entries[i]).destination)
}

fn sibling_at(snapshot: &RouteSnapshot, net: &NetworkInfo, level: usize) -> (r: bool)
    ensures
        r == has_sibling(snapshot.at(level as int), net@.foreign_now()),
{
    if level >= snapshot.levels.len() {
        return false;
    }
    let entries = &snapshot.levels[level];
    let mut i: usize = 0;
    while i < entries.len()
        invariant
            i <= entries@.len(),
            entries@ == snapshot.at(level as int),
            forall|j: int|
                0 <= j < i ==> net@.foreign_now().contains((#[trigger] entries@[j]).destination),
        decreases entries@.len() - i,
    {
        let hc = entries[i].destination;
        if !net.is_foreign(hc.level, hc.pos) {
            assert(!net@.foreign_now().contains(entries@[i as int].destination));
            return true;
        }
        i += 1;
    }
    false
}

/// The level that a merge must move as one: one above the highest level, the topmost left aside, at
/// which this node has a sibling of its own network; the leaf level where it has none.
pub fn chosen_lvl_from_snapshot(snapshot: &RouteSnapshot, net: &NetworkInfo, levels: usize) -> (r:
    usize)
    ensures
        r > 0 ==> r < levels && has_sibling(snapshot.at(r - 1), net@.foreign_now()),
        forall|i: int|
            r <= i < levels - 1 ==> !has_sibling(#[trigger] snapshot.at(i), net@.foreign_now()),
{
    let mut lvl: usize = if levels > 0 {
        levels - 1
    } else {
        0
    };
    while lvl > 0
        invariant
            lvl == 0 || lvl < levels,
            forall|i: int|
                lvl <= i < levels - 1 ==> !has_sibling(
                    #[trigger] snapshot.at(i),
                    net@.foreign_now(),
                ),
        decreases lvl,
    {
        if sibling_at(snapshot, net, lvl - 1) {
            return lvl;
        }
        lvl -= 1;
    }
    lvl
}

/// This node has a sibling of its own network at a level exactly if some g-node that is known there
/// does not count as foreign, whether or not there is a path to it.
pub proof fn siblings_are_known_and_not_foreign(entries: Seq<RouteEntry>, foreign: Set<HCoord>)
    ensures
        has_sibling(entries, foreign) <==> !(forall|i: int|
            0 <= i < entries.len() ==> foreign.contains((#[trigger] entries[i]).destination)),
{
}

/// The fewest levels, from the leaves up, whose positions need at least five bits; all of them
/// where even those need fewer.
pub fn hooking_epsilon(topology: &Topology) -> (r: usize)
    ensures
        1 <= r <= topology@.len(),
        r < topology@.len() ==> address_bits(topology@.take(r as int)) >= 5,
        forall|n: int| 0 <= n < r ==> address_bits(#[trigger] topology@.take(n)) < 5,
{
    let gsizes = topology.gsizes();
    let ghost g = gsizes@;
    let mut bits: u32 = 0;
    let mut count: usize = 0;
    assert(g.take(0) =~= Seq::empty());
    while count < gsizes.len()
        invariant
            count <= g.len(),
            g == gsizes@,
            g == topology@,
            bits == address_bits(g.take(count as int)),
            bits < 5,
            forall|n: int| 0 <= n <= count ==> address_bits(#[trigger] g.take(n)) < 5,
        decreases g.len() - count,
    {
        proof {
            let grown = g.take(count + 1);
            address_bits_split(grown, count as int);
            assert(grown.take(count as int) =~= g.take(count as int));
            let one = grown.skip(count as int);
            assert(one.len() == 1 && one[0] == g[count as int]);
            assert(one.drop_first() =~= Seq::<u32>::empty());
            assert(address_bits(one) == position_bits(one[0]) + address_bits(one.drop_first()));
            assert(address_bits(Seq::<u32>::empty()) == 0);
        }
        bits = bits + level_bits(gsizes[count]);
        count += 1;
        if bits >= 5 {
            return count;
        }
    }
    count
}

/// Some entry that is not foreign holds this position.
pub open spec fn occupied(entries: Seq<RouteEntry>, foreign: Set<HCoord>, pos: u32) -> bool {
    exists|i: int|
        0 <= i < entries.len() && (#[trigger] entries[i]).destination.pos == pos
            && !foreign.contains(entries[i].destination)
}

fn is_occupied(entries: &Vec<RouteEntry>, net: &NetworkInfo, pos: u32) -> (r: bool)
    ensures
        r == occupied(entries@, net@.foreign_now(), pos),
{
    let mut i: usize = 0;
    while i < entries.len()
        invariant
            i <= entries@.len(),
            forall|j: int|
                0 <= j < i ==> !((#[trigger] entries@[j]).destination.pos == pos
                    && !net@.foreign_now().contains(entries@[j].destination)),
        decreases entries@.len() - i,
    {
        let hc = entries[i].destination;
        if hc.pos == pos && !net.is_foreign(hc.level, hc.pos) {
            assert(entries@[i as int].destination.pos == pos);
            return true;
        }
        i += 1;
    }
    false
}

/// A position is taken exactly if some known g-node that does not count as foreign has it.
pub proof fn positions_are_taken_by_known_gnodes(
    entries: Seq<RouteEntry>,
    foreign: Set<HCoord>,
    pos: u32,
)
    ensures
        !occupied(entries, foreign, pos) <==> forall|i: int|
            0 <= i < entries.len() && (#[trigger] entries[i]).destination.pos == pos
                ==> foreign.contains(entries[i].destination),
{
}

/// A position is handed out only where it is nobody's: it is one of the level's, is not this node's,
/// and every known g-node that has it is foreign; and each such position is.
pub proof fn free_positions_are_nobodys(adapter: CoordinatorMapAdapter, level: usize, pos: u32)
    ensures
        level >= adapter.my_naddr.gsizes().len() ==> !adapter.free(level, pos),
        level < adapter.my_naddr.gsizes().len() && level >= adapter.snapshot.levels@.len() ==> (
        adapter.free(level, pos) <==> pos < adapter.my_naddr.gsizes()[level as int] && pos
            != adapter.my_naddr@[level as int]),
        level < adapter.my_naddr.gsizes().len() && level < adapter.snapshot.levels@.len() ==> (
        adapter.free(level, pos) <==> pos < adapter.my_naddr.gsizes()[level as int] && pos
            != adapter.my_naddr@[level as int] && forall|k: int|
            0 <= k < adapter.snapshot.levels@[level as int]@.len() && (
            #[trigger] adapter.snapshot.levels@[level as int]@[k]).destination.pos == pos
                ==> adapter.net@.foreign_now().contains(
                adapter.snapshot.levels@[level as int]@[k].destination,
            )),
{
    let entries = adapter.snapshot.at(level as int);
    positions_are_taken_by_known_gnodes(entries, adapter.net@.foreign_now(), pos);
}

/// What a coordinator answers from: where it stands, what it hears of, and what it knows of its
/// network.
pub struct CoordinatorMapAdapter<'a> {
    /// This node's address.
    pub my_naddr: &'a Naddr,
    /// The known g-nodes.
    pub snapshot: &'a RouteSnapshot,
    /// The network.
    pub net: &'a NetworkInfo,
}

impl<'a> CoordinatorMapAdapter<'a> {
    /// The position is one of the level's, is not this node's, and no known g-node holds it.
    pub open spec fn free(&self, level: usize, pos: u32) -> bool {
        &&& level < self.my_naddr.gsizes().len()
        &&& pos < self.my_naddr.gsizes()[level as int]
        &&& pos != self.my_naddr@[level as int]
        &&& !occupied(self.snapshot.at(level as int), self.net@.foreign_now(), pos)
    }

    /// How many nodes the network holds.
    pub fn n_nodes(&self) -> (r: u64)
        requires
            population(
                *self.snapshot,
                self.net@.foreign_now(),
                self.my_naddr.gsizes().len() - 1,
            ) <= u64::MAX,
        ensures
            r == population(
                *self.snapshot,
                self.net@.foreign_now(),
                self.my_naddr.gsizes().len() - 1,
            ),
    {
        let levels: usize = self.my_naddr.topology().levels();
        estimate_n_nodes(self.snapshot, Some(self.net), levels - 1)
    }

    /// The free positions at `level`, in ascending order.
    pub fn free_positions(&self, level: usize) -> (r: Vec<u32>)
        ensures
            forall|i: int, j: int| 0 <= i < j < r@.len() ==> r@[i] < r@[j],
            forall|pos: u32| #[trigger] r@.contains(pos) <==> self.free(level, pos),
    {
        let mut r: Vec<u32> = Vec::new();
        let gsize: u32 = match self.my_naddr.topology().gsize(level) {
            Some(gsize) => gsize,
            None => {
                return r;
            },
        };
        let my_pos: u32 = match self.my_naddr.pos(level) {
            Some(pos) => pos,
            None => 0,
        };
        let nobody: Vec<RouteEntry> = Vec::new();
        let entries: &Vec<RouteEntry> = if level < self.snapshot.levels.len() {
            &self.snapshot.levels[level]
        } else {
            &nobody
        };
        assert(entries@ =~= self.snapshot.at(level as int));
        let mut pos: u32 = 0;
        while pos < gsize
            invariant
                pos <= gsize,
                level < self.my_naddr.gsizes().len(),
                gsize == self.my_naddr.gsizes()[level as int],
                my_pos == self.my_naddr@[level as int],
                entries@ == self.snapshot.at(level as int),
                forall|i: int, j: int| 0 <= i < j < r@.len() ==> r@[i] < r@[j],
                forall|i: int| 0 <= i < r@.len() ==> #[trigger] r@[i] < pos,
                forall|p: u32| #[trigger] r@.contains(p) <==> p < pos && self.free(level, p),
            decreases gsize - pos,
        {
            let ghost before = r@;
            if pos != my_pos && !is_occupied(entries, self.net, pos) {
                r.push(pos);
                proof {
                    assert forall|p: u32| #[trigger] r@.contains(p) <==> p < pos + 1 && self.free(
                        level,
                        p,
                    ) by {
                        if r@.contains(p) && p != pos {
                            let i = choose|i: int| 0 <= i < r@.len() && r@[i] == p;
                            assert(before[i] == p);
                            assert(before.contains(p));
                        }
                        if before.contains(p) {
                            let i = choose|i: int| 0 <= i < before.len() && before[i] == p;
                            assert(r@[i] == p);
                        }
                        assert(r@[before.len() as int] == pos);
                    }
                }
            }
            pos += 1;
        }
        r
    }

    /// Whether some position at `level` is free.
    pub fn can_reserve(&self, level: usize) -> (r: bool)
        ensures
            r == exists|pos: u32| self.free(level, pos),
    {
        let free = self.free_positions(level);
        let r = free.len() > 0;
        proof {
            if r {
                assert(free@.contains(free@[0]));
                assert(self.free(level, free@[0]));
            } else {
                assert forall|pos: u32| !self.free(level, pos) by {
                    assert(!free@.contains(pos));
                }
            }
        }
        r
    }

    /// This node's position at `level`; zero where there is no such level.
    pub fn my_pos(&self, level: usize) -> (r: u32)
        ensures
            r == (if level < self.my_naddr@.len() {
                self.my_naddr@[level as int]
            } else {
                0
            }),
    {
        match self.my_naddr.pos(level) {
            Some(pos) => pos,
            None => 0,
        }
    }

    /// What tells this g-node apart from one of another network at the same place: the network.
    pub fn fp_id(&self, _level: usize) -> (r: i64)
        ensures
            r == self.net@.network_id,
    {
        self.net.network_id()
    }
}

/// A g-node next to this node's, and the position from which it is reached.
#[derive(Debug, Clone, Copy, PartialEq, Eq, Structural)]
pub struct AdjacentGNode {
    /// The g-node.
    pub hc: HCoord,
    /// The position, at the level asked for, of this node's g-node.
    pub border_real_pos: u32,
}

/// The g-nodes among the entries that do not hold this node, in their order.
pub open spec fn adjacent(entries: Seq<RouteEntry>, my: Seq<u32>, border: u32) -> Seq<
    AdjacentGNode,
>
    decreases entries.len(),
{
    if entries.len() == 0 {
        Seq::empty()
    } else {
        let before = adjacent(entries.drop_last(), my, border);
        let hc = entries.last().destination;
        if hc.level < my.len() && my[hc.level as int] == hc.pos {
            before
        } else {
            before.push(AdjacentGNode { hc, border_real_pos: border })
        }
    }
}

/// The known g-nodes of a level are next to this node's, in their order and each with the same
/// position of its own, but for those that hold this node.
pub proof fn all_but_the_own_gnodes_are_adjacent(
    entries: Seq<RouteEntry>,
    my: Seq<u32>,
    border: u32,
    i: int,
) -> (j: int)
    requires
        0 <= i < entries.len(),
    ensures
        ({
            let hc = entries[i].destination;
            let own = hc.level < my.len() && my[hc.level as int] == hc.pos;
            let found = adjacent(entries, my, border);
            &&& found.len() <= entries.len()
            &&& !own ==> 0 <= j < found.len() && j <= i && found[j].hc == hc
                && found[j].border_real_pos == border
            &&& forall|k: int|
                0 <= k < found.len() ==> (#[trigger] found[k]).border_real_pos == border && !(
                found[k].hc.level < my.len() && my[found[k].hc.level as int] == found[k].hc.pos)
            &&& j == adjacent(entries.take(i), my, border).len()
        }),
    decreases entries.len(),
{
    let front = entries.drop_last();
    let n = front.len() as int;
    let found = adjacent(entries, my, border);
    adjacent_are_no_more(front, my, border);
    if i < n {
        let j = all_but_the_own_gnodes_are_adjacent(front, my, border, i);
        assert(front[i] == entries[i]);
        assert(front.take(i) =~= entries.take(i));
        let before = adjacent(front, my, border);
        assert(forall|k: int| 0 <= k < before.len() ==> #[trigger] found[k] == before[k]);
        j
    } else {
        assert(entries.take(i) =~= front);
        adjacent(front, my, border).len() as int
    }
}

proof fn adjacent_are_no_more(entries: Seq<RouteEntry>, my: Seq<u32>, border: u32)
    ensures
        adjacent(entries, my, border).len() <= entries.len(),
        forall|k: int|
            0 <= k < adjacent(entries, my, border).len() ==> ({
                let found = #[trigger] adjacent(entries, my, border)[k];
                found.border_real_pos == border && !(found.hc.level < my.len()
                    && my[found.hc.level as int] == found.hc.pos)
            }),
    decreases entries.len(),
{
    if entries.len() > 0 {
        let before = adjacent(entries.drop_last(), my, border);
        let found = adjacent(entries, my, border);
        adjacent_are_no_more(entries.drop_last(), my, border);
        assert forall|k: int| 0 <= k < found.len() implies ({
            let one = #[trigger] found[k];
            one.border_real_pos == border && !(one.hc.level < my.len()
                && my[one.hc.level as int] == one.hc.pos)
        }) by {
            if k < before.len() {
                assert(found[k] == before[k]);
            }
        }
    }
}

/// What the hooking protocol sees of the routing protocol.
pub struct QspnViewAdapter<'a> {
    /// This node's address.
    pub my_naddr: &'a Naddr,
    /// The known g-nodes.
    pub snapshot: &'a RouteSnapshot,
    /// The network.
    pub net: &'a NetworkInfo,
    /// The claims to seniority last heard of.
    pub eldership: &'a EldershipCache,
    /// How many levels a search for a place reaches.
    pub epsilon: usize,
}

impl<'a> QspnViewAdapter<'a> {
    /// The view of a node at `my_naddr`.
    pub fn new(
        my_naddr: &'a Naddr,
        snapshot: &'a RouteSnapshot,
        net: &'a NetworkInfo,
        eldership: &'a EldershipCache,
    ) -> (r: QspnViewAdapter<'a>)
        ensures
            r.my_naddr == my_naddr,
            r.snapshot == snapshot,
            r.net == net,
            r.eldership == eldership,
            1 <= r.epsilon <= my_naddr.gsizes().len(),
            r.epsilon < my_naddr.gsizes().len() ==> address_bits(
                my_naddr.gsizes().take(r.epsilon as int),
            ) >= 5,
            forall|n: int|
                0 <= n < r.epsilon ==> address_bits(#[trigger] my_naddr.gsizes().take(n)) < 5,
    {
        let epsilon: usize = hooking_epsilon(my_naddr.topology());
        QspnViewAdapter { my_naddr, snapshot, net, eldership, epsilon }
    }

    /// How many nodes the network holds.
    pub fn n_nodes(&self) -> (r: u64)
        requires
            population(
                *self.snapshot,
                self.net@.foreign_now(),
                self.my_naddr.gsizes().len() - 1,
            ) <= u64::MAX,
        ensures
            r == population(
                *self.snapshot,
                self.net@.foreign_now(),
                self.my_naddr.gsizes().len() - 1,
            ),
    {
        let levels: usize = self.my_naddr.topology().levels();
        estimate_n_nodes(self.snapshot, Some(self.net), levels - 1)
    }

    /// This node's position at `level`; zero where there is no such level.
    pub fn my_pos(&self, level: usize) -> (r: u32)
        ensures
            r == (if level < self.my_naddr@.len() {
                self.my_naddr@[level as int]
            } else {
                0
            }),
    {
        match self.my_naddr.pos(level) {
            Some(pos) => pos,
            None => 0,
        }
    }

    /// The rank of this node's own g-node at `level`.
    pub fn my_eldership(&self, level: usize) -> (r: i32)
        ensures
            r == eldership_rank(noted(self.eldership.own(), level)),
    {
        self.eldership.my(level)
    }

    /// The rank of the g-node at `(level, pos)`.
    pub fn eldership(&self, level: usize, pos: u32) -> (r: i32)
        ensures
            r == eldership_rank(noted(self.eldership.others(), HCoord { level, pos })),
    {
        self.eldership.foreign(level, pos)
    }

    /// The level below which a node's subnet begins: there is no subnetting.
    pub fn subnetlevel(&self) -> (r: usize)
        ensures
            r == 0,
    {
        0
    }

    /// The g-nodes of one level that do not hold this node, each with the position of this node's
    /// g-node at the other level. None where either level does not exist.
    pub fn adjacent_to_my_gnode(
        &self,
        level_adjacent_gnodes: usize,
        level_my_gnode: usize,
    ) -> (r: Vec<AdjacentGNode>)
        ensures
            r@ == (if level_my_gnode < self.my_naddr@.len() {
                adjacent(
                    self.snapshot.at(level_adjacent_gnodes as int),
                    self.my_naddr@,
                    self.my_naddr@[level_my_gnode as int],
                )
            } else {
                Seq::empty()
            }),
    {
        let mut r: Vec<AdjacentGNode> = Vec::new();
        let border: u32 = match self.my_naddr.pos(level_my_gnode) {
            Some(pos) => pos,
            None => {
                return r;
            },
        };
        if level_adjacent_gnodes >= self.snapshot.levels.len() {
            return r;
        }
        let entries = &self.snapshot.levels[level_adjacent_gnodes];
        let mut i: usize = 0;
        while i < entries.len()
            invariant
                i <= entries@.len(),
                r@ == adjacent(entries@.take(i as int), self.my_naddr@, border),
            decreases entries@.len() - i,
        {
            let hc = entries[i].destination;
            assert(entries@.take(i + 1).drop_last() =~= entries@.take(i as int));
            if !self.my_naddr.is_inside(hc) {
                r.push(AdjacentGNode { hc, border_real_pos: border });
            }
            i += 1;
        }
        assert(entries@.take(entries@.len() as int) =~= entries@);
        r
    }
}

/// The full address that the tuple `n` names, seen from `my_naddr`: where the tuple stops, this
/// node's own positions go on. A tuple that names no level, or more than there are, or a position
/// outside its g-node, names none.
pub fn dial_target(my_naddr: &Naddr, n: &TupleNode) -> (r: Option<Naddr>)
    ensures
        r is Some <==> 0 < n@.len() <= my_naddr@.len() && in_range(
            my_naddr.gsizes(),
            0,
            n@ + my_naddr@.skip(n@.len() as int),
        ),
        r is Some ==> r->Some_0@ == n@ + my_naddr@.skip(n@.len() as int)
            && r->Some_0.gsizes() == my_naddr.gsizes(),
{
    let levels: usize = my_naddr.topology().levels();
    let top: usize = n.top();
    if top == 0 || top > levels {
        return None;
    }
    let positions = complete(n.positions(), my_naddr.positions(), top);
    match Naddr::new(my_naddr.topology().clone(), positions) {
        Ok(naddr) => Some(naddr),
        Err(_) => None,
    }
}

/// `lower`, and behind it what `full` holds from `from` on.
pub fn complete(lower: &Vec<u32>, full: &Vec<u32>, from: usize) -> (r: Vec<u32>)
    requires
        from <= full@.len(),
    ensures
        r@ == lower@ + full@.skip(from as int),
{
    let mut r: Vec<u32> = copy_numbers(lower);
    let mut i: usize = from;
    assert(lower@ + full@.subrange(from as int, from as int) =~= lower@);
    while i < full.len()
        invariant
            from <= i <= full@.len(),
            r@ == lower@ + full@.subrange(from as int, i as int),
        decreases full@.len() - i,
    {
        r.push(full[i]);
        assert(full@.subrange(from as int, i + 1) =~= full@.subrange(from as int, i as int).push(
            full@[i as int],
        ));
        assert(r@ =~= lower@ + full@.subrange(from as int, i + 1));
        i += 1;
    }
    assert(full@.subrange(from as int, full@.len() as int) =~= full@.skip(from as int));
    r
}

/// The foreign positions that exist in the topology, each once: the g-nodes that a request to this
/// network's coordinator must not be answered by.
pub fn foreign_exclusions(topology: &Topology, net: &NetworkInfo) -> (r: Vec<HCoord>)
    ensures
        forall|hc: HCoord| #[trigger]
            r@.contains(hc) <==> net@.foreign_now().contains(hc) && hc.level < topology@.len()
                && hc.pos < topology@[hc.level as int],
        r@.no_duplicates(),
{
    let foreign = net.foreign_positions();
    let mut r: Vec<HCoord> = Vec::new();
    let mut i: usize = 0;
    while i < foreign.len()
        invariant
            i <= foreign@.len(),
            foreign@.no_duplicates(),
            r@.no_duplicates(),
            forall|hc: HCoord| #[trigger]
                r@.contains(hc) <==> foreign@.take(i as int).contains((hc.level, hc.pos))
                    && hc.level < topology@.len() && hc.pos < topology@[hc.level as int],
        decreases foreign@.len() - i,
    {
        let (level, pos) = foreign[i];
        let ghost before = r@;
        let ghost taken = foreign@.take(i as int);
        let kept = match topology.gsize(level) {
            Some(gsize) => pos < gsize,
            None => false,
        };
        let hc = HCoord { level, pos };
        if kept {
            r.push(hc);
        }
        proof {
            let grown = foreign@.take(i + 1);
            assert(grown =~= taken.push((level, pos)));
            assert(!taken.contains((level, pos))) by {
                if taken.contains((level, pos)) {
                    let k = choose|k: int| 0 <= k < taken.len() && taken[k] == (level, pos);
                    assert(foreign@[k] == foreign@[i as int]);
                }
            }
            assert forall|x: HCoord| #[trigger] r@.contains(x) <==> grown.contains(
                (x.level, x.pos),
            ) && x.level < topology@.len() && x.pos < topology@[x.level as int] by {
                if grown.contains((x.level, x.pos)) && x != hc {
                    let k = choose|k: int| 0 <= k < grown.len() && grown[k] == (x.level, x.pos);
                    assert(taken[k] == (x.level, x.pos));
                }
                if taken.contains((x.level, x.pos)) {
                    let k = choose|k: int| 0 <= k < taken.len() && taken[k] == (x.level, x.pos);
                    assert(grown[k] == (x.level, x.pos));
                }
                assert(grown[i as int] == (level, pos));
                if r@.contains(x) && x != hc {
                    let k = choose|k: int| 0 <= k < r@.len() && r@[k] == x;
                    assert(before[k] == x);
                }
                if before.contains(x) {
                    let k = choose|k: int| 0 <= k < before.len() && before[k] == x;
                    assert(r@[k] == x);
                }
                if kept {
                    assert(r@[before.len() as int] == hc);
                }
            }
            assert(r@.no_duplicates()) by {
                if kept {
                    assert(!before.contains(hc));
                    assert forall|a: int, b: int|
                        0 <= a < r@.len() && 0 <= b < r@.len() && a != b implies r@[a] != r@[b] by {
                        if a == before.len() {
                            assert(r@[b] == before[b]);
                        } else if b == before.len() {
                            assert(r@[a] == before[a]);
                        } else {
                            assert(r@[a] == before[a] && r@[b] == before[b]);
                        }
                    }
                }
            }
        }
        i += 1;
    }
    assert(foreign@.take(foreign@.len() as int) =~= foreign@);
    r
}

/// What the peer services see of the routes and the links.
pub struct RoutingEnvAdapter<'a, C> {
    /// This node's address.
    pub my_naddr: &'a Naddr,
    /// The known g-nodes.
    pub snapshot: &'a RouteSnapshot,
    /// The links.
    pub registry: &'a LinkRegistry,
    /// The connections.
    pub links: &'a PeerLinks<C>,
}

impl<'a, C> RoutingEnvAdapter<'a, C> {
    /// Whether the g-node `hc` exists, as far as this node knows: it holds this node, or is known.
    pub fn gnode_exists(&self, hc: HCoord) -> (r: bool)
        ensures
            r == ((hc.level < self.my_naddr@.len() && self.my_naddr@[hc.level as int] == hc.pos)
                || self.snapshot.entry(hc) is Some),
    {
        if self.my_naddr.is_inside(hc) {
            return true;
        }
        self.snapshot.find(hc).is_some()
    }

    /// The link over which a message for the g-node `hc` leaves. Where one that was taken before
    /// has failed, its arc is passed over.
    pub fn gateway(&self, hc: HCoord, failed: Option<LinkId>) -> (r: Option<LinkId>)
        ensures
            failed is None ==> is_gateway(
                *self.snapshot,
                self.registry.links(),
                self.links@.dom(),
                hc,
                None,
                r,
            ),
            failed is Some && !self.registry.knows(failed->Some_0) ==> is_gateway(
                *self.snapshot,
                self.registry.links(),
                self.links@.dom(),
                hc,
                None,
                r,
            ),
            failed is Some ==> forall|mac: Seq<char>| #[trigger]
                self.registry.links().contains_key(mac) && self.registry.links()[mac].id
                    == failed->Some_0 ==> is_gateway(
                    *self.snapshot,
                    self.registry.links(),
                    self.links@.dom(),
                    hc,
                    self.registry.links()[mac].qspn_arc,
                    r,
                ),
    {
        let skip = match failed {
            Some(link) => self.registry.qspn_arc_of(link),
            None => None,
        };
        stub_toward(self.snapshot, self.registry, self.links, hc, skip)
    }

    /// The link over which a message for the node that `n` names leaves; none for this node itself.
    pub fn dial(&self, n: &TupleNode) -> (r: Option<LinkId>)
        ensures
            ({
                let target = n@ + self.my_naddr@.skip(n@.len() as int);
                let named = 0 < n@.len() <= self.my_naddr@.len() && in_range(
                    self.my_naddr.gsizes(),
                    0,
                    target,
                );
                &&& !named || target == self.my_naddr@ ==> r is None
                &&& named && target != self.my_naddr@ ==> exists|level: int|
                    {
                        &&& 0 <= level < target.len()
                        &&& #[trigger] target[level] != self.my_naddr@[level]
                        &&& forall|l: int|
                            level < l < target.len() ==> #[trigger] target[l] == self.my_naddr@[l]
                        &&& is_gateway(
                            *self.snapshot,
                            self.registry.links(),
                            self.links@.dom(),
                            HCoord { level: level as usize, pos: target[level] },
                            None,
                            r,
                        )
                    }
            }),
    {
        let target = match dial_target(self.my_naddr, n) {
            Some(target) => target,
            None => {
                return None;
            },
        };
        let _ = target.positions();
        let hc = match self.my_naddr.hcoord(&target) {
            Some(hc) => hc,
            None => {
                return None;
            },
        };
        let r = stub_toward(self.snapshot, self.registry, self.links, hc, None);
        proof {
            let t = n@ + self.my_naddr@.skip(n@.len() as int);
            let level = hc.level as int;
            assert(t[level] != self.my_naddr@[level]);
            assert forall|l: int| level < l < t.len() implies #[trigger] t[l]
                == self.my_naddr@[l] by {
                assert(self.my_naddr@[l] == target@[l]);
            }
        }
        r
    }

    /// How many nodes this node's g-node at `level` holds, foreign ones not left out.
    pub fn nodes_in_my_group(&self, level: usize) -> (r: u64)
        requires
            population(*self.snapshot, Set::empty(), level as int) <= u64::MAX,
        ensures
            r == population(*self.snapshot, Set::empty(), level as int),
    {
        estimate_n_nodes(self.snapshot, None, level)
    }
}

/// The routing protocol's arc that a call came over, by the id its sender gives.
pub fn resolve_caller_arc(registry: &LinkRegistry, src_nic: Option<&TypedValue>) -> (r: Option<
    ArcId,
>)
    ensures
        src_nic is None ==> r is None,
        src_nic is Some && caller_in(src_nic->Some_0@) is None ==> r is None,
        src_nic is Some && caller_in(src_nic->Some_0@) is Some && (forall|link: LinkId|
            !#[trigger] leads_to(registry.links(), caller_in(src_nic->Some_0@)->Some_0, link))
            ==> r is None,
        src_nic is Some && caller_in(src_nic->Some_0@) is Some && (exists|link: LinkId| #[trigger]
            leads_to(registry.links(), caller_in(src_nic->Some_0@)->Some_0, link)) ==> exists|
            mac: Seq<char>,
        | #[trigger]
            registry.links().contains_key(mac) && registry.links()[mac].neighbour_id == caller_in(
                src_nic->Some_0@,
            )->Some_0 && registry.links()[mac].qspn_arc == r,
{
    let tv = match src_nic {
        Some(tv) => tv,
        None => {
            return None;
        },
    };
    match registry.link_for_caller(tv) {
        Some(link) => registry.qspn_arc_of(link),
        None => None,
    }
}

/// Learning that a g-node is foreign never makes this network larger.
pub proof fn foreign_nodes_never_add_to_the_count(
    snapshot: RouteSnapshot,
    fewer: Set<HCoord>,
    more: Set<HCoord>,
    level: int,
)
    requires
        fewer.subset_of(more),
        0 <= level,
    ensures
        population(snapshot, more, level) <= population(snapshot, fewer, level),
    decreases level,
{
    counts_shrink(snapshot.at(level), fewer, more, level);
    if level > 0 {
        foreign_nodes_never_add_to_the_count(snapshot, fewer, more, level - 1);
    }
}

proof fn counts_shrink(entries: Seq<RouteEntry>, fewer: Set<HCoord>, more: Set<HCoord>, level: int)
    requires
        fewer.subset_of(more),
    ensures
        counted(entries, more, level) <= counted(entries, fewer, level),
    decreases entries.len(),
{
    if entries.len() > 0 {
        counts_shrink(entries.drop_last(), fewer, more, level);
    }
}

} // verus!
