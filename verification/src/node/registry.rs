//! The links to the neighbours: one id for each, and what every part of the node knows it by.
use std::collections::HashMap;
use vstd::prelude::*;
use vstd::string::*;
use crate::node::wire::{caller_in, decode_caller_id, NodeId, TypedValue};
use crate::qspn::ArcId;
use crate::sorted_map::Key;
use crate::text::same_text;

verus! {

/// The id of a link, handed out by this node.
#[derive(Debug, Clone, Copy, PartialEq, Eq, Structural)]
pub struct LinkId(pub u64);

impl Key for LinkId {
    open spec fn rank(self) -> int {
        self.0 as int
    }

    proof fn rank_is_injective(a: Self, b: Self) {
    }

    fn before(&self, other: &Self) -> (r: bool) {
        self.0 < other.0
    }
}

impl LinkId {
    /// The number under which hooking knows the link.
    pub fn hooking(self) -> (r: u64)
        ensures
            r == self.0,
    {
        self.0
    }

    /// The number under which the identities know the link.
    pub fn identities(self) -> (r: u64)
        ensures
            r == self.0,
    {
        self.0
    }
}

/// What is known of one link.
#[derive(Debug, PartialEq, Eq)]
pub struct LinkEntry {
    /// Its id.
    pub id: LinkId,
    /// The neighbour's hardware address.
    pub mac: String,
    /// The interface it is on.
    pub dev: String,
    /// The neighbour's own id.
    pub neighbour_id: NodeId,
    /// The routing protocol's arc, once there is one.
    pub qspn_arc: Option<ArcId>,
}

/// What a [`LinkEntry`] says.
pub struct EntryView {
    /// Its id.
    pub id: LinkId,
    /// The neighbour's hardware address.
    pub mac: Seq<char>,
    /// The interface it is on.
    pub dev: Seq<char>,
    /// The neighbour's own id.
    pub neighbour_id: i32,
    /// The routing protocol's arc, once there is one.
    pub qspn_arc: Option<ArcId>,
}

impl LinkEntry {
    /// What it says.
    pub open spec fn view(&self) -> EntryView {
        EntryView {
            id: self.id,
            mac: self.mac@,
            dev: self.dev@,
            neighbour_id: self.neighbour_id@,
            qspn_arc: self.qspn_arc,
        }
    }

    fn copy(&self) -> (r: LinkEntry)
        ensures
            r@ == self@,
    {
        LinkEntry {
            id: self.id,
            mac: self.mac.clone(),
            dev: self.dev.clone(),
            neighbour_id: self.neighbour_id,
            qspn_arc: self.qspn_arc,
        }
    }
}

/// Some entry is for this hardware address.
pub open spec fn has_mac(entries: Seq<LinkEntry>, mac: Seq<char>) -> bool {
    exists|i: int| 0 <= i < entries.len() && (#[trigger] entries[i]).mac@ == mac
}

/// The entries by hardware address.
pub open spec fn links_of(entries: Seq<LinkEntry>) -> Map<Seq<char>, EntryView> {
    Map::new(
        |mac: Seq<char>| has_mac(entries, mac),
        |mac: Seq<char>|
            entries[choose|i: int|
                0 <= i < entries.len() && (#[trigger] entries[i]).mac@ == mac]@,
    )
}

/// The links, the number of the next one, and the id of the link to the neighbour at `mac`, once
/// that has one: the one it had, or else the next.
pub open spec fn with_link(
    links: Map<Seq<char>, EntryView>,
    next: int,
    mac: Seq<char>,
    dev: Seq<char>,
    neighbour_id: i32,
) -> (Map<Seq<char>, EntryView>, int, LinkId) {
    if links.contains_key(mac) {
        (links, next, links[mac].id)
    } else {
        let id = LinkId(next as u64);
        (
            links.insert(mac, EntryView { id, mac, dev, neighbour_id, qspn_arc: None }),
            next + 1,
            id,
        )
    }
}

/// The links once the routing protocol's arc of one of them is noted.
pub open spec fn with_arc(links: Map<Seq<char>, EntryView>, link: LinkId, arc: ArcId) -> Map<
    Seq<char>,
    EntryView,
> {
    links.map_values(
        |e: EntryView|
            if e.id == link {
                EntryView { qspn_arc: Some(arc), ..e }
            } else {
                e
            },
    )
}

/// `link` has this arc of the routing protocol.
pub open spec fn carries(links: Map<Seq<char>, EntryView>, arc: ArcId, link: LinkId) -> bool {
    exists|mac: Seq<char>| #[trigger]
        links.contains_key(mac) && links[mac].qspn_arc == Some(arc) && links[mac].id == link
}

/// `link` leads to the node of this id.
pub open spec fn leads_to(links: Map<Seq<char>, EntryView>, neighbour_id: i32, link: LinkId) -> bool {
    exists|mac: Seq<char>| #[trigger]
        links.contains_key(mac) && links[mac].neighbour_id == neighbour_id && links[mac].id == link
}

/// No two entries share a hardware address or an id, and every id was handed out.
pub open spec fn consistent(entries: Seq<LinkEntry>, next: u64) -> bool {
    &&& forall|i: int, j: int|
        0 <= i < j < entries.len() ==> (#[trigger] entries[i]).mac@ != (#[trigger] entries[j]).mac@
            && entries[i].id != entries[j].id
    &&& forall|i: int| 0 <= i < entries.len() ==> 1 <= (#[trigger] entries[i]).id.0 < next
    &&& 1 <= next
}

proof fn lookup(entries: Seq<LinkEntry>, next: u64, i: int)
    requires
        consistent(entries, next),
        0 <= i < entries.len(),
    ensures
        links_of(entries).contains_key(entries[i].mac@),
        links_of(entries)[entries[i].mac@] == entries[i]@,
{
    let mac = entries[i].mac@;
    assert(has_mac(entries, mac));
    let j = choose|j: int| 0 <= j < entries.len() && (#[trigger] entries[j]).mac@ == mac;
    if j < i {
        assert(entries[j].mac@ != entries[i].mac@);
    } else if i < j {
        assert(entries[i].mac@ != entries[j].mac@);
    }
}

proof fn lookup_all(entries: Seq<LinkEntry>, next: u64)
    requires
        consistent(entries, next),
    ensures
        forall|i: int|
            0 <= i < entries.len() ==> links_of(entries).contains_key(
                (#[trigger] entries[i]).mac@,
            ) && links_of(entries)[entries[i].mac@] == entries[i]@,
        forall|mac: Seq<char>| #[trigger]
            links_of(entries).contains_key(mac) ==> exists|i: int|
                0 <= i < entries.len() && (#[trigger] entries[i]).mac@ == mac,
{
    assert forall|i: int| 0 <= i < entries.len() implies links_of(entries).contains_key(
        (#[trigger] entries[i]).mac@,
    ) && links_of(entries)[entries[i].mac@] == entries[i]@ by {
        lookup(entries, next, i);
    }
}

proof fn links_are_counted(entries: Seq<LinkEntry>, next: u64)
    requires
        consistent(entries, next),
    ensures
        links_of(entries).dom().finite(),
        links_of(entries).dom().len() == entries.len(),
    decreases entries.len(),
{
    if entries.len() == 0 {
        assert(links_of(entries).dom() =~= Set::empty());
    } else {
        let front = entries.drop_last();
        let mac = entries.last().mac@;
        let n = entries.len() - 1;
        assert(consistent(front, next));
        links_are_counted(front, next);
        assert(!has_mac(front, mac)) by {
            if has_mac(front, mac) {
                let i = choose|i: int| 0 <= i < front.len() && (#[trigger] front[i]).mac@ == mac;
                assert(entries[i].mac@ != entries[n].mac@);
            }
        }
        assert forall|m: Seq<char>| #[trigger]
            links_of(entries).dom().contains(m) == links_of(front).dom().insert(mac).contains(m) by {
            if has_mac(entries, m) {
                let i = choose|i: int| 0 <= i < entries.len() && (#[trigger] entries[i]).mac@ == m;
                if i < n {
                    assert(front[i].mac@ == m);
                }
            }
            if has_mac(front, m) {
                let i = choose|i: int| 0 <= i < front.len() && (#[trigger] front[i]).mac@ == m;
                assert(entries[i].mac@ == m);
            }
            assert(entries[n].mac@ == mac);
        }
        assert(links_of(entries).dom() =~= links_of(front).dom().insert(mac));
    }
}

/// Whether a link may be tried again, and when each link was last tried: not if the last try is
/// less than `min_interval` ago.
pub open spec fn retry_step(
    retries: Map<LinkId, u64>,
    link: LinkId,
    now: u64,
    min_interval: u64,
) -> (bool, Map<LinkId, u64>) {
    let too_soon = retries.contains_key(link) && now - retries[link] < min_interval
        && min_interval > 0;
    if too_soon {
        (false, retries)
    } else {
        (true, retries.insert(link, now))
    }
}

/// When each link was last tried again, by the link rather than its number.
pub open spec fn tries_by_link(tries: Map<u64, u64>) -> Map<LinkId, u64> {
    Map::new(|link: LinkId| tries.contains_key(link.0), |link: LinkId| tries[link.0])
}

/// The links of this node.
#[derive(Debug)]
pub struct LinkRegistry {
    next: u64,
    entries: Vec<LinkEntry>,
    bad_link_last_retry: HashMap<u64, u64>,
}

impl LinkRegistry {
    #[verifier::type_invariant]
    spec fn is_consistent(self) -> bool {
        consistent(self.entries@, self.next)
    }

    /// The links by the neighbour's hardware address.
    pub closed spec fn links(&self) -> Map<Seq<char>, EntryView> {
        links_of(self.entries@)
    }

    /// The number of the next link.
    pub closed spec fn next_id(&self) -> u64 {
        self.next
    }

    /// When each link was last tried again.
    pub closed spec fn retries(&self) -> Map<LinkId, u64> {
        tries_by_link(self.bad_link_last_retry@)
    }

    /// Some link has this id.
    pub open spec fn knows(&self, link: LinkId) -> bool {
        exists|mac: Seq<char>| #[trigger] self.links().contains_key(mac) && self.links()[mac].id == link
    }

    /// No link yet; the first will be number one.
    pub fn new() -> (r: LinkRegistry)
        ensures
            r.links() == Map::<Seq<char>, EntryView>::empty(),
            r.next_id() == 1,
            r.retries() == Map::<LinkId, u64>::empty(),
    {
        let r = LinkRegistry {
            next: 1,
            entries: Vec::new(),
            bad_link_last_retry: HashMap::new(),
        };
        assert(r.links() =~= Map::empty());
        assert(r.retries() =~= Map::empty());
        r
    }

    fn position(&self, mac: &str) -> (r: Option<usize>)
        ensures
            r is Some == self.links().contains_key(mac@),
            r is Some ==> r->Some_0 < self.entries@.len() && self.entries@[r->Some_0 as int].mac@
                == mac@ && self.links()[mac@] == self.entries@[r->Some_0 as int]@,
    {
        proof {
            use_type_invariant(self);
            lookup_all(self.entries@, self.next);
        }
        let mut i: usize = 0;
        while i < self.entries.len()
            invariant
                i <= self.entries@.len(),
                forall|j: int| 0 <= j < i ==> (#[trigger] self.entries@[j]).mac@ != mac@,
            decreases self.entries@.len() - i,
        {
            if same_text(self.entries[i].mac.as_str(), mac) {
                proof {
                    use_type_invariant(self);
                    lookup(self.entries@, self.next, i as int);
                }
                return Some(i);
            }
            i += 1;
        }
        None
    }

    fn position_of(&self, link: LinkId) -> (r: Option<usize>)
        ensures
            r is Some == self.knows(link),
            r is Some ==> r->Some_0 < self.entries@.len() && self.entries@[r->Some_0 as int].id
                == link,
            r is None ==> forall|i: int|
                0 <= i < self.entries@.len() ==> (#[trigger] self.entries@[i]).id != link,
    {
        proof {
            use_type_invariant(self);
            lookup_all(self.entries@, self.next);
        }
        let mut i: usize = 0;
        while i < self.entries.len()
            invariant
                i <= self.entries@.len(),
                forall|j: int| 0 <= j < i ==> (#[trigger] self.entries@[j]).id != link,
            decreases self.entries@.len() - i,
        {
            if self.entries[i].id == link {
                proof {
                    use_type_invariant(self);
                    lookup(self.entries@, self.next, i as int);
                    assert(self.links().contains_key(self.entries@[i as int].mac@));
                }
                return Some(i);
            }
            i += 1;
        }
        None
    }

    /// How many numbers are left for further links.
    pub fn room(&self) -> (r: u64)
        ensures
            r == u64::MAX - self.next_id(),
    {
        u64::MAX - self.next
    }

    /// The id of the link to the neighbour at `mac`: the one it has, or else a new one.
    pub fn link_for_neighbour(&mut self, neighbour_id: NodeId, mac: &str, dev: &str) -> (r: LinkId)
        requires
            old(self).links().contains_key(mac@) || old(self).next_id() < u64::MAX,
        ensures
            final(self).retries() == old(self).retries(),
            (final(self).links(), final(self).next_id() as int, r) == with_link(
                old(self).links(),
                old(self).next_id() as int,
                mac@,
                dev@,
                neighbour_id@,
            ),
            !old(self).links().contains_key(mac@) ==> !old(self).knows(r),
    {
        match self.position(mac) {
            Some(i) => {
                return self.entries[i].id;
            },
            None => {},
        }
        proof {
            use_type_invariant(&*self);
            lookup_all(self.entries@, self.next);
        }
        let id = LinkId(self.next);
        let ghost before = self.entries@;
        let ghost links_before = self.links();
        let entry = LinkEntry {
            id,
            mac: mac.to_owned(),
            dev: dev.to_owned(),
            neighbour_id,
            qspn_arc: None,
        };
        let mut entries: Vec<LinkEntry> = Vec::new();
        std::mem::swap(&mut self.entries, &mut entries);
        entries.push(entry);
        let next: u64 = self.next + 1;
        let mut retries: HashMap<u64, u64> = HashMap::new();
        std::mem::swap(&mut self.bad_link_last_retry, &mut retries);
        proof {
            let after = entries@;
            assert forall|i: int, j: int| 0 <= i < j < after.len() implies (
            #[trigger] after[i]).mac@ != (#[trigger] after[j]).mac@ && after[i].id != after[j].id by {
                assert(after[i] == before[i]);
                if j == before.len() {
                    assert(links_before.contains_key(before[i].mac@));
                }
            }
            assert(consistent(after, next));
            lookup_all(after, next);
            let want = links_before.insert(mac@, entry@);
            assert forall|m: Seq<char>| #[trigger] links_of(after).contains_key(m)
                == want.contains_key(m) && (want.contains_key(m) ==> links_of(after)[m]
                == want[m]) by {
                if links_of(after).contains_key(m) {
                    let i = choose|i: int| 0 <= i < after.len() && (#[trigger] after[i]).mac@ == m;
                    if i < before.len() {
                        assert(before[i] == after[i]);
                    }
                }
                if links_before.contains_key(m) {
                    let i = choose|i: int| 0 <= i < before.len() && (#[trigger] before[i]).mac@ == m;
                    assert(after[i] == before[i]);
                }
                assert(after[before.len() as int] == entry);
            }
            assert(links_of(after) =~= want);
        }
        *self = LinkRegistry { next, entries, bad_link_last_retry: retries };
        id
    }

    /// The link that a call came over, by the id its sender gives. Where several links lead to
    /// that sender, any of them.
    pub fn link_for_caller(&self, tv: &TypedValue) -> (r: Option<LinkId>)
        ensures
            caller_in(tv@) is None ==> r is None,
            r is Some ==> leads_to(self.links(), caller_in(tv@)->Some_0, r->Some_0),
            r is None && caller_in(tv@) is Some ==> forall|link: LinkId|
                !#[trigger] leads_to(self.links(), caller_in(tv@)->Some_0, link),
    {
        let id = match decode_caller_id(tv) {
            Some(id) => id,
            None => {
                return None;
            },
        };
        proof {
            use_type_invariant(self);
            lookup_all(self.entries@, self.next);
        }
        let mut i: usize = 0;
        while i < self.entries.len()
            invariant
                i <= self.entries@.len(),
                caller_in(tv@) == Some(id@),
                forall|j: int| 0 <= j < i ==> (#[trigger] self.entries@[j]).neighbour_id@ != id@,
            decreases self.entries@.len() - i,
        {
            if self.entries[i].neighbour_id.same(&id) {
                proof {
                    use_type_invariant(self);
                    lookup(self.entries@, self.next, i as int);
                    assert(self.links().contains_key(self.entries@[i as int].mac@));
                }
                return Some(self.entries[i].id);
            }
            i += 1;
        }
        None
    }

    /// Notes the routing protocol's arc of `link`. Nothing happens for an unknown link.
    pub fn set_qspn_arc(&mut self, link: LinkId, arc: ArcId)
        ensures
            final(self).links() == with_arc(old(self).links(), link, arc),
            final(self).next_id() == old(self).next_id(),
            final(self).retries() == old(self).retries(),
    {
        let ghost before = self.entries@;
        let ghost links_before = self.links();
        let found = self.position_of(link);
        proof {
            use_type_invariant(&*self);
            lookup_all(self.entries@, self.next);
        }
        let mut entries: Vec<LinkEntry> = Vec::new();
        std::mem::swap(&mut self.entries, &mut entries);
        let next: u64 = self.next;
        let mut retries: HashMap<u64, u64> = HashMap::new();
        std::mem::swap(&mut self.bad_link_last_retry, &mut retries);
        match found {
            Some(i) => {
                let changed = LinkEntry {
                    id: entries[i].id,
                    mac: entries[i].mac.clone(),
                    dev: entries[i].dev.clone(),
                    neighbour_id: entries[i].neighbour_id,
                    qspn_arc: Some(arc),
                };
                entries.set(i, changed);
            },
            None => {},
        }
        proof {
            let after = entries@;
            assert forall|k: int| 0 <= k < after.len() implies (#[trigger] after[k])@ == (
            if before[k].id == link {
                EntryView { qspn_arc: Some(arc), ..before[k]@ }
            } else {
                before[k]@
            }) by {
                match found {
                    Some(i) => {
                        if k < i {
                            assert(before[k].id != before[i as int].id);
                        } else if k > i {
                            assert(before[i as int].id != before[k].id);
                        }
                    },
                    None => {},
                }
            }
            assert forall|a: int, b: int| 0 <= a < b < after.len() implies (
            #[trigger] after[a]).mac@ != (#[trigger] after[b]).mac@ && after[a].id != after[b].id by {
                assert(after[a]@.mac == before[a].mac@ && after[b]@.mac == before[b].mac@);
                assert(after[a]@.id == before[a].id && after[b]@.id == before[b].id);
                assert(before[a].mac@ != before[b].mac@);
            }
            assert forall|a: int| 0 <= a < after.len() implies 1 <= (#[trigger] after[a]).id.0
                < next by {
                assert(after[a]@.id == before[a].id);
            }
            assert(consistent(after, next));
            lookup_all(after, next);
            let want = with_arc(links_before, link, arc);
            assert forall|m: Seq<char>| #[trigger] links_of(after).contains_key(m)
                == want.contains_key(m) && (want.contains_key(m) ==> links_of(after)[m]
                == want[m]) by {
                if links_of(after).contains_key(m) {
                    let k = choose|k: int| 0 <= k < after.len() && (#[trigger] after[k]).mac@ == m;
                    assert(after[k]@.mac == before[k].mac@);
                }
                if links_before.contains_key(m) {
                    let k = choose|k: int| 0 <= k < before.len() && (#[trigger] before[k]).mac@ == m;
                    assert(after[k]@.mac == m);
                    assert(links_of(after)[after[k].mac@] == after[k]@);
                    assert(links_before[m] == before[k]@);
                }
            }
            assert(links_of(after) =~= want);
        }
        *self = LinkRegistry { next, entries, bad_link_last_retry: retries };
    }

    /// The routing protocol's arc of `link`.
    pub fn qspn_arc_of(&self, link: LinkId) -> (r: Option<ArcId>)
        ensures
            forall|mac: Seq<char>| #[trigger]
                self.links().contains_key(mac) && self.links()[mac].id == link ==> r
                    == self.links()[mac].qspn_arc,
            !self.knows(link) ==> r is None,
    {
        proof {
            use_type_invariant(self);
            lookup_all(self.entries@, self.next);
        }
        match self.position_of(link) {
            Some(i) => {
                assert forall|mac: Seq<char>| #[trigger]
                    self.links().contains_key(mac) && self.links()[mac].id == link implies self.entries@[i as int].qspn_arc
                    == self.links()[mac].qspn_arc by {
                    let j = choose|j: int|
                        0 <= j < self.entries@.len() && (#[trigger] self.entries@[j]).mac@ == mac;
                    if j < i {
                        assert(self.entries@[j].id != self.entries@[i as int].id);
                    } else if i < j {
                        assert(self.entries@[i as int].id != self.entries@[j].id);
                    }
                }
                self.entries[i].qspn_arc
            },
            None => None,
        }
    }

    /// A link that has this arc of the routing protocol.
    pub fn link_of_qspn_arc(&self, arc: ArcId) -> (r: Option<LinkId>)
        ensures
            r is Some ==> carries(self.links(), arc, r->Some_0),
            r is None ==> forall|link: LinkId| !#[trigger] carries(self.links(), arc, link),
    {
        proof {
            use_type_invariant(self);
            lookup_all(self.entries@, self.next);
        }
        let mut i: usize = 0;
        while i < self.entries.len()
            invariant
                i <= self.entries@.len(),
                forall|j: int|
                    0 <= j < i ==> (#[trigger] self.entries@[j]).qspn_arc != Some(arc),
            decreases self.entries@.len() - i,
        {
            match self.entries[i].qspn_arc {
                Some(held) => {
                    if held == arc {
                        proof {
                            use_type_invariant(self);
                            lookup(self.entries@, self.next, i as int);
                            assert(self.links().contains_key(self.entries@[i as int].mac@));
                        }
                        return Some(self.entries[i].id);
                    }
                },
                None => {},
            }
            i += 1;
        }
        None
    }

    /// What is known of `link`.
    pub fn entry(&self, link: LinkId) -> (r: Option<LinkEntry>)
        ensures
            r is Some == self.knows(link),
            r is Some ==> r->Some_0.id == link && self.links().contains_key(r->Some_0.mac@),
            forall|mac: Seq<char>| #[trigger]
                self.links().contains_key(mac) && self.links()[mac].id == link ==> r is Some
                    && r->Some_0@ == self.links()[mac],
    {
        match self.position_of(link) {
            Some(i) => {
                proof {
                    use_type_invariant(self);
                    lookup_all(self.entries@, self.next);
                    assert forall|mac: Seq<char>| #[trigger]
                        self.links().contains_key(mac) && self.links()[mac].id == link implies self.entries@[i as int]@
                        == self.links()[mac] by {
                        let j = choose|j: int|
                            0 <= j < self.entries@.len() && (#[trigger] self.entries@[j]).mac@
                                == mac;
                        if j < i {
                            assert(self.entries@[j].id != self.entries@[i as int].id);
                        } else if i < j {
                            assert(self.entries@[i as int].id != self.entries@[j].id);
                        }
                    }
                }
                Some(self.entries[i].copy())
            },
            None => None,
        }
    }

    /// The link to the neighbour at `mac`.
    pub fn link_for_dev_and_mac(&self, mac: &str) -> (r: Option<LinkId>)
        ensures
            r == (if self.links().contains_key(mac@) {
                Some(self.links()[mac@].id)
            } else {
                None
            }),
    {
        match self.position(mac) {
            Some(i) => Some(self.entries[i].id),
            None => None,
        }
    }

    /// Forgets the link to the neighbour at `mac` and hands back what was known of it.
    pub fn remove(&mut self, mac: &str) -> (r: Option<LinkEntry>)
        ensures
            final(self).links() == old(self).links().remove(mac@),
            final(self).next_id() == old(self).next_id(),
            final(self).retries() == old(self).retries(),
            r is Some == old(self).links().contains_key(mac@),
            r is Some ==> r->Some_0@ == old(self).links()[mac@],
    {
        let i: usize = match self.position(mac) {
            Some(i) => i,
            None => {
                assert(self.links().remove(mac@) =~= self.links());
                return None;
            },
        };
        let ghost before = self.entries@;
        let ghost links_before = self.links();
        proof {
            use_type_invariant(&*self);
            lookup_all(self.entries@, self.next);
        }
        let mut entries: Vec<LinkEntry> = Vec::new();
        std::mem::swap(&mut self.entries, &mut entries);
        let next: u64 = self.next;
        let mut retries: HashMap<u64, u64> = HashMap::new();
        std::mem::swap(&mut self.bad_link_last_retry, &mut retries);
        let removed = entries.remove(i);
        proof {
            let after = entries@;
            assert(forall|k: int| 0 <= k < i ==> #[trigger] after[k] == before[k]);
            assert(forall|k: int| i <= k < after.len() ==> #[trigger] after[k] == before[k + 1]);
            assert forall|a: int, b: int| 0 <= a < b < after.len() implies (
            #[trigger] after[a]).mac@ != (#[trigger] after[b]).mac@ && after[a].id != after[b].id by {
                let x = if a < i { a } else { a + 1 };
                let y = if b < i { b } else { b + 1 };
                assert(before[x].mac@ != before[y].mac@);
            }
            assert(consistent(after, next));
            lookup_all(after, next);
            let want = links_before.remove(mac@);
            assert forall|m: Seq<char>| #[trigger] links_of(after).contains_key(m)
                == want.contains_key(m) && (want.contains_key(m) ==> links_of(after)[m]
                == want[m]) by {
                if links_of(after).contains_key(m) {
                    let a = choose|a: int| 0 <= a < after.len() && (#[trigger] after[a]).mac@ == m;
                    let x = if a < i { a } else { a + 1 };
                    assert(before[x] == after[a]);
                    if x < i {
                        assert(before[x].mac@ != before[i as int].mac@);
                    } else {
                        assert(before[i as int].mac@ != before[x].mac@);
                    }
                }
                if want.contains_key(m) {
                    let x = choose|x: int| 0 <= x < before.len() && (#[trigger] before[x]).mac@ == m;
                    let a = if x < i { x } else { x - 1 };
                    assert(after[a] == before[x]);
                }
            }
            assert(links_of(after) =~= want);
        }
        *self = LinkRegistry { next, entries, bad_link_last_retry: retries };
        Some(removed)
    }

    /// How many links there are.
    pub fn len(&self) -> (r: usize)
        ensures
            r == self.links().dom().len(),
    {
        proof {
            use_type_invariant(self);
            links_are_counted(self.entries@, self.next);
        }
        self.entries.len()
    }

    /// All links. No two share a hardware address or an id.
    pub fn all(&self) -> (r: Vec<LinkEntry>)
        ensures
            links_of(r@) == self.links(),
            consistent(r@, self.next_id()),
    {
        let mut r: Vec<LinkEntry> = Vec::new();
        let mut i: usize = 0;
        while i < self.entries.len()
            invariant
                i <= self.entries@.len(),
                r@.len() == i,
                forall|j: int| 0 <= j < i ==> (#[trigger] r@[j])@ == self.entries@[j]@,
            decreases self.entries@.len() - i,
        {
            r.push(self.entries[i].copy());
            i += 1;
        }
        proof {
            use_type_invariant(self);
            let held = self.entries@;
            assert forall|a: int, b: int| 0 <= a < b < r@.len() implies (#[trigger] r@[a]).mac@ != (
            #[trigger] r@[b]).mac@ && r@[a].id != r@[b].id by {
                assert(r@[a]@ == held[a]@ && r@[b]@ == held[b]@);
                assert(held[a].mac@ != held[b].mac@ && held[a].id != held[b].id);
                assert(r@[a]@.id == held[a]@.id && r@[b]@.id == held[b]@.id);
                assert(r@[a]@.mac == held[a]@.mac && r@[b]@.mac == held[b]@.mac);
            }
            assert forall|a: int| 0 <= a < r@.len() implies 1 <= (#[trigger] r@[a]).id.0
                < self.next by {
                assert(r@[a]@ == held[a]@);
                assert(r@[a]@.id == held[a]@.id);
                assert(1 <= held[a].id.0 < self.next);
            }
            lookup_all(held, self.next);
            lookup_all(r@, self.next);
            assert forall|m: Seq<char>| #[trigger] links_of(r@).contains_key(m)
                == self.links().contains_key(m) && (self.links().contains_key(m) ==> links_of(r@)[m]
                == self.links()[m]) by {
                if links_of(r@).contains_key(m) {
                    let a = choose|a: int| 0 <= a < r@.len() && (#[trigger] r@[a]).mac@ == m;
                    assert(r@[a]@ == held[a]@);
                    assert(r@[a]@.mac == held[a]@.mac);
                    assert(held[a].mac@ == m);
                }
                if self.links().contains_key(m) {
                    let a = choose|a: int| 0 <= a < held.len() && (#[trigger] held[a]).mac@ == m;
                    assert(r@[a]@ == held[a]@);
                    assert(r@[a]@.mac == held[a]@.mac);
                    assert(r@[a].mac@ == m);
                }
            }
            assert(links_of(r@) =~= self.links());
        }
        r
    }

    /// Whether a link that failed may be tried again at `now`; if so, notes the try.
    pub fn should_retry_bad_link(&mut self, link: LinkId, now: u64, min_interval: u64) -> (r: bool)
        ensures
            (r, final(self).retries()) == retry_step(
                old(self).retries(),
                link,
                now,
                min_interval,
            ),
            final(self).links() == old(self).links(),
            final(self).next_id() == old(self).next_id(),
    {
        let too_soon = match self.bad_link_last_retry.get(&link.0) {
            Some(last) => {
                let elapsed: u64 = if now >= *last {
                    now - *last
                } else {
                    0
                };
                elapsed < min_interval
            },
            None => false,
        };
        if too_soon {
            return false;
        }
        proof {
            use_type_invariant(&*self);
        }
        let mut retries: HashMap<u64, u64> = HashMap::new();
        std::mem::swap(&mut self.bad_link_last_retry, &mut retries);
        let ghost before = retries@;
        let _ = retries.insert(link.0, now);
        assert(tries_by_link(retries@) =~= tries_by_link(before).insert(link, now));
        self.bad_link_last_retry = retries;
        true
    }
}

/// The tries noted after these asks, in their order.
pub open spec fn after_asks(
    retries: Map<LinkId, u64>,
    asks: Seq<(LinkId, u64)>,
    min_interval: u64,
) -> Map<LinkId, u64>
    decreases asks.len(),
{
    if asks.len() == 0 {
        retries
    } else {
        let before = after_asks(retries, asks.drop_last(), min_interval);
        retry_step(before, asks.last().0, asks.last().1, min_interval).1
    }
}

/// Whether ask `i` is granted.
pub open spec fn granted(
    retries: Map<LinkId, u64>,
    asks: Seq<(LinkId, u64)>,
    min_interval: u64,
    i: int,
) -> bool {
    retry_step(after_asks(retries, asks.take(i), min_interval), asks[i].0, asks[i].1, min_interval).0
}

proof fn last_try_is_late(
    retries: Map<LinkId, u64>,
    asks: Seq<(LinkId, u64)>,
    min_interval: u64,
    i: int,
    n: int,
)
    requires
        0 <= i < n <= asks.len(),
        forall|a: int, b: int| 0 <= a <= b < asks.len() ==> asks[a].1 <= asks[b].1,
        granted(retries, asks, min_interval, i),
    ensures
        after_asks(retries, asks.take(n), min_interval).contains_key(asks[i].0),
        after_asks(retries, asks.take(n), min_interval)[asks[i].0] >= asks[i].1,
    decreases n,
{
    assert(asks.take(n).drop_last() =~= asks.take(n - 1));
    assert(asks.take(n).last() == asks[n - 1]);
    if n > i + 1 {
        last_try_is_late(retries, asks, min_interval, i, n - 1);
    }
}

/// Two tries of one link that are both granted are at least `min_interval` apart, whatever is asked
/// between them.
pub proof fn granted_tries_are_apart(
    retries: Map<LinkId, u64>,
    asks: Seq<(LinkId, u64)>,
    min_interval: u64,
    i: int,
    j: int,
)
    requires
        0 <= i < j < asks.len(),
        asks[i].0 == asks[j].0,
        forall|a: int, b: int| 0 <= a <= b < asks.len() ==> asks[a].1 <= asks[b].1,
        granted(retries, asks, min_interval, i),
        granted(retries, asks, min_interval, j),
    ensures
        asks[j].1 - asks[i].1 >= min_interval,
{
    last_try_is_late(retries, asks, min_interval, i, j);
}

/// A link is tried again exactly if it never was, or was not tried within the interval; a try that is
/// refused postpones nothing, and none concerns another link.
pub proof fn a_link_is_tried_again_in_time(
    retries: Map<LinkId, u64>,
    link: LinkId,
    other: LinkId,
    now: u64,
    min_interval: u64,
)
    requires
        other != link,
    ensures
        ({
            let (granted, after) = retry_step(retries, link, now, min_interval);
            &&& granted <==> !retries.contains_key(link) || now >= retries[link] + min_interval
                || min_interval == 0
            &&& granted ==> after.contains_key(link) && after[link] == now
            &&& !granted ==> after == retries
            &&& after.contains_key(other) == retries.contains_key(other)
            &&& retries.contains_key(other) ==> after[other] == retries[other]
        }),
{
}

/// A neighbour has one link as long as it is known, whatever is told of it meanwhile; one that comes
/// up anew has the next number, and is noted with its interface and id, and no arc yet. Nothing
/// changes for the other links.
pub proof fn a_neighbour_keeps_its_link(
    links: Map<Seq<char>, EntryView>,
    next: int,
    mac: Seq<char>,
    dev: Seq<char>,
    neighbour_id: i32,
    other: Seq<char>,
)
    requires
        other != mac,
        0 <= next < u64::MAX,
    ensures
        ({
            let (after, n, link) = with_link(links, next, mac, dev, neighbour_id);
            &&& links.contains_key(mac) ==> after == links && n == next && link == links[mac].id
            &&& !links.contains_key(mac) ==> n == next + 1 && link.0 == next
                && after.contains_key(mac) && after[mac].id == link && after[mac].mac == mac
                && after[mac].dev == dev && after[mac].neighbour_id == neighbour_id
                && after[mac].qspn_arc is None
            &&& after.contains_key(other) == links.contains_key(other)
            &&& links.contains_key(other) ==> after[other] == links[other]
            &&& with_link(after, n, mac, dev, neighbour_id).2 == link
        }),
{
}

/// Noting the arc of a link changes nothing else of it, and nothing of another.
pub proof fn an_arc_is_noted_for_its_link_alone(
    links: Map<Seq<char>, EntryView>,
    link: LinkId,
    arc: ArcId,
    mac: Seq<char>,
)
    ensures
        ({
            let after = with_arc(links, link, arc);
            &&& after.contains_key(mac) == links.contains_key(mac)
            &&& links.contains_key(mac) ==> after[mac].id == links[mac].id && after[mac].mac
                == links[mac].mac && after[mac].dev == links[mac].dev && after[mac].neighbour_id
                == links[mac].neighbour_id
            &&& links.contains_key(mac) && links[mac].id == link ==> after[mac].qspn_arc == Some(
                arc,
            )
            &&& links.contains_key(mac) && links[mac].id != link ==> after[mac].qspn_arc
                == links[mac].qspn_arc
        }),
{
}

/// A link carries the arc that is noted for it and leads to the node whose id is noted for it, and no
/// other, as long as no two links share an id.
pub proof fn a_link_carries_what_is_noted_for_it(
    links: Map<Seq<char>, EntryView>,
    mac: Seq<char>,
    arc: ArcId,
    neighbour_id: i32,
)
    requires
        links.contains_key(mac),
        forall|a: Seq<char>, b: Seq<char>| #[trigger]
            links.contains_key(a) && #[trigger] links.contains_key(b) && links[a].id
                == links[b].id ==> a == b,
    ensures
        carries(links, arc, links[mac].id) <==> links[mac].qspn_arc == Some(arc),
        leads_to(links, neighbour_id, links[mac].id) <==> links[mac].neighbour_id == neighbour_id,
{
}

/// What can happen to the links.
pub enum LinkChange {
    /// The link to a neighbour is asked for.
    Up {
        /// The neighbour's hardware address.
        mac: Seq<char>,
        /// The interface.
        dev: Seq<char>,
        /// The neighbour's own id.
        neighbour_id: i32,
    },
    /// The link to the neighbour at this hardware address is forgotten.
    Down(Seq<char>),
    /// The routing protocol's arc of a link is noted.
    Attached(LinkId, ArcId),
}

/// The links and the number of the next one after one change.
pub open spec fn after_change(
    links: Map<Seq<char>, EntryView>,
    next: int,
    change: LinkChange,
) -> (Map<Seq<char>, EntryView>, int) {
    match change {
        LinkChange::Up { mac, dev, neighbour_id } => {
            let (after, n, _) = with_link(links, next, mac, dev, neighbour_id);
            (after, n)
        },
        LinkChange::Down(mac) => (links.remove(mac), next),
        LinkChange::Attached(link, arc) => (with_arc(links, link, arc), next),
    }
}

/// The links and the number of the next one after these changes, in their order.
pub open spec fn after_changes(
    links: Map<Seq<char>, EntryView>,
    next: int,
    changes: Seq<LinkChange>,
) -> (Map<Seq<char>, EntryView>, int)
    decreases changes.len(),
{
    if changes.len() == 0 {
        (links, next)
    } else {
        let (before, n) = after_changes(links, next, changes.drop_last());
        after_change(before, n, changes.last())
    }
}

/// An id is never handed out again: whatever comes and goes, a link either has the id that it had
/// before, or one that had not been handed out then.
pub proof fn ids_are_never_reused(
    links: Map<Seq<char>, EntryView>,
    next: int,
    changes: Seq<LinkChange>,
    mac: Seq<char>,
)
    requires
        0 <= next,
        next + changes.len() <= u64::MAX,
        after_changes(links, next, changes).0.contains_key(mac),
    ensures
        ({
            let id = after_changes(links, next, changes).0[mac].id;
            (links.contains_key(mac) && links[mac].id == id) || id.0 >= next
        }),
    decreases changes.len(),
{
    if changes.len() > 0 {
        let front = changes.drop_last();
        numbers_go_up(links, next, front);
        let (before, _) = after_changes(links, next, front);
        if before.contains_key(mac) {
            ids_are_never_reused(links, next, front, mac);
        }
    }
}

proof fn numbers_go_up(links: Map<Seq<char>, EntryView>, next: int, changes: Seq<LinkChange>)
    ensures
        next <= after_changes(links, next, changes).1 <= next + changes.len(),
    decreases changes.len(),
{
    if changes.len() > 0 {
        numbers_go_up(links, next, changes.drop_last());
    }
}

} // verus!
