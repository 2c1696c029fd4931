//! Whether this network merges into another: a verdict that all members share for a while, and the
//! dealings with the coordinator that follow from it.
use std::collections::HashMap;
use vstd::prelude::*;
use vstd::string::*;
use crate::node::codec::{
    decode_evaluate_enter_answer, decoded, EvaluateEnterAnswer, HookingMemory, Kind, MemoryView,
    Payload,
};
use crate::node::entry::{
    age, age_of, millis_left, recall, recalled, record_view, whole_millis_left,
};
use crate::node::wire::TypedValue;
use crate::sorted_map::{ascending, map_of_ascending, Key, SortedMap};

verus! {

/// A question whether to merge into a neighbour's network.
#[derive(Debug, Clone, Copy, PartialEq, Eq, Structural)]
pub struct MergeArbitrationRequest {
    /// This network.
    pub my_network_id: i64,
    /// The neighbour's.
    pub neighbor_network_id: i64,
    /// How many nodes the neighbour's network holds, by its own account.
    pub neighbor_n_nodes: u64,
}

/// The smaller network merges into the larger one; of two that are equally large, the one with the
/// smaller id.
pub open spec fn yields(my_n: u64, neighbor_n: u64, my_id: i64, neighbor_id: i64) -> bool {
    neighbor_n > my_n || (neighbor_n == my_n && neighbor_id > my_id)
}

/// Whether this network merges into the neighbour's, by size and id alone.
pub fn merge_tiebreak(
    my_n_nodes: u64,
    neighbor_n_nodes: u64,
    my_network_id: i64,
    neighbor_network_id: i64,
) -> (r: bool)
    ensures
        r == yields(my_n_nodes, neighbor_n_nodes, my_network_id, neighbor_network_id),
{
    neighbor_n_nodes > my_n_nodes || (neighbor_n_nodes == my_n_nodes && neighbor_network_id
        > my_network_id)
}

/// Of two networks that know each other's size, exactly one merges into the other.
pub proof fn exactly_one_network_yields(a_n: u64, b_n: u64, a_id: i64, b_id: i64)
    requires
        a_id != b_id,
    ensures
        yields(a_n, b_n, a_id, b_id) != yields(b_n, a_n, b_id, a_id),
{
}

/// The smaller network merges into the larger, never the other way; of two that are equally large,
/// the one of the smaller id into the other. So of any number of networks that meet, exactly one is
/// left that merges into none, and no two can each merge into the other by way of a third.
pub proof fn the_smaller_network_yields(
    a_n: u64,
    b_n: u64,
    c_n: u64,
    a_id: i64,
    b_id: i64,
    c_id: i64,
)
    ensures
        a_n < b_n ==> yields(a_n, b_n, a_id, b_id),
        a_n > b_n ==> !yields(a_n, b_n, a_id, b_id),
        a_n == b_n && a_id < b_id ==> yields(a_n, b_n, a_id, b_id),
        a_n == b_n && a_id >= b_id ==> !yields(a_n, b_n, a_id, b_id),
        yields(a_n, b_n, a_id, b_id) && yields(b_n, c_n, b_id, c_id) ==> yields(
            a_n,
            c_n,
            a_id,
            c_id,
        ),
{
}

/// The verdicts that are younger than `ttl`.
pub open spec fn fresh_only(decisions: Map<i64, (bool, u64)>, now: u64, ttl: u64) -> Map<
    i64,
    (bool, u64),
> {
    Map::new(
        |id: i64| decisions.contains_key(id) && age(now, decisions[id].1) < ttl,
        |id: i64| decisions[id],
    )
}

/// A verdict as one member remembers it.
#[derive(Debug, Clone, Copy, PartialEq, Eq, Structural)]
pub struct Verdict {
    /// Whether to merge.
    pub decision: bool,
    /// When the member noted it, by its steady clock in nanoseconds.
    pub noted_at: u64,
    /// How long it holds from then on, in nanoseconds.
    pub lasts: u64,
}

/// What a question whether to merge leads to.
pub struct MergeView {
    /// The verdict.
    pub decision: bool,
    /// What the member remembers afterwards.
    pub cache: Map<i64, Verdict>,
    /// What the coordinator is to remember, where that changes.
    pub write: Option<MemoryView>,
}

/// The member's own verdict still holds, by its steady clock.
pub open spec fn is_cached(cache: Map<i64, Verdict>, id: i64, now: u64) -> bool {
    cache.contains_key(id) && age(now, cache[id].noted_at) < cache[id].lasts
}

/// The verdict, given what the member and the coordinator remember: the member's own decides while
/// it holds, else the coordinator's while that does, and else size and id do. A verdict that the
/// member decides holds for `ttl`. One that it has from the coordinator holds for the whole
/// milliseconds that are left of it there after the present one. What the member decides for all is
/// written down, and verdicts that are too old are dropped with that.
pub open spec fn merge_decision(
    cache: Map<i64, Verdict>,
    memory: MemoryView,
    req: MergeArbitrationRequest,
    my_n_nodes: u64,
    now: u64,
    now_millis: u64,
    ttl: u64,
    ttl_millis: u64,
) -> MergeView {
    let id = req.neighbor_network_id;
    let fresh = fresh_only(memory.merge_decisions, now_millis, ttl_millis);
    if is_cached(cache, id, now) {
        MergeView { decision: cache[id].decision, cache, write: None }
    } else if fresh.contains_key(id) {
        let (decision, decided_at_millis) = fresh[id];
        let lasts = millis_left(age(now_millis, decided_at_millis), ttl_millis);
        MergeView {
            decision,
            cache: cache.insert(id, Verdict { decision, noted_at: now, lasts }),
            write: None,
        }
    } else {
        let decision = yields(my_n_nodes, req.neighbor_n_nodes, req.my_network_id, id);
        MergeView {
            decision,
            cache: cache.insert(id, Verdict { decision, noted_at: now, lasts: ttl }),
            write: Some(
                MemoryView {
                    merge_decisions: fresh.insert(id, (decision, now_millis)),
                    elections: memory.elections,
                },
            ),
        }
    }
}

/// A verdict, and the record to give the coordinator, where it changes.
#[derive(Debug)]
pub struct MergeDecision {
    /// Whether to merge.
    pub decision: bool,
    /// What the coordinator is to remember from now on.
    pub write: Option<HookingMemory>,
}

/// One member's memory of the verdicts, and how long they hold.
#[derive(Debug)]
pub struct CoordinatorClientAdapter {
    merge_decisions: HashMap<i64, Verdict>,
    merge_decision_ttl: u64,
}

fn keep_fresh(decisions: &SortedMap<i64, (bool, u64)>, now: u64, ttl: u64) -> (r: SortedMap<
    i64,
    (bool, u64),
>)
    ensures
        r@ == fresh_only(decisions@, now, ttl),
{
    let entries = decisions.entries();
    let mut r: SortedMap<i64, (bool, u64)> = SortedMap::new();
    let mut i: usize = 0;
    proof {
        map_of_ascending(entries@);
    }
    while i < entries.len()
        invariant
            i <= entries@.len(),
            ascending(entries@),
            forall|id: i64| #[trigger]
                r@.contains_key(id) <==> exists|j: int|
                    0 <= j < i && (#[trigger] entries@[j]).0 == id && age(now, entries@[j].1.1)
                        < ttl,
            forall|j: int|
                0 <= j < i && r@.contains_key((#[trigger] entries@[j]).0) ==> r@[entries@[j].0]
                    == entries@[j].1,
        decreases entries@.len() - i,
    {
        let id = entries[i].0;
        let at: u64 = entries[i].1.1;
        let elapsed: u64 = if now >= at {
            now - at
        } else {
            0
        };
        let ghost before = r@;
        if elapsed < ttl {
            r.insert(id, entries[i].1);
        }
        proof {
            assert forall|k: i64| #[trigger] r@.contains_key(k) <==> exists|j: int|
                0 <= j < i + 1 && (#[trigger] entries@[j]).0 == k && age(now, entries@[j].1.1)
                    < ttl by {
                if before.contains_key(k) {
                    let j = choose|j: int|
                        0 <= j < i && (#[trigger] entries@[j]).0 == k && age(now, entries@[j].1.1)
                            < ttl;
                    assert(entries@[j].0 == k);
                }
                if r@.contains_key(k) && !before.contains_key(k) {
                    assert(entries@[i as int].0 == k);
                }
            }
            assert forall|j: int| 0 <= j < i + 1 && r@.contains_key((#[trigger] entries@[j]).0) implies r@[entries@[j].0]
                == entries@[j].1 by {
                if j < i {
                    assert(entries@[j].0.rank() < entries@[i as int].0.rank());
                    assert(entries@[j].0 != id);
                } else if !(elapsed < ttl) {
                    let k = choose|k: int|
                        0 <= k < i && (#[trigger] entries@[k]).0 == id && age(now, entries@[k].1.1)
                            < ttl;
                    assert(entries@[k].0.rank() < entries@[i as int].0.rank());
                }
            }
        }
        i += 1;
    }
    proof {
        let want = fresh_only(decisions@, now, ttl);
        assert forall|id: i64| #[trigger] r@.contains_key(id) == want.contains_key(id) && (
        want.contains_key(id) ==> r@[id] == want[id]) by {
            if want.contains_key(id) {
                let j = choose|j: int| 0 <= j < entries@.len() && (#[trigger] entries@[j]).0 == id;
                assert(decisions@[id] == entries@[j].1);
                assert(r@.contains_key(id));
            }
            if r@.contains_key(id) {
                let j = choose|j: int|
                    0 <= j < entries@.len() && (#[trigger] entries@[j]).0 == id && age(
                        now,
                        entries@[j].1.1,
                    ) < ttl;
                assert(decisions@[id] == entries@[j].1);
            }
        }
        assert(r@ =~= want);
    }
    r
}

impl CoordinatorClientAdapter {
    /// The verdicts that the member remembers.
    pub closed spec fn view(&self) -> Map<i64, Verdict> {
        self.merge_decisions@
    }

    /// How long a verdict holds, in nanoseconds.
    pub closed spec fn ttl(&self) -> u64 {
        self.merge_decision_ttl
    }

    /// How long a verdict holds, in whole milliseconds.
    pub open spec fn ttl_millis(&self) -> u64 {
        self.ttl() / 1_000_000
    }

    /// A member that remembers nothing.
    pub fn new(merge_decision_ttl: u64) -> (r: CoordinatorClientAdapter)
        ensures
            r@ == Map::<i64, Verdict>::empty(),
            r.ttl() == merge_decision_ttl,
    {
        CoordinatorClientAdapter { merge_decisions: HashMap::new(), merge_decision_ttl }
    }

    fn cached(&self, id: i64, now: u64) -> (r: Option<bool>)
        ensures
            r is Some == is_cached(self@, id, now),
            r is Some ==> r->Some_0 == self@[id].decision,
    {
        match self.merge_decisions.get(&id) {
            Some(held) => if age_of(now, held.noted_at) < held.lasts {
                Some(held.decision)
            } else {
                None
            },
            None => None,
        }
    }

    /// Whether the verdict depends on how large this network is: whether neither the member nor the
    /// coordinator remembers one that still holds.
    pub fn needs_size(
        &self,
        req: MergeArbitrationRequest,
        record: Option<&TypedValue>,
        now: u64,
        now_millis: u64,
    ) -> (r: bool)
        ensures
            r == (!is_cached(self@, req.neighbor_network_id, now) && !fresh_only(
                recalled(record_view(record)).merge_decisions,
                now_millis,
                self.ttl_millis(),
            ).contains_key(req.neighbor_network_id)),
    {
        match self.cached(req.neighbor_network_id, now) {
            Some(_) => false,
            None => {
                let memory = recall(record);
                let fresh = keep_fresh(
                    &memory.merge_decisions,
                    now_millis,
                    self.merge_decision_ttl / 1_000_000,
                );
                !fresh.contains_key(&req.neighbor_network_id)
            },
        }
    }

    /// The verdict on a merge, given the coordinator's record and how large this network is.
    pub fn decide_merge(
        &mut self,
        req: MergeArbitrationRequest,
        record: Option<&TypedValue>,
        my_n_nodes: u64,
        now: u64,
        now_millis: u64,
    ) -> (r: MergeDecision)
        ensures
            ({
                let decided = merge_decision(
                    old(self)@,
                    recalled(record_view(record)),
                    req,
                    my_n_nodes,
                    now,
                    now_millis,
                    old(self).ttl(),
                    old(self).ttl_millis(),
                );
                &&& r.decision == decided.decision
                &&& final(self)@ == decided.cache
                &&& final(self).ttl() == old(self).ttl()
                &&& r.write is Some == decided.write is Some
                &&& r.write is Some ==> r.write->Some_0@ == decided.write->Some_0
            }),
    {
        let id = req.neighbor_network_id;
        match self.cached(id, now) {
            Some(decision) => {
                return MergeDecision { decision, write: None };
            },
            None => {},
        }
        let memory = recall(record);
        let mut fresh = keep_fresh(
            &memory.merge_decisions,
            now_millis,
            self.merge_decision_ttl / 1_000_000,
        );
        let known = match fresh.get(&id) {
            Some((decision, at)) => Some((*decision, *at)),
            None => None,
        };
        match known {
            Some((decision, at)) => {
                let lasts: u64 = whole_millis_left(
                    age_of(now_millis, at),
                    self.merge_decision_ttl / 1_000_000,
                );
                let _ = self.merge_decisions.insert(
                    id,
                    Verdict { decision, noted_at: now, lasts },
                );
                MergeDecision { decision, write: None }
            },
            None => {
                let decision = merge_tiebreak(
                    my_n_nodes,
                    req.neighbor_n_nodes,
                    req.my_network_id,
                    id,
                );
                fresh.insert(id, (decision, now_millis));
                let _ = self.merge_decisions.insert(
                    id,
                    Verdict { decision, noted_at: now, lasts: self.merge_decision_ttl },
                );
                let write = HookingMemory { merge_decisions: fresh, elections: memory.elections };
                MergeDecision { decision, write: Some(write) }
            },
        }
    }
}

/// A question to one member, with what it knows when it is asked.
pub struct MergeAsk {
    /// The member.
    pub member: int,
    /// The question.
    pub req: MergeArbitrationRequest,
    /// How large this member takes this network to be.
    pub my_n_nodes: u64,
    /// The time by the member's steady clock.
    pub now: u64,
    /// The time by the system's clock.
    pub now_millis: u64,
}

/// What several members, each by its own memory, and their one coordinator remember.
pub struct MergeState {
    /// What each member remembers.
    pub caches: Map<int, Map<i64, Verdict>>,
    /// What the coordinator remembers.
    pub memory: MemoryView,
}

impl MergeState {
    /// What one member remembers.
    pub open spec fn cache(self, member: int) -> Map<i64, Verdict> {
        if self.caches.contains_key(member) {
            self.caches[member]
        } else {
            Map::empty()
        }
    }

    /// What one member decides now.
    pub open spec fn decides(self, ask: MergeAsk, ttl: u64, ttl_millis: u64) -> MergeView {
        merge_decision(
            self.cache(ask.member),
            self.memory,
            ask.req,
            ask.my_n_nodes,
            ask.now,
            ask.now_millis,
            ttl,
            ttl_millis,
        )
    }
}

/// The state after one question.
pub open spec fn after_merge_ask(state: MergeState, ask: MergeAsk, ttl: u64, ttl_millis: u64) ->
    MergeState {
    let decided = state.decides(ask, ttl, ttl_millis);
    MergeState {
        caches: state.caches.insert(ask.member, decided.cache),
        memory: match decided.write {
            Some(memory) => memory,
            None => state.memory,
        },
    }
}

/// The state after these questions, in their order.
pub open spec fn after_merge_asks(
    state: MergeState,
    asks: Seq<MergeAsk>,
    ttl: u64,
    ttl_millis: u64,
) -> MergeState
    decreases asks.len(),
{
    if asks.len() == 0 {
        state
    } else {
        after_merge_ask(
            after_merge_asks(state, asks.drop_last(), ttl, ttl_millis),
            asks.last(),
            ttl,
            ttl_millis,
        )
    }
}

/// When a question was asked, in nanoseconds since the epoch: `boot` tells when each member's
/// steady clock was started.
pub open spec fn asked_at(asks: Seq<MergeAsk>, boot: spec_fn(int) -> int, i: int) -> int {
    asks[i].now + boot(asks[i].member)
}

/// The members' clocks are right: time only goes forward, and the system's clock shows the whole
/// milliseconds of it.
pub open spec fn in_order(asks: Seq<MergeAsk>, boot: spec_fn(int) -> int) -> bool {
    &&& forall|i: int|
        0 <= i < asks.len() ==> (#[trigger] asks[i]).now_millis == asked_at(asks, boot, i)
            / 1_000_000
    &&& forall|i: int, j: int|
        0 <= i <= j < asks.len() ==> #[trigger] asked_at(asks, boot, i) <= #[trigger] asked_at(
            asks,
            boot,
            j,
        )
}

/// Nobody remembers a verdict.
pub open spec fn no_verdicts(state: MergeState) -> bool {
    &&& forall|m: int, id: i64| !(#[trigger] state.cache(m).contains_key(id))
    &&& forall|id: i64| !(#[trigger] state.memory.merge_decisions.contains_key(id))
}

/// What question `i` leads to.
pub open spec fn decided_at(state: MergeState, asks: Seq<MergeAsk>, ttl: u64, i: int) -> MergeView {
    after_merge_asks(state, asks.take(i), ttl, ttl / 1_000_000).decides(
        asks[i],
        ttl,
        ttl / 1_000_000,
    )
}

/// Question `i` finds no verdict that holds and is decided afresh.
pub open spec fn is_decided_afresh(state: MergeState, asks: Seq<MergeAsk>, ttl: u64, i: int) -> bool {
    decided_at(state, asks, ttl, i).write is Some
}

/// Question `j` is about the network of question `i`, and comes while a record made at `i` holds.
pub open spec fn within_window(asks: Seq<MergeAsk>, ttl: u64, i: int, j: int) -> bool {
    &&& asks[j].req.neighbor_network_id == asks[i].req.neighbor_network_id
    &&& asks[j].now_millis - asks[i].now_millis < ttl / 1_000_000
}

/// What member `m` remembers of `id` stems from question `i`: the member was asked it itself, or it
/// has it from the record that was made then, and holds it no longer than that holds.
spec fn held_from(
    state: MergeState,
    asks: Seq<MergeAsk>,
    ttl: u64,
    boot: spec_fn(int) -> int,
    m: int,
    id: i64,
    held: Verdict,
    i: int,
) -> bool {
    let end = held.noted_at + boot(m) + held.lasts;
    &&& asks[i].req.neighbor_network_id == id
    &&& is_decided_afresh(state, asks, ttl, i)
    &&& decided_at(state, asks, ttl, i).decision == held.decision
    &&& {
        ||| asks[i].member == m && end == asked_at(asks, boot, i) + ttl
        ||| end <= (asks[i].now_millis + ttl / 1_000_000) * 1_000_000
    }
}

/// Everything remembered after `n` questions stems from one of them.
spec fn is_traced(
    state: MergeState,
    asks: Seq<MergeAsk>,
    ttl: u64,
    boot: spec_fn(int) -> int,
    n: int,
) -> bool {
    let after = after_merge_asks(state, asks.take(n), ttl, ttl / 1_000_000);
    let record = after.memory.merge_decisions;
    &&& forall|id: i64| #[trigger]
        record.contains_key(id) ==> exists|i: int|
            0 <= i < n && #[trigger] recorded_from(state, asks, ttl, i, id, record[id])
    &&& forall|m: int, id: i64| #[trigger]
        after.cache(m).contains_key(id) ==> exists|i: int|
            0 <= i < n && #[trigger] held_from(
                state,
                asks,
                ttl,
                boot,
                m,
                id,
                after.cache(m)[id],
                i,
            )
    &&& forall|m: int, id: i64| #[trigger]
        after.cache(m).contains_key(id) ==> n > 0 && after.cache(m)[id].noted_at + boot(m)
            <= asked_at(asks, boot, n - 1)
}

spec fn recorded_from(
    state: MergeState,
    asks: Seq<MergeAsk>,
    ttl: u64,
    i: int,
    id: i64,
    record: (bool, u64),
) -> bool {
    &&& asks[i].req.neighbor_network_id == id
    &&& asks[i].now_millis == record.1
    &&& is_decided_afresh(state, asks, ttl, i)
    &&& decided_at(state, asks, ttl, i).decision == record.0
}

proof fn memories_are_traced(
    state: MergeState,
    asks: Seq<MergeAsk>,
    ttl: u64,
    boot: spec_fn(int) -> int,
    n: int,
)
    requires
        no_verdicts(state),
        in_order(asks, boot),
        0 <= n <= asks.len(),
    ensures
        is_traced(state, asks, ttl, boot, n),
    decreases n,
{
    if n == 0 {
        assert(asks.take(0) =~= Seq::empty());
    } else {
        memories_are_traced(state, asks, ttl, boot, n - 1);
        let ask = asks[n - 1];
        let before = after_merge_asks(state, asks.take(n - 1), ttl, ttl / 1_000_000);
        let after = after_merge_asks(state, asks.take(n), ttl, ttl / 1_000_000);
        let old_record = before.memory.merge_decisions;
        let record = after.memory.merge_decisions;
        assert(asks.take(n).drop_last() =~= asks.take(n - 1));
        assert(asks.take(n).last() == ask);
        assert forall|id: i64| #[trigger] record.contains_key(id) implies exists|i: int|
            0 <= i < n && #[trigger] recorded_from(state, asks, ttl, i, id, record[id]) by {
            if id == ask.req.neighbor_network_id && is_decided_afresh(state, asks, ttl, n - 1) {
                assert(recorded_from(state, asks, ttl, n - 1, id, record[id]));
            } else {
                assert(old_record.contains_key(id) && old_record[id] == record[id]);
                let i = choose|i: int|
                    0 <= i < n - 1 && #[trigger] recorded_from(
                        state,
                        asks,
                        ttl,
                        i,
                        id,
                        old_record[id],
                    );
                assert(recorded_from(state, asks, ttl, i, id, record[id]));
            }
        }
        assert forall|m: int, id: i64| #[trigger] after.cache(m).contains_key(id) implies (exists|
            i: int,
        |
            0 <= i < n && #[trigger] held_from(
                state,
                asks,
                ttl,
                boot,
                m,
                id,
                after.cache(m)[id],
                i,
            )) && after.cache(m)[id].noted_at + boot(m) <= asked_at(asks, boot, n - 1) by {
            step_is_traced(state, asks, ttl, boot, n, m, id);
        }
    }
}

proof fn step_is_traced(
    state: MergeState,
    asks: Seq<MergeAsk>,
    ttl: u64,
    boot: spec_fn(int) -> int,
    n: int,
    m: int,
    id: i64,
)
    requires
        in_order(asks, boot),
        0 < n <= asks.len(),
        is_traced(state, asks, ttl, boot, n - 1),
        after_merge_asks(state, asks.take(n), ttl, ttl / 1_000_000).cache(m).contains_key(id),
    ensures
        ({
            let held = after_merge_asks(state, asks.take(n), ttl, ttl / 1_000_000).cache(m)[id];
            &&& held.noted_at + boot(m) <= asked_at(asks, boot, n - 1)
            &&& exists|i: int|
                0 <= i < n && #[trigger] held_from(state, asks, ttl, boot, m, id, held, i)
        }),
{
    let ask = asks[n - 1];
    let before = after_merge_asks(state, asks.take(n - 1), ttl, ttl / 1_000_000);
    let after = after_merge_asks(state, asks.take(n), ttl, ttl / 1_000_000);
    assert(asks.take(n).drop_last() =~= asks.take(n - 1));
    assert(asks.take(n).last() == ask);
    let held = after.cache(m)[id];
    let old_record = before.memory.merge_decisions;
    let here = asked_at(asks, boot, n - 1);
    if m != ask.member {
        assert(after.cache(m) == before.cache(m));
    }
    if m != ask.member || id != ask.req.neighbor_network_id || is_cached(
        before.cache(m),
        id,
        ask.now,
    ) {
        assert(before.cache(m).contains_key(id));
        assert(before.cache(m)[id] == held);
        let i = choose|i: int|
            0 <= i < n - 1 && #[trigger] held_from(state, asks, ttl, boot, m, id, held, i);
        assert(held_from(state, asks, ttl, boot, m, id, held, i));
        assert(asked_at(asks, boot, n - 2) <= asked_at(asks, boot, n - 1));
    } else if fresh_only(old_record, ask.now_millis, ttl / 1_000_000).contains_key(id) {
        assert(old_record.contains_key(id));
        let i = choose|i: int|
            0 <= i < n - 1 && #[trigger] recorded_from(state, asks, ttl, i, id, old_record[id]);
        assert(recorded_from(state, asks, ttl, i, id, old_record[id]));
        assert(asked_at(asks, boot, i) <= asked_at(asks, boot, n - 1));
        assert(asks[i].now_millis == asked_at(asks, boot, i) / 1_000_000);
        assert(ask.now_millis == here / 1_000_000);
        let past = ask.now_millis - asks[i].now_millis;
        assert(held.lasts == (ttl / 1_000_000 - past - 1) * 1_000_000);
        assert(here < (ask.now_millis + 1) * 1_000_000);
        assert(held_from(state, asks, ttl, boot, m, id, held, i));
    } else {
        assert(is_decided_afresh(state, asks, ttl, n - 1));
        assert(held_from(state, asks, ttl, boot, m, id, held, n - 1));
    }
}

proof fn record_stays(
    state: MergeState,
    asks: Seq<MergeAsk>,
    ttl: u64,
    boot: spec_fn(int) -> int,
    i: int,
    n: int,
)
    requires
        in_order(asks, boot),
        0 <= i < n <= asks.len(),
        is_decided_afresh(state, asks, ttl, i),
        asks[n - 1].now_millis - asks[i].now_millis < ttl / 1_000_000 || n == i + 1,
    ensures
        ({
            let record = after_merge_asks(
                state,
                asks.take(n),
                ttl,
                ttl / 1_000_000,
            ).memory.merge_decisions;
            let id = asks[i].req.neighbor_network_id;
            &&& record.contains_key(id)
            &&& record[id] == (decided_at(state, asks, ttl, i).decision, asks[i].now_millis)
        }),
    decreases n,
{
    let id = asks[i].req.neighbor_network_id;
    let ask = asks[n - 1];
    let before = after_merge_asks(state, asks.take(n - 1), ttl, ttl / 1_000_000);
    assert(asks.take(n).drop_last() =~= asks.take(n - 1));
    assert(asks.take(n).last() == ask);
    if n > i + 1 {
        later_millis(asks, boot, n - 2, n - 1);
        later_millis(asks, boot, i, n - 1);
        record_stays(state, asks, ttl, boot, i, n - 1);
        assert(fresh_only(
            before.memory.merge_decisions,
            ask.now_millis,
            ttl / 1_000_000,
        ).contains_key(id));
    }
}

proof fn later_millis(asks: Seq<MergeAsk>, boot: spec_fn(int) -> int, i: int, j: int)
    requires
        in_order(asks, boot),
        0 <= i <= j < asks.len(),
    ensures
        asks[i].now_millis <= asks[j].now_millis,
{
    assert(asked_at(asks, boot, i) <= asked_at(asks, boot, j));
    assert(asks[i].now_millis == asked_at(asks, boot, i) / 1_000_000);
    assert(asks[j].now_millis == asked_at(asks, boot, j) / 1_000_000);
}

proof fn fresh_decisions_are_apart(
    state: MergeState,
    asks: Seq<MergeAsk>,
    ttl: u64,
    boot: spec_fn(int) -> int,
    k: int,
    i: int,
)
    requires
        in_order(asks, boot),
        0 <= k < i < asks.len(),
        is_decided_afresh(state, asks, ttl, k),
        is_decided_afresh(state, asks, ttl, i),
        asks[k].req.neighbor_network_id == asks[i].req.neighbor_network_id,
    ensures
        asks[i].now_millis - asks[k].now_millis >= ttl / 1_000_000,
{
    if asks[i].now_millis - asks[k].now_millis < ttl / 1_000_000 {
        later_millis(asks, boot, i - 1, i);
        later_millis(asks, boot, k, i);
        record_stays(state, asks, ttl, boot, k, i);
    }
}

/// While a record holds, every member that is asked about the same network gives the same verdict,
/// whatever sizes it has heard of, and writes nothing down. That is so of every verdict that is
/// ever decided, however many came before it. The one exception is a member that decided otherwise
/// itself before, less than `ttl` ago by its own clock: the record of that ended up to a millisecond
/// sooner, since records are dated in whole milliseconds.
pub proof fn members_agree_on_a_merge(
    state: MergeState,
    asks: Seq<MergeAsk>,
    ttl: u64,
    boot: spec_fn(int) -> int,
    i: int,
    j: int,
)
    requires
        no_verdicts(state),
        in_order(asks, boot),
        0 <= i < j < asks.len(),
        is_decided_afresh(state, asks, ttl, i),
        within_window(asks, ttl, i, j),
        forall|k: int|
            0 <= k < i && (#[trigger] asks[k]).member == asks[j].member
                && asks[k].req.neighbor_network_id == asks[j].req.neighbor_network_id
                && is_decided_afresh(state, asks, ttl, k) ==> asked_at(asks, boot, j) - asked_at(
                asks,
                boot,
                k,
            ) >= ttl || decided_at(state, asks, ttl, k).decision == decided_at(
                state,
                asks,
                ttl,
                i,
            ).decision,
    ensures
        decided_at(state, asks, ttl, j).decision == decided_at(state, asks, ttl, i).decision,
        decided_at(state, asks, ttl, j).write is None,
{
    let id = asks[i].req.neighbor_network_id;
    let ask = asks[j];
    let before = after_merge_asks(state, asks.take(j), ttl, ttl / 1_000_000);
    later_millis(asks, boot, j - 1, j);
    later_millis(asks, boot, i, j);
    record_stays(state, asks, ttl, boot, i, j);
    memories_are_traced(state, asks, ttl, boot, j);
    assert(fresh_only(
        before.memory.merge_decisions,
        ask.now_millis,
        ttl / 1_000_000,
    ).contains_key(id));
    if is_cached(before.cache(ask.member), id, ask.now) {
        let m = ask.member;
        let held = before.cache(m)[id];
        assert(before.cache(m).contains_key(id));
        let k = choose|k: int|
            0 <= k < j && #[trigger] held_from(state, asks, ttl, boot, m, id, held, k);
        assert(held_from(state, asks, ttl, boot, m, id, held, k));
        let end = held.noted_at + boot(m) + held.lasts;
        assert(asked_at(asks, boot, j) < end);
        if k > i {
            fresh_decisions_are_apart(state, asks, ttl, boot, i, k);
            later_millis(asks, boot, k, j);
        } else if k < i {
            fresh_decisions_are_apart(state, asks, ttl, boot, k, i);
            assert(asked_at(asks, boot, i) <= asked_at(asks, boot, j));
            assert(asks[i].now_millis == asked_at(asks, boot, i) / 1_000_000);
            assert(asks[k].member == asks[k].member);
        }
    }
}

/// No verdict outlives its window, whoever remembers it and however it came there: what a member
/// answers was decided afresh, from sizes, at this question or at one about the same network that
/// is less than `ttl` old.
pub proof fn no_verdict_outlives_its_window(
    state: MergeState,
    asks: Seq<MergeAsk>,
    ttl: u64,
    boot: spec_fn(int) -> int,
    j: int,
) -> (i: int)
    requires
        no_verdicts(state),
        in_order(asks, boot),
        0 <= j < asks.len(),
    ensures
        0 <= i <= j,
        asks[i].req.neighbor_network_id == asks[j].req.neighbor_network_id,
        i == j || asked_at(asks, boot, j) - asked_at(asks, boot, i) < ttl,
        is_decided_afresh(state, asks, ttl, i),
        decided_at(state, asks, ttl, j).decision == yields(
            asks[i].my_n_nodes,
            asks[i].req.neighbor_n_nodes,
            asks[i].req.my_network_id,
            asks[i].req.neighbor_network_id,
        ),
{
    let ask = asks[j];
    let id = ask.req.neighbor_network_id;
    let m = ask.member;
    let before = after_merge_asks(state, asks.take(j), ttl, ttl / 1_000_000);
    let record = before.memory.merge_decisions;
    memories_are_traced(state, asks, ttl, boot, j);
    if is_decided_afresh(state, asks, ttl, j) {
        j
    } else if is_cached(before.cache(m), id, ask.now) {
        let held = before.cache(m)[id];
        assert(before.cache(m).contains_key(id));
        let i = choose|i: int|
            0 <= i < j && #[trigger] held_from(state, asks, ttl, boot, m, id, held, i);
        assert(held_from(state, asks, ttl, boot, m, id, held, i));
        assert(asks[i].now_millis == asked_at(asks, boot, i) / 1_000_000);
        assert(asked_at(asks, boot, j - 1) <= asked_at(asks, boot, j));
        i
    } else {
        assert(record.contains_key(id));
        let i = choose|i: int|
            0 <= i < j && #[trigger] recorded_from(state, asks, ttl, i, id, record[id]);
        assert(recorded_from(state, asks, ttl, i, id, record[id]));
        later_millis(asks, boot, i, j);
        assert(asks[i].now_millis == asked_at(asks, boot, i) / 1_000_000);
        assert(asks[j].now_millis == asked_at(asks, boot, j) / 1_000_000);
        i
    }
}

/// A verdict that no longer holds is not repeated: the next question is decided by the sizes it
/// comes with.
pub proof fn an_old_verdict_is_not_repeated(
    cache: Map<i64, Verdict>,
    memory: MemoryView,
    req: MergeArbitrationRequest,
    my_n_nodes: u64,
    now: u64,
    now_millis: u64,
    ttl: u64,
    ttl_millis: u64,
)
    requires
        !is_cached(cache, req.neighbor_network_id, now),
        memory.merge_decisions.contains_key(req.neighbor_network_id) ==> age(
            now_millis,
            memory.merge_decisions[req.neighbor_network_id].1,
        ) >= ttl_millis,
    ensures
        merge_decision(
            cache,
            memory,
            req,
            my_n_nodes,
            now,
            now_millis,
            ttl,
            ttl_millis,
        ).decision == yields(
            my_n_nodes,
            req.neighbor_n_nodes,
            req.my_network_id,
            req.neighbor_network_id,
        ),
{
}

/// A member that has decided or read a verdict repeats it, whatever it hears of sizes meanwhile, and
/// asks and tells nobody: for `ttl` by its steady clock where it decided itself, and where it read
/// it, for the whole milliseconds that were left of it.
pub proof fn a_held_verdict_is_repeated(
    cache: Map<i64, Verdict>,
    memory: MemoryView,
    first: MergeArbitrationRequest,
    again: MergeArbitrationRequest,
    later_memory: MemoryView,
    my_n_nodes: u64,
    my_n_later: u64,
    now: u64,
    now_millis: u64,
    later: u64,
    later_millis: u64,
    ttl: u64,
)
    requires
        again.neighbor_network_id == first.neighbor_network_id,
        now <= later,
    ensures
        ({
            let id = first.neighbor_network_id;
            let one = merge_decision(
                cache,
                memory,
                first,
                my_n_nodes,
                now,
                now_millis,
                ttl,
                ttl / 1_000_000,
            );
            let two = merge_decision(
                one.cache,
                later_memory,
                again,
                my_n_later,
                later,
                later_millis,
                ttl,
                ttl / 1_000_000,
            );
            let fresh_record = memory.merge_decisions.contains_key(id) && (now_millis
                < memory.merge_decisions[id].1 || now_millis - memory.merge_decisions[id].1 < ttl
                / 1_000_000);
            let held = cache.contains_key(id) && (now < cache[id].noted_at || now
                - cache[id].noted_at < cache[id].lasts) && cache[id].lasts > 0;
            let left = if now_millis < memory.merge_decisions[id].1 {
                ttl / 1_000_000 - 1
            } else {
                ttl / 1_000_000 - (now_millis - memory.merge_decisions[id].1) - 1
            };
            &&& held ==> one.decision == cache[id].decision && one.cache == cache
                && one.write is None
            &&& !held && fresh_record && ttl >= 1_000_000 ==> one.decision
                == memory.merge_decisions[id].0 && one.write is None && (later - now < left
                * 1_000_000 ==> two.decision == one.decision && two.write is None && two.cache
                == one.cache)
            &&& !held && !fresh_record ==> one.write is Some && (later - now < ttl
                ==> two.decision == one.decision && two.write is None && two.cache == one.cache)
        }),
{
    let id = first.neighbor_network_id;
    let t = ttl / 1_000_000;
    assert(0 <= t && t * 1_000_000 <= ttl);
    if memory.merge_decisions.contains_key(id) {
        let at = memory.merge_decisions[id].1;
        let past = age(now_millis, at);
        if past < t {
            let left = t - past - 1;
            assert(0 <= left * 1_000_000 <= ttl);
            assert(millis_left(past, t as u64) == left * 1_000_000);
        }
    }
}

/// What a member writes down is its own verdict, dated now, and beside it the verdicts on other
/// networks that still hold, and those only; the elections stay as they were.
pub proof fn a_fresh_verdict_keeps_what_still_holds(
    cache: Map<i64, Verdict>,
    memory: MemoryView,
    req: MergeArbitrationRequest,
    my_n_nodes: u64,
    now: u64,
    now_millis: u64,
    ttl: u64,
    ttl_millis: u64,
    other: i64,
)
    requires
        other != req.neighbor_network_id,
    ensures
        ({
            let r = merge_decision(
                cache,
                memory,
                req,
                my_n_nodes,
                now,
                now_millis,
                ttl,
                ttl_millis,
            );
            r.write is Some ==> {
                let after = r.write->Some_0;
                let id = req.neighbor_network_id;
                &&& after.elections == memory.elections
                &&& after.merge_decisions.contains_key(id)
                &&& after.merge_decisions[id] == (r.decision, now_millis)
                &&& after.merge_decisions.contains_key(other)
                    <==> memory.merge_decisions.contains_key(other) && (if now_millis
                    >= memory.merge_decisions[other].1 {
                    now_millis - memory.merge_decisions[other].1 < ttl_millis
                } else {
                    0 < ttl_millis
                })
                &&& after.merge_decisions.contains_key(other) ==> after.merge_decisions[other]
                    == memory.merge_decisions[other]
                &&& r.cache.contains_key(other) == cache.contains_key(other)
                &&& cache.contains_key(other) ==> r.cache[other] == cache[other]
            }
        }),
{
}

/// What came of asking a coordinator.
#[derive(Debug, PartialEq, Eq)]
pub enum CoordinatorError {
    /// It is to be asked again.
    AskAgain,
    /// The network is to be left alone.
    IgnoreNetwork,
    /// Nobody coordinates that level.
    NoCoordinatorForLevel,
    /// It could not be reached or understood.
    Unreachable(String),
}

/// What a coordinator's reply to a question whether to enter means: the level at which to enter, or
/// why not.
pub fn enter_outcome(reply: Result<TypedValue, String>) -> (r: Result<usize, CoordinatorError>)
    ensures
        match reply {
            Err(reason) => r is Err && r->Err_0 is Unreachable && r->Err_0->Unreachable_0@
                == reason@,
            Ok(tv) => match decoded(Kind::EvaluateEnterAnswer, tv@) {
                Ok(Payload::Answer(EvaluateEnterAnswer::Accepted { chosen_lvl })) => r is Ok
                    && r->Ok_0 == chosen_lvl,
                Ok(Payload::Answer(EvaluateEnterAnswer::AskAgain)) => r is Err
                    && r->Err_0 is AskAgain,
                Ok(_) => r is Err && r->Err_0 is IgnoreNetwork,
                Err(refusal) => r is Err && r->Err_0 is Unreachable && r->Err_0->Unreachable_0@
                    == refusal.printed(),
            },
        },
{
    match reply {
        Err(reason) => Err(CoordinatorError::Unreachable(reason)),
        Ok(tv) => match decode_evaluate_enter_answer(&tv) {
            Ok(EvaluateEnterAnswer::Accepted { chosen_lvl }) => Ok(chosen_lvl),
            Ok(EvaluateEnterAnswer::AskAgain) => Err(CoordinatorError::AskAgain),
            Ok(EvaluateEnterAnswer::IgnoreNetwork) => Err(CoordinatorError::IgnoreNetwork),
            Err(error) => Err(CoordinatorError::Unreachable(error.message())),
        },
    }
}

/// A place kept for a g-node that enters.
#[derive(Debug, Clone, Copy, PartialEq, Eq, Structural)]
pub struct Reservation {
    /// Its position.
    pub pos: u32,
    /// Its seniority.
    pub eldership: i32,
}

/// What a coordinator's reply to a request for a place means. A seniority too great to be told
/// apart is the greatest.
pub fn reservation_outcome(outcome: Result<Option<(u32, u64)>, String>) -> (r: Result<
    Reservation,
    CoordinatorError,
>)
    ensures
        match outcome {
            Err(reason) => r is Err && r->Err_0 is Unreachable && r->Err_0->Unreachable_0@
                == reason@,
            Ok(None) => r is Err && r->Err_0 is NoCoordinatorForLevel,
            Ok(Some((pos, eldership))) => {
                &&& r is Ok
                &&& r->Ok_0.pos == pos
                &&& r->Ok_0.eldership == (if eldership <= i32::MAX {
                    eldership as int
                } else {
                    i32::MAX as int
                })
            },
        },
{
    match outcome {
        Err(reason) => Err(CoordinatorError::Unreachable(reason)),
        Ok(None) => Err(CoordinatorError::NoCoordinatorForLevel),
        Ok(Some((pos, eldership))) => Ok(
            Reservation {
                pos,
                eldership: if eldership <= 0x7fff_ffff {
                    eldership as i32
                } else {
                    i32::MAX
                },
            },
        ),
    }
}

/// How large the network is by its coordinator; this node alone where that cannot be had.
pub fn n_nodes_outcome(reply: Result<u64, String>) -> (r: u64)
    ensures
        r == match reply {
            Ok(n) => n,
            Err(_) => 1,
        },
{
    match reply {
        Ok(n) => n,
        Err(_) => 1,
    }
}

} // verus!
