//! Who may enter another network, and whether to merge into it at all: the elections and verdicts
//! on which the members of one g-node agree through their coordinator's memory.
use std::collections::HashMap;
use vstd::prelude::*;
use vstd::string::*;
use crate::document::Toml;
use crate::node::adapters::{chosen_lvl_from_snapshot, has_sibling, NetworkInfo};
use crate::node::codec::{
    answer_fields, answer_in, decode_evaluate_enter_request, decode_hooking_memory, decoded,
    document_in, encode_evaluate_enter_answer, encode_unit, memory_in, request_in, wired,
    ElectionRecord, EvaluateEnterAnswer, HookingMemory, Kind, MemoryView, Payload,
};
use crate::node::wire::{TypedValue, TypedView};
use crate::qspn::RouteSnapshot;
use crate::space::HCoord;

verus! {

/// How long an election stands without being given up, in nanoseconds of a steady clock.
pub const ELECTED_TTL_NANOS: u64 = 60_000_000_000;

/// How long an election stands without being given up, in milliseconds of the system's clock.
pub const ELECTED_TTL_MILLIS: u64 = 60_000;

/// How long ago `then` is at `now`; nothing where it is still to come.
pub open spec fn age(now: u64, then: u64) -> int {
    if now >= then {
        now - then
    } else {
        0
    }
}

pub(crate) fn age_of(now: u64, then: u64) -> (r: u64)
    ensures
        r == age(now, then),
{
    if now >= then {
        now - then
    } else {
        0
    }
}

/// The whole milliseconds, in nanoseconds, that are left of `ttl_millis` after the present one when
/// `age_millis` have passed.
pub open spec fn millis_left(age_millis: int, ttl_millis: u64) -> u64 {
    ((ttl_millis - age_millis - 1) * 1_000_000) as u64
}

pub(crate) fn whole_millis_left(age_millis: u64, ttl_millis: u64) -> (r: u64)
    requires
        age_millis < ttl_millis,
        ttl_millis * 1_000_000 <= u64::MAX,
    ensures
        r == millis_left(age_millis as int, ttl_millis),
        r == (ttl_millis - age_millis - 1) * 1_000_000,
{
    (ttl_millis - age_millis - 1) * 1_000_000
}

/// An election as one member remembers it.
#[derive(Debug, Clone, Copy, PartialEq, Eq, Structural)]
pub struct Election {
    /// The network to enter.
    pub network_id: i64,
    /// The question that was granted.
    pub evaluate_enter_id: i32,
    /// When this member noted it, by its steady clock in nanoseconds.
    pub noted_at: u64,
    /// How long it stands from then on, in nanoseconds.
    pub lasts: u64,
}

/// What a question gets while an election stands at its level: one about another network is to be
/// asked again, the one that was granted is granted again, and any other is refused.
pub open spec fn verdict(
    level: usize,
    holder_network: i64,
    holder_id: i32,
    network_id: i64,
    evaluate_enter_id: i32,
) -> EvaluateEnterAnswer {
    if holder_network != network_id {
        EvaluateEnterAnswer::AskAgain
    } else if holder_id == evaluate_enter_id {
        EvaluateEnterAnswer::Accepted { chosen_lvl: level }
    } else {
        EvaluateEnterAnswer::IgnoreNetwork
    }
}

/// A question, and the time by both clocks at which it is asked.
pub struct AskView {
    /// The level at which the g-node would enter.
    pub level: usize,
    /// The network to enter.
    pub network_id: i64,
    /// The number of the question.
    pub evaluate_enter_id: i32,
    /// The time by the member's steady clock.
    pub now: u64,
    /// The time by the system's clock.
    pub now_millis: u64,
}

/// What an election leads to.
pub struct DecisionView {
    /// The answer.
    pub answer: EvaluateEnterAnswer,
    /// What the member remembers afterwards.
    pub local: Map<usize, Election>,
    /// What the coordinator remembers afterwards.
    pub shared: Map<usize, ElectionRecord>,
}

/// The election at a level still stands, as far as the member remembers, by its steady clock.
pub open spec fn stands_locally(local: Map<usize, Election>, level: usize, now: u64) -> bool {
    local.contains_key(level) && age(now, local[level].noted_at) < local[level].lasts
}

/// The election at a level still stands, as far as the coordinator remembers.
pub open spec fn stands_shared(
    shared: Map<usize, ElectionRecord>,
    level: usize,
    now_millis: u64,
) -> bool {
    shared.contains_key(level) && age(now_millis, shared[level].granted_at_millis)
        < ELECTED_TTL_MILLIS
}

/// What a question gets, given what the member and the coordinator remember: the member's own
/// standing election decides, else the coordinator's, and else the question is granted. An election
/// that the member has from the coordinator stands for the whole milliseconds that are left of it
/// there after the present one.
pub open spec fn decision(
    local: Map<usize, Election>,
    shared: Map<usize, ElectionRecord>,
    ask: AskView,
) -> DecisionView {
    let level = ask.level;
    if stands_locally(local, level, ask.now) {
        DecisionView {
            answer: verdict(
                level,
                local[level].network_id,
                local[level].evaluate_enter_id,
                ask.network_id,
                ask.evaluate_enter_id,
            ),
            local,
            shared,
        }
    } else if stands_shared(shared, level, ask.now_millis) {
        let answer = verdict(
            level,
            shared[level].network_id,
            shared[level].evaluate_enter_id,
            ask.network_id,
            ask.evaluate_enter_id,
        );
        DecisionView {
            answer,
            local: if answer is Accepted {
                local.insert(
                    level,
                    Election {
                        network_id: ask.network_id,
                        evaluate_enter_id: ask.evaluate_enter_id,
                        noted_at: ask.now,
                        lasts: millis_left(
                            age(ask.now_millis, shared[level].granted_at_millis),
                            ELECTED_TTL_MILLIS,
                        ),
                    },
                )
            } else {
                local.remove(level)
            },
            shared,
        }
    } else {
        DecisionView {
            answer: EvaluateEnterAnswer::Accepted { chosen_lvl: level },
            local: local.insert(
                level,
                Election {
                    network_id: ask.network_id,
                    evaluate_enter_id: ask.evaluate_enter_id,
                    noted_at: ask.now,
                    lasts: ELECTED_TTL_NANOS,
                },
            ),
            shared: shared.insert(
                level,
                ElectionRecord {
                    network_id: ask.network_id,
                    evaluate_enter_id: ask.evaluate_enter_id,
                    granted_at_millis: ask.now_millis,
                },
            ),
        }
    }
}

/// What a coordinator's record says; nothing where there is none or it cannot be read.
pub open spec fn recalled(record: Option<TypedView>) -> MemoryView {
    match record {
        Some(tv) => if tv.tag == "ntkd.HookingMemory"@ && memory_in(document_in(tv.payload)) is Some {
            memory_in(document_in(tv.payload))->Some_0
        } else {
            MemoryView { merge_decisions: Map::empty(), elections: Map::empty() }
        },
        None => MemoryView { merge_decisions: Map::empty(), elections: Map::empty() },
    }
}

/// What an optional record says.
pub open spec fn record_view(record: Option<&TypedValue>) -> Option<TypedView> {
    match record {
        Some(tv) => Some(tv@),
        None => None,
    }
}

pub(crate) fn recall(record: Option<&TypedValue>) -> (r: HookingMemory)
    ensures
        r@ == recalled(record_view(record)),
{
    match record {
        Some(tv) => match decode_hooking_memory(tv) {
            Ok(memory) => memory,
            Err(_) => HookingMemory::default(),
        },
        None => HookingMemory::default(),
    }
}

/// An answer, and the record to give the coordinator, where it changes.
#[derive(Debug)]
pub struct Decision {
    /// The answer.
    pub answer: EvaluateEnterAnswer,
    /// What the coordinator is to remember from now on.
    pub write: Option<HookingMemory>,
}

/// One member's memory of the elections, by level.
#[derive(Debug)]
pub struct EnterArbiter {
    elected: HashMap<usize, Election>,
}

impl EnterArbiter {
    /// The elections that the member remembers.
    pub closed spec fn view(&self) -> Map<usize, Election> {
        self.elected@
    }

    /// A member that remembers nothing.
    pub fn new() -> (r: EnterArbiter)
        ensures
            r@ == Map::<usize, Election>::empty(),
    {
        EnterArbiter { elected: HashMap::new() }
    }

    /// The answer that this member's own memory gives; none where it remembers no standing
    /// election, and the coordinator must be asked. An election that no longer stands is forgotten.
    pub fn decide_locally(
        &mut self,
        level: usize,
        network_id: i64,
        evaluate_enter_id: i32,
        now: u64,
    ) -> (r: Option<EvaluateEnterAnswer>)
        ensures
            r is Some == stands_locally(old(self)@, level, now),
            r is Some ==> final(self)@ == old(self)@,
            r is Some ==> r->Some_0 == verdict(
                level,
                old(self)@[level].network_id,
                old(self)@[level].evaluate_enter_id,
                network_id,
                evaluate_enter_id,
            ),
            r is None ==> final(self)@ == old(self)@.remove(level),
    {
        let held = match self.elected.get(&level) {
            Some(election) => Some(*election),
            None => None,
        };
        match held {
            Some(election) => if age_of(now, election.noted_at) < election.lasts {
                Some(
                    judge(
                        level,
                        election.network_id,
                        election.evaluate_enter_id,
                        network_id,
                        evaluate_enter_id,
                    ),
                )
            } else {
                let _ = self.elected.remove(&level);
                None
            },
            None => {
                assert(self@.remove(level) =~= self@);
                None
            },
        }
    }

    /// The answer that the coordinator's memory gives to a member that remembers no standing
    /// election: the standing election decides, and where there is none the question is granted.
    pub fn decide_shared(
        &mut self,
        memory: HookingMemory,
        level: usize,
        network_id: i64,
        evaluate_enter_id: i32,
        now: u64,
        now_millis: u64,
    ) -> (r: Decision)
        requires
            !stands_locally(old(self)@, level, now),
        ensures
            ({
                let ask = AskView { level, network_id, evaluate_enter_id, now, now_millis };
                let decided = decision(old(self)@, memory@.elections, ask);
                &&& r.answer == decided.answer
                &&& final(self)@.remove(level) == old(self)@.remove(level)
                &&& r.answer is Accepted ==> final(self)@ == decided.local
                &&& !(r.answer is Accepted) ==> final(self)@ == old(self)@
                &&& r.write is Some == !stands_shared(memory@.elections, level, now_millis)
                &&& r.write is Some ==> r.write->Some_0@ == (MemoryView {
                    elections: decided.shared,
                    ..memory@
                })
            }),
    {
        let ghost before = self@;
        let standing = match memory.elections.get(&level) {
            Some(record) => if age_of(now_millis, record.granted_at_millis) < ELECTED_TTL_MILLIS {
                Some(*record)
            } else {
                None
            },
            None => None,
        };
        match standing {
            Some(record) => {
                let answer = judge(
                    level,
                    record.network_id,
                    record.evaluate_enter_id,
                    network_id,
                    evaluate_enter_id,
                );
                match answer {
                    EvaluateEnterAnswer::Accepted { .. } => {
                        let election = Election {
                            network_id,
                            evaluate_enter_id,
                            noted_at: now,
                            lasts: whole_millis_left(
                                age_of(now_millis, record.granted_at_millis),
                                ELECTED_TTL_MILLIS,
                            ),
                        };
                        let _ = self.elected.insert(level, election);
                    },
                    _ => {},
                }
                assert(self@.remove(level) =~= before.remove(level));
                Decision { answer, write: None }
            },
            None => {
                let mut memory = memory;
                let record = ElectionRecord {
                    network_id,
                    evaluate_enter_id,
                    granted_at_millis: now_millis,
                };
                memory.elections.insert(level, record);
                let election = Election {
                    network_id,
                    evaluate_enter_id,
                    noted_at: now,
                    lasts: ELECTED_TTL_NANOS,
                };
                let _ = self.elected.insert(level, election);
                assert(self@.remove(level) =~= before.remove(level));
                Decision {
                    answer: EvaluateEnterAnswer::Accepted { chosen_lvl: level },
                    write: Some(memory),
                }
            },
        }
    }

    /// The answer to a question, given the coordinator's record as this member has it.
    pub fn decide(
        &mut self,
        record: Option<&TypedValue>,
        level: usize,
        network_id: i64,
        evaluate_enter_id: i32,
        now: u64,
        now_millis: u64,
    ) -> (r: Decision)
        ensures
            ({
                let ask = AskView { level, network_id, evaluate_enter_id, now, now_millis };
                let memory = recalled(record_view(record));
                let decided = decision(old(self)@, memory.elections, ask);
                &&& r.answer == decided.answer
                &&& final(self)@ == decided.local
                &&& r.write is Some == !(stands_locally(old(self)@, level, now)
                    || stands_shared(
                    memory.elections,
                    level,
                    now_millis,
                ))
                &&& r.write is Some ==> r.write->Some_0@ == (MemoryView {
                    elections: decided.shared,
                    ..memory
                })
            }),
    {
        let ghost before = self@;
        match self.decide_locally(level, network_id, evaluate_enter_id, now) {
            Some(answer) => Decision { answer, write: None },
            None => {
                let memory = recall(record);
                let r = self.decide_shared(
                    memory,
                    level,
                    network_id,
                    evaluate_enter_id,
                    now,
                    now_millis,
                );
                proof {
                    let ask = AskView { level, network_id, evaluate_enter_id, now, now_millis };
                    assert(self@ =~= decision(before, memory@.elections, ask).local);
                }
                r
            },
        }
    }

    /// The elected member gives up: this member forgets the election at `level`.
    pub fn release_locally(&mut self, level: usize)
        ensures
            final(self)@ == old(self)@.remove(level),
    {
        let _ = self.elected.remove(&level);
    }

    /// The elected member gives up: this member forgets the election at `level`, and the
    /// coordinator is to forget it too where it remembers one.
    pub fn release(&mut self, record: Option<&TypedValue>, level: usize) -> (r: Option<
        HookingMemory,
    >)
        ensures
            final(self)@ == old(self)@.remove(level),
            r is Some == recalled(record_view(record)).elections.contains_key(level),
            r is Some ==> r->Some_0@ == (MemoryView {
                elections: recalled(record_view(record)).elections.remove(level),
                ..recalled(record_view(record))
            }),
    {
        self.release_locally(level);
        let mut memory = recall(record);
        match memory.elections.remove(&level) {
            Some(_) => Some(memory),
            None => None,
        }
    }
}

fn judge(
    level: usize,
    holder_network: i64,
    holder_id: i32,
    network_id: i64,
    evaluate_enter_id: i32,
) -> (r: EvaluateEnterAnswer)
    ensures
        r == verdict(level, holder_network, holder_id, network_id, evaluate_enter_id),
{
    if holder_network != network_id {
        EvaluateEnterAnswer::AskAgain
    } else if holder_id == evaluate_enter_id {
        EvaluateEnterAnswer::Accepted { chosen_lvl: level }
    } else {
        EvaluateEnterAnswer::IgnoreNetwork
    }
}

/// What several members, each by its own memory, and their one coordinator remember.
pub struct ElectionState {
    /// What each member remembers.
    pub locals: Map<int, Map<usize, Election>>,
    /// What the coordinator remembers.
    pub shared: Map<usize, ElectionRecord>,
}

impl ElectionState {
    /// What one member remembers.
    pub open spec fn local(self, member: int) -> Map<usize, Election> {
        if self.locals.contains_key(member) {
            self.locals[member]
        } else {
            Map::empty()
        }
    }
}

/// The state after `member` was asked.
pub open spec fn after_ask(state: ElectionState, member: int, ask: AskView) -> ElectionState {
    let decided = decision(state.local(member), state.shared, ask);
    ElectionState { locals: state.locals.insert(member, decided.local), shared: decided.shared }
}

/// The state after these questions, in their order.
pub open spec fn after_all(state: ElectionState, asks: Seq<(int, AskView)>) -> ElectionState
    decreases asks.len(),
{
    if asks.len() == 0 {
        state
    } else {
        after_ask(after_all(state, asks.drop_last()), asks.last().0, asks.last().1)
    }
}

/// What question `i` leads to.
pub open spec fn election_at(state: ElectionState, asks: Seq<(int, AskView)>, i: int) ->
    DecisionView {
    let before = after_all(state, asks.take(i));
    decision(before.local(asks[i].0), before.shared, asks[i].1)
}

/// What question `i` gets.
pub open spec fn answer_at(state: ElectionState, asks: Seq<(int, AskView)>, i: int) ->
    EvaluateEnterAnswer {
    election_at(state, asks, i).answer
}

/// Question `i` finds no standing election at its level and is elected.
pub open spec fn is_elected(state: ElectionState, asks: Seq<(int, AskView)>, i: int) -> bool {
    let before = after_all(state, asks.take(i));
    let ask = asks[i].1;
    &&& !stands_locally(before.local(asks[i].0), ask.level, ask.now)
    &&& !stands_shared(before.shared, ask.level, ask.now_millis)
}

/// When a question was asked, in nanoseconds since the epoch: `boot` tells when each member's
/// steady clock was started.
pub open spec fn asked_at(asks: Seq<(int, AskView)>, boot: spec_fn(int) -> int, i: int) -> int {
    asks[i].1.now + boot(asks[i].0)
}

/// The members' clocks are right: time only goes forward, and the system's clock shows the whole
/// milliseconds of it.
pub open spec fn asked_in_order(asks: Seq<(int, AskView)>, boot: spec_fn(int) -> int) -> bool {
    &&& forall|i: int|
        0 <= i < asks.len() ==> (#[trigger] asks[i]).1.now_millis == asked_at(asks, boot, i)
            / 1_000_000
    &&& forall|i: int, j: int|
        0 <= i <= j < asks.len() ==> #[trigger] asked_at(asks, boot, i) <= #[trigger] asked_at(
            asks,
            boot,
            j,
        )
}

/// Nobody remembers an election.
pub open spec fn no_elections(state: ElectionState) -> bool {
    &&& forall|m: int, level: usize| !(#[trigger] state.local(m).contains_key(level))
    &&& forall|level: usize| !(#[trigger] state.shared.contains_key(level))
}

/// Question `j` is about the level of question `i`, and comes while a record made at `i` stands.
pub open spec fn one_episode(asks: Seq<(int, AskView)>, i: int, j: int) -> bool {
    &&& asks[j].1.level == asks[i].1.level
    &&& asks[j].1.now_millis - asks[i].1.now_millis < ELECTED_TTL_MILLIS
}

/// The record at a level stems from question `i`.
spec fn recorded_from(
    state: ElectionState,
    asks: Seq<(int, AskView)>,
    i: int,
    level: usize,
    record: ElectionRecord,
) -> bool {
    &&& asks[i].1.level == level
    &&& is_elected(state, asks, i)
    &&& record == (ElectionRecord {
        network_id: asks[i].1.network_id,
        evaluate_enter_id: asks[i].1.evaluate_enter_id,
        granted_at_millis: asks[i].1.now_millis,
    })
}

/// What member `m` remembers at a level stems from question `i`: the member was asked it itself, or
/// it has it from the record that was made then, and holds it no longer than that stands.
spec fn held_from(
    state: ElectionState,
    asks: Seq<(int, AskView)>,
    boot: spec_fn(int) -> int,
    m: int,
    level: usize,
    held: Election,
    i: int,
) -> bool {
    let end = held.noted_at + boot(m) + held.lasts;
    &&& asks[i].1.level == level
    &&& is_elected(state, asks, i)
    &&& held.network_id == asks[i].1.network_id
    &&& held.evaluate_enter_id == asks[i].1.evaluate_enter_id
    &&& {
        ||| asks[i].0 == m && end == asked_at(asks, boot, i) + ELECTED_TTL_NANOS
        ||| end <= (asks[i].1.now_millis + ELECTED_TTL_MILLIS) * 1_000_000
    }
}

/// Everything remembered after `n` questions stems from one of them.
spec fn is_traced(
    state: ElectionState,
    asks: Seq<(int, AskView)>,
    boot: spec_fn(int) -> int,
    n: int,
) -> bool {
    let after = after_all(state, asks.take(n));
    &&& forall|level: usize| #[trigger]
        after.shared.contains_key(level) ==> exists|i: int|
            0 <= i < n && #[trigger] recorded_from(state, asks, i, level, after.shared[level])
    &&& forall|m: int, level: usize| #[trigger]
        after.local(m).contains_key(level) ==> exists|i: int|
            0 <= i < n && #[trigger] held_from(
                state,
                asks,
                boot,
                m,
                level,
                after.local(m)[level],
                i,
            )
    &&& forall|m: int, level: usize| #[trigger]
        after.local(m).contains_key(level) ==> n > 0 && after.local(m)[level].noted_at + boot(m)
            <= asked_at(asks, boot, n - 1)
}

proof fn step_is_traced(
    state: ElectionState,
    asks: Seq<(int, AskView)>,
    boot: spec_fn(int) -> int,
    n: int,
    m: int,
    level: usize,
)
    requires
        asked_in_order(asks, boot),
        0 < n <= asks.len(),
        is_traced(state, asks, boot, n - 1),
        after_all(state, asks.take(n)).local(m).contains_key(level),
    ensures
        ({
            let held = after_all(state, asks.take(n)).local(m)[level];
            &&& held.noted_at + boot(m) <= asked_at(asks, boot, n - 1)
            &&& exists|i: int|
                0 <= i < n && #[trigger] held_from(state, asks, boot, m, level, held, i)
        }),
{
    let (member, ask) = asks[n - 1];
    let before = after_all(state, asks.take(n - 1));
    let after = after_all(state, asks.take(n));
    assert(asks.take(n).drop_last() =~= asks.take(n - 1));
    assert(asks.take(n).last() == asks[n - 1]);
    let held = after.local(m)[level];
    let here = asked_at(asks, boot, n - 1);
    if m != member {
        assert(after.local(m) == before.local(m));
    }
    if m != member || level != ask.level || stands_locally(before.local(m), level, ask.now) {
        assert(before.local(m).contains_key(level));
        assert(before.local(m)[level] == held);
        let i = choose|i: int|
            0 <= i < n - 1 && #[trigger] held_from(state, asks, boot, m, level, held, i);
        assert(held_from(state, asks, boot, m, level, held, i));
        assert(asked_at(asks, boot, n - 2) <= asked_at(asks, boot, n - 1));
    } else if stands_shared(before.shared, level, ask.now_millis) {
        let record = before.shared[level];
        let i = choose|i: int|
            0 <= i < n - 1 && #[trigger] recorded_from(state, asks, i, level, record);
        assert(recorded_from(state, asks, i, level, record));
        assert(asked_at(asks, boot, i) <= asked_at(asks, boot, n - 1));
        assert(asks[i].1.now_millis == asked_at(asks, boot, i) / 1_000_000);
        assert(asks[n - 1].1.now_millis == here / 1_000_000);
        let past = ask.now_millis - asks[i].1.now_millis;
        assert(held.lasts == (ELECTED_TTL_MILLIS - past - 1) * 1_000_000);
        assert(here < (ask.now_millis + 1) * 1_000_000);
        assert(held_from(state, asks, boot, m, level, held, i));
    } else {
        assert(is_elected(state, asks, n - 1));
        assert(held_from(state, asks, boot, m, level, held, n - 1));
    }
}

proof fn memories_are_traced(
    state: ElectionState,
    asks: Seq<(int, AskView)>,
    boot: spec_fn(int) -> int,
    n: int,
)
    requires
        no_elections(state),
        asked_in_order(asks, boot),
        0 <= n <= asks.len(),
    ensures
        is_traced(state, asks, boot, n),
    decreases n,
{
    if n == 0 {
        assert(asks.take(0) =~= Seq::empty());
    } else {
        memories_are_traced(state, asks, boot, n - 1);
        let (member, ask) = asks[n - 1];
        let before = after_all(state, asks.take(n - 1));
        let after = after_all(state, asks.take(n));
        assert(asks.take(n).drop_last() =~= asks.take(n - 1));
        assert(asks.take(n).last() == asks[n - 1]);
        assert forall|level: usize| #[trigger] after.shared.contains_key(level) implies exists|
            i: int,
        |
            0 <= i < n && #[trigger] recorded_from(
                state,
                asks,
                i,
                level,
                after.shared[level],
            ) by {
            if level == ask.level && is_elected(state, asks, n - 1) {
                assert(recorded_from(state, asks, n - 1, level, after.shared[level]));
            } else {
                assert(before.shared.contains_key(level));
                assert(before.shared[level] == after.shared[level]);
                let i = choose|i: int|
                    0 <= i < n - 1 && #[trigger] recorded_from(
                        state,
                        asks,
                        i,
                        level,
                        before.shared[level],
                    );
                assert(recorded_from(state, asks, i, level, after.shared[level]));
            }
        }
        assert forall|m: int, level: usize| #[trigger]
            after.local(m).contains_key(level) implies (exists|i: int|
            0 <= i < n && #[trigger] held_from(
                state,
                asks,
                boot,
                m,
                level,
                after.local(m)[level],
                i,
            )) && after.local(m)[level].noted_at + boot(m) <= asked_at(asks, boot, n - 1) by {
            step_is_traced(state, asks, boot, n, m, level);
        }
    }
}

proof fn later_millis(asks: Seq<(int, AskView)>, boot: spec_fn(int) -> int, i: int, j: int)
    requires
        asked_in_order(asks, boot),
        0 <= i <= j < asks.len(),
    ensures
        asks[i].1.now_millis <= asks[j].1.now_millis,
{
    assert(asked_at(asks, boot, i) <= asked_at(asks, boot, j));
    assert(asks[i].1.now_millis == asked_at(asks, boot, i) / 1_000_000);
    assert(asks[j].1.now_millis == asked_at(asks, boot, j) / 1_000_000);
}

proof fn election_stays(
    state: ElectionState,
    asks: Seq<(int, AskView)>,
    boot: spec_fn(int) -> int,
    i: int,
    n: int,
)
    requires
        asked_in_order(asks, boot),
        0 <= i < n <= asks.len(),
        is_elected(state, asks, i),
        n == i + 1 || asks[n - 1].1.now_millis - asks[i].1.now_millis < ELECTED_TTL_MILLIS,
    ensures
        ({
            let shared = after_all(state, asks.take(n)).shared;
            &&& shared.contains_key(asks[i].1.level)
            &&& shared[asks[i].1.level] == (ElectionRecord {
                network_id: asks[i].1.network_id,
                evaluate_enter_id: asks[i].1.evaluate_enter_id,
                granted_at_millis: asks[i].1.now_millis,
            })
        }),
    decreases n,
{
    let before = after_all(state, asks.take(n - 1));
    assert(asks.take(n).drop_last() =~= asks.take(n - 1));
    assert(asks.take(n).last() == asks[n - 1]);
    if n > i + 1 {
        later_millis(asks, boot, n - 2, n - 1);
        later_millis(asks, boot, i, n - 1);
        election_stays(state, asks, boot, i, n - 1);
        assert(stands_shared(before.shared, asks[i].1.level, asks[n - 1].1.now_millis));
    }
}

proof fn elections_are_apart(
    state: ElectionState,
    asks: Seq<(int, AskView)>,
    boot: spec_fn(int) -> int,
    k: int,
    i: int,
)
    requires
        asked_in_order(asks, boot),
        0 <= k < i < asks.len(),
        is_elected(state, asks, k),
        is_elected(state, asks, i),
        asks[k].1.level == asks[i].1.level,
    ensures
        asks[i].1.now_millis - asks[k].1.now_millis >= ELECTED_TTL_MILLIS,
{
    if asks[i].1.now_millis - asks[k].1.now_millis < ELECTED_TTL_MILLIS {
        later_millis(asks, boot, i - 1, i);
        later_millis(asks, boot, k, i);
        election_stays(state, asks, boot, k, i);
    }
}

/// However many members ask, and however often, from the question that is elected at a level until
/// its time is over only that question is granted, to whoever asks it again: at most one candidate
/// is ever elected at a time. That is so of every election, whatever came before it. The one
/// exception is a member that elected another itself before, less than that time ago by its own
/// clock: the record of that ended up to a millisecond sooner, since records are dated in whole
/// milliseconds.
pub proof fn one_candidate_is_elected(
    state: ElectionState,
    asks: Seq<(int, AskView)>,
    boot: spec_fn(int) -> int,
    i: int,
    j: int,
)
    requires
        no_elections(state),
        asked_in_order(asks, boot),
        0 <= i <= j < asks.len(),
        is_elected(state, asks, i),
        i == j || one_episode(asks, i, j),
        forall|k: int|
            0 <= k < i && (#[trigger] asks[k]).0 == asks[j].0 && asks[k].1.level == asks[j].1.level
                && is_elected(state, asks, k) ==> asked_at(asks, boot, j) - asked_at(
                asks,
                boot,
                k,
            ) >= ELECTED_TTL_NANOS || (asks[k].1.network_id == asks[i].1.network_id
                && asks[k].1.evaluate_enter_id == asks[i].1.evaluate_enter_id),
    ensures
        answer_at(state, asks, j) == verdict(
            asks[i].1.level,
            asks[i].1.network_id,
            asks[i].1.evaluate_enter_id,
            asks[j].1.network_id,
            asks[j].1.evaluate_enter_id,
        ),
        j > i ==> !is_elected(state, asks, j),
{
    if i < j {
        let level = asks[i].1.level;
        let (member, ask) = asks[j];
        let before = after_all(state, asks.take(j));
        later_millis(asks, boot, j - 1, j);
        later_millis(asks, boot, i, j);
        election_stays(state, asks, boot, i, j);
        memories_are_traced(state, asks, boot, j);
        assert(stands_shared(before.shared, level, ask.now_millis));
        if stands_locally(before.local(member), level, ask.now) {
            let held = before.local(member)[level];
            assert(before.local(member).contains_key(level));
            let k = choose|k: int|
                0 <= k < j && #[trigger] held_from(state, asks, boot, member, level, held, k);
            assert(held_from(state, asks, boot, member, level, held, k));
            let end = held.noted_at + boot(member) + held.lasts;
            assert(asked_at(asks, boot, j - 1) <= asked_at(asks, boot, j));
            assert(asked_at(asks, boot, j) < end);
            if k > i {
                elections_are_apart(state, asks, boot, i, k);
                later_millis(asks, boot, k, j);
            } else if k < i {
                elections_are_apart(state, asks, boot, k, i);
                assert(asked_at(asks, boot, i) <= asked_at(asks, boot, j));
                assert(asks[i].1.now_millis == asked_at(asks, boot, i) / 1_000_000);
                assert(asks[k].0 == asks[k].0);
            }
        }
    }
}

/// A level is free once the time of its last election is over, whoever remembers that election and
/// however it came there: a question is granted where every question that was elected at its level
/// before it is that old.
pub proof fn a_level_is_free_once_its_election_is_over(
    state: ElectionState,
    asks: Seq<(int, AskView)>,
    boot: spec_fn(int) -> int,
    j: int,
)
    requires
        no_elections(state),
        asked_in_order(asks, boot),
        0 <= j < asks.len(),
        forall|i: int|
            0 <= i < j && (#[trigger] asks[i]).1.level == asks[j].1.level && is_elected(
                state,
                asks,
                i,
            ) ==> asked_at(asks, boot, j) - asked_at(asks, boot, i) >= ELECTED_TTL_NANOS,
    ensures
        is_elected(state, asks, j),
        answer_at(state, asks, j) == (EvaluateEnterAnswer::Accepted {
            chosen_lvl: asks[j].1.level,
        }),
{
    let (member, ask) = asks[j];
    let level = ask.level;
    let before = after_all(state, asks.take(j));
    memories_are_traced(state, asks, boot, j);
    assert(asks[j].1.now_millis == asked_at(asks, boot, j) / 1_000_000);
    if before.shared.contains_key(level) {
        let i = choose|i: int|
            0 <= i < j && #[trigger] recorded_from(state, asks, i, level, before.shared[level]);
        assert(recorded_from(state, asks, i, level, before.shared[level]));
        assert(asks[i].1.level == level);
        assert(asks[i].1.now_millis == asked_at(asks, boot, i) / 1_000_000);
    }
    if before.local(member).contains_key(level) {
        let held = before.local(member)[level];
        let i = choose|i: int|
            0 <= i < j && #[trigger] held_from(state, asks, boot, member, level, held, i);
        assert(held_from(state, asks, boot, member, level, held, i));
        assert(asks[i].1.level == level);
        assert(asks[i].1.now_millis == asked_at(asks, boot, i) / 1_000_000);
        assert(asked_at(asks, boot, j - 1) <= asked_at(asks, boot, j));
    }
}

/// Once the elected candidate has given up, the next question at the level is granted, whoever
/// asks it.
pub proof fn release_opens_the_level(
    local: Map<usize, Election>,
    shared: Map<usize, ElectionRecord>,
    ask: AskView,
)
    ensures
        decision(local.remove(ask.level), shared.remove(ask.level), ask).answer
            == (EvaluateEnterAnswer::Accepted { chosen_lvl: ask.level }),
{
}

/// An election that nobody gave up ends by itself: a question that comes after its time is granted.
pub proof fn an_election_ends_by_itself(
    local: Map<usize, Election>,
    shared: Map<usize, ElectionRecord>,
    ask: AskView,
)
    requires
        !stands_locally(local, ask.level, ask.now),
        shared.contains_key(ask.level) ==> age(
            ask.now_millis,
            shared[ask.level].granted_at_millis,
        ) >= ELECTED_TTL_MILLIS,
    ensures
        decision(local, shared, ask).answer == (EvaluateEnterAnswer::Accepted {
            chosen_lvl: ask.level,
        }),
{
}

/// What a question gets, and what is remembered of it. While the member's own election stands, or
/// else the coordinator's, a question about another network is to be asked again, the question that
/// was granted is granted again, and any other about the same network is refused; where none stands,
/// the question is granted and remembered by both, for a minute. A member that has an election from
/// the coordinator forgets it a whole millisecond before the coordinator can.
pub proof fn a_standing_election_decides(
    local: Map<usize, Election>,
    shared: Map<usize, ElectionRecord>,
    ask: AskView,
)
    ensures
        ({
            let r = decision(local, shared, ask);
            let level = ask.level;
            let mine = local[level];
            let theirs = shared[level];
            let here = local.contains_key(level) && (if ask.now >= mine.noted_at {
                ask.now - mine.noted_at < mine.lasts
            } else {
                0 < mine.lasts
            });
            let there = shared.contains_key(level) && (ask.now_millis < theirs.granted_at_millis
                || ask.now_millis - theirs.granted_at_millis < 60_000);
            let left = if ask.now_millis < theirs.granted_at_millis {
                60_000
            } else {
                60_000 - (ask.now_millis - theirs.granted_at_millis)
            };
            &&& here ==> {
                &&& r.local == local && r.shared == shared
                &&& mine.network_id != ask.network_id ==> r.answer is AskAgain
                &&& mine.network_id == ask.network_id && mine.evaluate_enter_id
                    == ask.evaluate_enter_id ==> r.answer == (EvaluateEnterAnswer::Accepted {
                    chosen_lvl: level,
                })
                &&& mine.network_id == ask.network_id && mine.evaluate_enter_id
                    != ask.evaluate_enter_id ==> r.answer is IgnoreNetwork
            }
            &&& !here && there ==> {
                &&& r.shared == shared
                &&& theirs.network_id != ask.network_id ==> r.answer is AskAgain
                &&& theirs.network_id == ask.network_id && theirs.evaluate_enter_id
                    != ask.evaluate_enter_id ==> r.answer is IgnoreNetwork
                &&& !(r.answer is Accepted) ==> !r.local.contains_key(level)
                &&& theirs.network_id == ask.network_id && theirs.evaluate_enter_id
                    == ask.evaluate_enter_id ==> {
                    &&& r.answer == (EvaluateEnterAnswer::Accepted { chosen_lvl: level })
                    &&& r.local.contains_key(level)
                    &&& r.local[level].network_id == ask.network_id
                    &&& r.local[level].evaluate_enter_id == ask.evaluate_enter_id
                    &&& r.local[level].noted_at == ask.now
                    &&& r.local[level].lasts + 1_000_000 == left * 1_000_000
                }
            }
            &&& !here && !there ==> {
                &&& r.answer == (EvaluateEnterAnswer::Accepted { chosen_lvl: level })
                &&& r.local.contains_key(level)
                &&& r.local[level].network_id == ask.network_id
                &&& r.local[level].evaluate_enter_id == ask.evaluate_enter_id
                &&& r.local[level].noted_at == ask.now
                &&& r.local[level].lasts == 60_000_000_000
                &&& r.shared.contains_key(level)
                &&& r.shared[level].network_id == ask.network_id
                &&& r.shared[level].evaluate_enter_id == ask.evaluate_enter_id
                &&& r.shared[level].granted_at_millis == ask.now_millis
            }
        }),
{
}

/// A question concerns its own level: nothing is forgotten or noted at any other.
pub proof fn an_election_concerns_one_level(
    local: Map<usize, Election>,
    shared: Map<usize, ElectionRecord>,
    ask: AskView,
    other: usize,
)
    requires
        other != ask.level,
    ensures
        ({
            let r = decision(local, shared, ask);
            &&& r.local.contains_key(other) == local.contains_key(other)
            &&& local.contains_key(other) ==> r.local[other] == local[other]
            &&& r.shared.contains_key(other) == shared.contains_key(other)
            &&& shared.contains_key(other) ==> r.shared[other] == shared[other]
        }),
{
}

/// A coordinator's record counts for what it says. One that is missing, of another kind, or
/// unreadable counts for nothing.
pub proof fn a_record_counts_for_what_it_says(tv: TypedView, id: i64, level: usize)
    ensures
        !recalled(None).merge_decisions.contains_key(id),
        !recalled(None).elections.contains_key(level),
        match decoded(Kind::HookingMemory, tv) {
            Ok(payload) => payload == Payload::Memory(recalled(Some(tv))),
            Err(_) => !recalled(Some(tv)).merge_decisions.contains_key(id) && !recalled(
                Some(tv),
            ).elections.contains_key(level),
        },
{
}

/// What a coordinator's servant answers an asker, and the record to give the coordinator.
#[derive(Debug)]
pub struct Reply {
    /// The answer as it travels.
    pub answer: TypedValue,
    /// What the coordinator is to remember from now on.
    pub write: Option<HookingMemory>,
}

/// What a coordinator's servant answers from.
pub struct EnterHandlersAdapter<'a> {
    /// The known g-nodes.
    pub snapshot: &'a RouteSnapshot,
    /// The network.
    pub net: &'a NetworkInfo,
    /// How many levels there are.
    pub levels: usize,
}

/// The level that a merge must move as one.
pub open spec fn is_chosen_lvl(r: usize, snapshot: RouteSnapshot, foreign: Set<HCoord>, levels: usize)
    -> bool {
    &&& r > 0 ==> r < levels && has_sibling(snapshot.at(r - 1), foreign)
    &&& forall|i: int| r <= i < levels - 1 ==> !has_sibling(#[trigger] snapshot.at(i), foreign)
}

/// There is one such level.
pub proof fn chosen_lvl_is_unique(
    a: usize,
    b: usize,
    snapshot: RouteSnapshot,
    foreign: Set<HCoord>,
    levels: usize,
)
    requires
        is_chosen_lvl(a, snapshot, foreign, levels),
        is_chosen_lvl(b, snapshot, foreign, levels),
    ensures
        a == b,
{
    if a < b {
        assert(!has_sibling(snapshot.at(b - 1), foreign));
    } else if b < a {
        assert(!has_sibling(snapshot.at(a - 1), foreign));
    }
}

/// The level that a merge must move as one leaves no sibling of its network behind: from it on, the
/// topmost level left aside, every known g-node is foreign.
pub proof fn a_merge_leaves_no_sibling_behind(
    r: usize,
    snapshot: RouteSnapshot,
    foreign: Set<HCoord>,
    levels: usize,
    i: int,
    k: int,
)
    requires
        is_chosen_lvl(r, snapshot, foreign, levels),
        r <= i < levels - 1,
        i < snapshot.levels@.len(),
        0 <= k < snapshot.levels@[i]@.len(),
    ensures
        foreign.contains(snapshot.levels@[i]@[k].destination),
{
    assert(!has_sibling(snapshot.at(i), foreign));
    assert(snapshot.at(i) == snapshot.levels@[i]@);
    assert(snapshot.at(i)[k] == snapshot.levels@[i]@[k]);
}

/// Where a merge must move more than this node, a known g-node that is not foreign stands one level
/// below the level that moves, and that level is not the topmost.
pub proof fn a_merge_moves_no_more_than_it_must(
    r: usize,
    snapshot: RouteSnapshot,
    foreign: Set<HCoord>,
    levels: usize,
) -> (k: int)
    requires
        is_chosen_lvl(r, snapshot, foreign, levels),
        r > 0,
    ensures
        r < levels,
        r <= snapshot.levels@.len(),
        0 <= k < snapshot.levels@[r - 1]@.len(),
        !foreign.contains(snapshot.levels@[r - 1]@[k].destination),
{
    let entries = snapshot.at(r - 1);
    choose|k: int| 0 <= k < entries.len() && !foreign.contains((#[trigger] entries[k]).destination)
}

/// The value in which an answer travels.
pub open spec fn answered(answer: EvaluateEnterAnswer) -> TypedView {
    wired("ntkd.EvaluateEnterAnswer"@, Toml::Table(answer_fields(answer)))
}

impl<'a> EnterHandlersAdapter<'a> {
    /// The level at which this g-node enters another network as one.
    pub fn chosen_lvl(&self) -> (r: usize)
        ensures
            is_chosen_lvl(r, *self.snapshot, self.net@.foreign_now(), self.levels),
    {
        chosen_lvl_from_snapshot(self.snapshot, self.net, self.levels)
    }

    /// The answer to a question that came in `data`. One that cannot be read is refused and changes
    /// nothing; any other is decided at the level at which this g-node enters as one.
    pub fn evaluate_enter(
        &self,
        arbiter: &mut EnterArbiter,
        data: &TypedValue,
        record: Option<&TypedValue>,
        now: u64,
        now_millis: u64,
    ) -> (r: Reply)
        requires
            self.levels <= i64::MAX,
        ensures
            data@.tag != "ntkd.EvaluateEnterRequest"@ || request_in(document_in(data@.payload)) is None
                ==> {
                &&& r.answer@ == answered(EvaluateEnterAnswer::IgnoreNetwork)
                &&& answer_in(document_in(r.answer@.payload)) == Some(
                    EvaluateEnterAnswer::IgnoreNetwork,
                )
                &&& r.write is None
                &&& final(arbiter)@ == old(arbiter)@
            },
            data@.tag == "ntkd.EvaluateEnterRequest"@ && request_in(document_in(data@.payload)) is Some
                ==> exists|level: usize|
                #[trigger] is_chosen_lvl(
                    level,
                    *self.snapshot,
                    self.net@.foreign_now(),
                    self.levels,
                ) && ({
                    let q = request_in(document_in(data@.payload))->Some_0;
                    let ask = AskView {
                        level,
                        network_id: q.network_id as i64,
                        evaluate_enter_id: q.evaluate_enter_id as i32,
                        now,
                        now_millis,
                    };
                    let memory = recalled(record_view(record));
                    let decided = decision(old(arbiter)@, memory.elections, ask);
                    &&& r.answer@ == answered(decided.answer)
                    &&& answer_in(document_in(r.answer@.payload)) == Some(decided.answer)
                    &&& final(arbiter)@ == decided.local
                    &&& r.write is Some == !(stands_locally(old(arbiter)@, level, now)
                        || stands_shared(memory.elections, level, now_millis))
                    &&& r.write is Some ==> r.write->Some_0@ == (MemoryView {
                        elections: decided.shared,
                        ..memory
                    })
                }),
    {
        match decode_evaluate_enter_request(data) {
            Err(_) => Reply {
                answer: encode_evaluate_enter_answer(EvaluateEnterAnswer::IgnoreNetwork),
                write: None,
            },
            Ok(req) => {
                let level = self.chosen_lvl();
                let decided = arbiter.decide(
                    record,
                    level,
                    req.network_id,
                    req.evaluate_enter_id,
                    now,
                    now_millis,
                );
                Reply {
                    answer: encode_evaluate_enter_answer(decided.answer),
                    write: decided.write,
                }
            },
        }
    }

    /// Acknowledges that an entry begins. Nothing is remembered of it.
    pub fn begin_enter(&self) -> (r: TypedValue)
        ensures
            r@ == wired("ntkd.Unit"@, Toml::Table(Seq::empty())),
    {
        encode_unit()
    }

    /// Acknowledges that an entry is complete. The election stands: its members may still be on
    /// their way.
    pub fn completed_enter(&self) -> (r: TypedValue)
        ensures
            r@ == wired("ntkd.Unit"@, Toml::Table(Seq::empty())),
    {
        encode_unit()
    }

    /// The elected candidate gave up: the election one level below `top` is forgotten.
    pub fn abort_enter(
        &self,
        arbiter: &mut EnterArbiter,
        top: usize,
        record: Option<&TypedValue>,
    ) -> (r: Reply)
        ensures
            r.answer@ == wired("ntkd.Unit"@, Toml::Table(Seq::empty())),
            ({
                let level = entry_level(top);
                let memory = recalled(record_view(record));
                &&& final(arbiter)@ == old(arbiter)@.remove(level)
                &&& r.write is Some == memory.elections.contains_key(level)
                &&& r.write is Some ==> r.write->Some_0@ == (MemoryView {
                    elections: memory.elections.remove(level),
                    ..memory
                })
            }),
    {
        let level: usize = if top > 0 {
            top - 1
        } else {
            0
        };
        let write = arbiter.release(record, level);
        Reply { answer: encode_unit(), write }
    }
}

/// The coordinator that is told of an entry at level `lvl`: that of the g-nodes one level up.
pub fn coordinator_top(lvl: usize) -> (r: usize)
    requires
        lvl < usize::MAX,
    ensures
        r == lvl + 1,
{
    lvl + 1
}

/// The level of the entry that the coordinator `top` is told of.
pub open spec fn entry_level(top: usize) -> usize {
    if top > 0 {
        (top - 1) as usize
    } else {
        0
    }
}

/// Giving up an entry reaches the election that granted it: the coordinator that is told of an
/// entry takes it for one at that entry's level.
pub proof fn giving_up_reaches_the_election(lvl: usize)
    requires
        lvl < usize::MAX,
    ensures
        entry_level((lvl + 1) as usize) == lvl,
        entry_level(0) == 0,
{
}

} // verus!
