//! Reaching a neighbour: when to dial, when to dial again, and over which link a message leaves.
use vstd::prelude::*;
use vstd::string::*;
use crate::node::peers::PeerLinks;
use crate::node::registry::{carries, leads_to, EntryView, LinkId, LinkRegistry};
use crate::node::wire::{
    caller_ids_travel, caller_in, caller_value, encode_caller_id, NodeId, TypedValue,
};
use crate::qspn::{ArcId, RouteSnapshot};
use crate::space::HCoord;

verus! {

/// How long a neighbour is dialled, in milliseconds.
pub const LAZY_LINK_DIAL_RETRY_BUDGET_MILLIS: u64 = 5_000;

/// How long to wait before it is dialled again.
pub const LAZY_LINK_DIAL_RETRY_INTERVAL_MILLIS: u64 = 100;

/// How long one attempt may take.
pub const LAZY_LINK_DIAL_ATTEMPT_TIMEOUT_MILLIS: u64 = 300;

/// How long to wait for the connection of an arc, in milliseconds.
pub const LAZY_STUB_RETRY_BUDGET_MILLIS: u64 = 200;

/// How long to wait before it is looked for again.
pub const LAZY_STUB_RETRY_INTERVAL_MILLIS: u64 = 2;

/// How connections are made.
#[derive(Debug, Clone, Copy, PartialEq, Eq, Structural)]
pub struct TcpDialer {
    /// The longest message, in bytes.
    pub max_frame_length: usize,
    /// How long a call may take, in milliseconds.
    pub call_timeout_millis: u64,
}

impl Default for TcpDialer {
    fn default() -> (r: Self)
        ensures
            r == (TcpDialer { max_frame_length: 0x10_0000, call_timeout_millis: 10_000 }),
    {
        TcpDialer { max_frame_length: 0x10_0000, call_timeout_millis: 10_000 }
    }
}

/// Why a call did not work.
#[derive(Debug, PartialEq, Eq)]
pub enum RpcError {
    /// What came back was not what it should be.
    Malformed(String),
    /// Nobody is at the other end.
    ConnectionClosed,
}

/// Who makes a call.
#[derive(Debug, PartialEq, Eq)]
pub struct CallerContext {
    /// The identity, where that matters.
    pub source_id: Option<TypedValue>,
    /// The node, by its id, where that matters.
    pub src_nic: Option<TypedValue>,
}

/// A caller that does not say who it is.
pub fn empty_caller() -> (r: CallerContext)
    ensures
        r.source_id is None,
        r.src_nic is None,
{
    CallerContext { source_id: None, src_nic: None }
}

/// A caller that says which node it is, so that the other end finds the link.
pub fn caller_for_id(id: NodeId) -> (r: CallerContext)
    ensures
        r.source_id is None,
        r.src_nic is Some,
        r.src_nic->Some_0@ == caller_value(id@),
        caller_in(r.src_nic->Some_0@) == Some(id@),
{
    let raw: i32 = id.get();
    proof {
        caller_ids_travel(raw);
    }
    CallerContext { source_id: None, src_nic: Some(encode_caller_id(id)) }
}

/// What a call gave.
#[derive(Debug, PartialEq, Eq)]
pub enum RespValue {
    /// A tagged value.
    Typed(TypedValue),
    /// Something else.
    Other,
}

/// The tagged value that a call gave; a complaint where it gave none.
pub fn typed_reply(value: Option<RespValue>, complaint: &str) -> (r: Result<TypedValue, RpcError>)
    ensures
        match value {
            Some(RespValue::Typed(tv)) => r is Ok && r->Ok_0 == tv,
            _ => r is Err && r->Err_0 is Malformed && r->Err_0->Malformed_0@ == complaint@,
        },
{
    match value {
        Some(RespValue::Typed(tv)) => Ok(tv),
        _ => Err(RpcError::Malformed(complaint.to_owned())),
    }
}

/// How to begin reaching a neighbour.
#[derive(Debug, PartialEq, Eq)]
pub enum DialStart {
    /// Over the connection there is.
    Connected,
    /// Not at all: nobody said which port neighbours listen on.
    NoPort(String),
    /// By dialling this port.
    Dial(u16),
}

/// How to begin reaching the neighbour on `link`.
pub fn dial_start<C>(links: &PeerLinks<C>, link: LinkId) -> (r: DialStart)
    ensures
        links@.contains_key(link) ==> r is Connected,
        !links@.contains_key(link) ==> match links.dial_port() {
            Some(port) => r == DialStart::Dial(port),
            None => r is NoPort && r->NoPort_0@
                == "PeerLinks::set_port was never called before a neighbour needed dialing"@,
        },
{
    match links.get(link) {
        Some(_) => DialStart::Connected,
        None => match links.port() {
            Some(port) => DialStart::Dial(port),
            None => DialStart::NoPort(
                String::from_str(
                    "PeerLinks::set_port was never called before a neighbour needed dialing",
                ),
            ),
        },
    }
}

/// What to do after an attempt.
#[derive(Debug, Clone, Copy, PartialEq, Eq, Structural)]
pub enum RetryStep {
    /// Use what it gave.
    Use,
    /// Give up.
    GiveUp,
    /// Wait, and try again.
    Retry,
}

/// What to do after an attempt that ended at `now`: one that succeeded is used, whenever it does,
/// and others are repeated until the deadline.
pub open spec fn retry_step(succeeded: bool, now: u64, deadline: u64) -> RetryStep {
    if succeeded {
        RetryStep::Use
    } else if now >= deadline {
        RetryStep::GiveUp
    } else {
        RetryStep::Retry
    }
}

/// What to do after an attempt that ended at `now`.
pub fn after_attempt(succeeded: bool, now: u64, deadline: u64) -> (r: RetryStep)
    ensures
        r == retry_step(succeeded, now, deadline),
{
    if succeeded {
        RetryStep::Use
    } else if now >= deadline {
        RetryStep::GiveUp
    } else {
        RetryStep::Retry
    }
}

/// What an attempt gave is used whenever it comes; without, the next follows as long as the deadline
/// has not come, and none once it has.
pub proof fn attempts_are_made_until_the_deadline(succeeded: bool, now: u64, deadline: u64)
    ensures
        succeeded <==> retry_step(succeeded, now, deadline) is Use,
        !succeeded && now < deadline <==> retry_step(succeeded, now, deadline) is Retry,
        !succeeded && now >= deadline <==> retry_step(succeeded, now, deadline) is GiveUp,
{
}

/// When to stop trying: a budget after `now`, or never, where there is no such time.
pub fn deadline_after(now: u64, budget: u64) -> (r: u64)
    ensures
        r == if now + budget <= u64::MAX {
            now + budget
        } else {
            u64::MAX as int
        },
{
    now.saturating_add(budget)
}

/// Trying ends: where each wait takes at least `interval`, attempt number `n` is repeated only while
/// `n` waits fit into the budget.
pub proof fn retries_are_bounded(ends: Seq<u64>, start: u64, budget: u64, interval: u64, n: int)
    requires
        0 <= n < ends.len(),
        start + budget <= u64::MAX,
        start <= ends[0],
        forall|i: int|
            0 <= i < ends.len() - 1 ==> (#[trigger] ends[i]) + interval <= ends[i + 1],
        retry_step(false, ends[n], (start + budget) as u64) is Retry,
    ensures
        n * interval < budget,
{
    waits_add_up(ends, start, interval, n);
}

proof fn waits_add_up(ends: Seq<u64>, start: u64, interval: u64, n: int)
    requires
        0 <= n < ends.len(),
        start <= ends[0],
        forall|i: int|
            0 <= i < ends.len() - 1 ==> (#[trigger] ends[i]) + interval <= ends[i + 1],
    ensures
        start + n * interval <= ends[n],
    decreases n,
{
    if n > 0 {
        waits_add_up(ends, start, interval, n - 1);
        assert(ends[n - 1] + interval <= ends[n - 1 + 1]);
        assert((n - 1) * interval + interval == n * interval) by (nonlinear_arith);
    } else {
        assert(n * interval == 0) by (nonlinear_arith)
            requires
                n == 0,
        ;
    }
}

/// The link of the arc, where there is one and its connection is open. Where several links have the
/// arc, any of them is taken.
pub fn connected_link<C>(registry: &LinkRegistry, links: &PeerLinks<C>, arc: ArcId) -> (r: Option<
    LinkId,
>)
    ensures
        r is Some ==> links@.contains_key(r->Some_0) && carries(
            registry.links(),
            arc,
            r->Some_0,
        ),
        r is None ==> (forall|link: LinkId| !#[trigger] carries(registry.links(), arc, link)) || (
        exists|link: LinkId| #[trigger]
            carries(registry.links(), arc, link) && !links@.contains_key(link)),
{
    match registry.link_of_qspn_arc(arc) {
        Some(link) => match links.get(link) {
            Some(_) => Some(link),
            None => {
                assert(carries(registry.links(), arc, link));
                None
            },
        },
        None => None,
    }
}

/// The link over which a message for the g-node `hc` leaves: that of the cheapest path, where its
/// connection is open.
pub fn gateway_link<C>(
    snapshot: &RouteSnapshot,
    registry: &LinkRegistry,
    links: &PeerLinks<C>,
    hc: HCoord,
) -> (r: Option<LinkId>)
    ensures
        is_gateway(*snapshot, registry.links(), links@.dom(), hc, None, r),
{
    stub_toward(snapshot, registry, links, hc, None)
}

/// `r` is the link over which a message for the g-node `hc` leaves, passing over the arc `skip`:
/// that of the first remaining path, where it is known and its connection is among `open`.
pub open spec fn is_gateway(
    snapshot: RouteSnapshot,
    links: Map<Seq<char>, EntryView>,
    open_links: Set<LinkId>,
    hc: HCoord,
    skip: Option<ArcId>,
    r: Option<LinkId>,
) -> bool {
    match snapshot.departure(hc, skip) {
        None => r is None,
        Some(arc) => match r {
            Some(link) => carries(links, arc, link) && open_links.contains(link),
            None => (forall|link: LinkId| !#[trigger] carries(links, arc, link)) || (exists|
                link: LinkId,
            | #[trigger] carries(links, arc, link) && !open_links.contains(link)),
        },
    }
}

/// The link over which a message for the g-node `hc` leaves, passing over the arc `skip`.
pub fn stub_toward<C>(
    snapshot: &RouteSnapshot,
    registry: &LinkRegistry,
    links: &PeerLinks<C>,
    hc: HCoord,
    skip: Option<ArcId>,
) -> (r: Option<LinkId>)
    ensures
        is_gateway(*snapshot, registry.links(), links@.dom(), hc, skip, r),
{
    match snapshot.first_arc(hc, skip) {
        Some(arc) => connected_link(registry, links, arc),
        None => None,
    }
}

/// The identities' number of the link that a call came over, by the id its sender gives.
pub fn arc_for_caller(registry: &LinkRegistry, src_nic: Option<&TypedValue>) -> (r: Option<u64>)
    ensures
        src_nic is None ==> r is None,
        src_nic is Some && caller_in(src_nic->Some_0@) is None ==> r is None,
        r is Some ==> leads_to(
            registry.links(),
            caller_in(src_nic->Some_0@)->Some_0,
            LinkId(r->Some_0),
        ),
        r is None && src_nic is Some && caller_in(src_nic->Some_0@) is Some ==> forall|
            link: LinkId,
        | !#[trigger] leads_to(registry.links(), caller_in(src_nic->Some_0@)->Some_0, link),
{
    match src_nic {
        Some(tv) => match registry.link_for_caller(tv) {
            Some(link) => Some(link.identities()),
            None => None,
        },
        None => None,
    }
}

/// The arcs over which sending failed, in their order.
pub open spec fn failed_arcs(arcs: Seq<ArcId>, sent: Seq<bool>) -> Seq<ArcId>
    decreases arcs.len(),
{
    if arcs.len() == 0 {
        Seq::empty()
    } else {
        let before = failed_arcs(arcs.drop_last(), sent.drop_last());
        if sent.last() {
            before
        } else {
            before.push(arcs.last())
        }
    }
}

/// The arcs to report missing after a message went out over each of `arcs`: those over which it
/// could not be sent. The message counts as sent all the same.
pub fn missing_arcs(arcs: &Vec<ArcId>, sent: &Vec<bool>) -> (r: Vec<ArcId>)
    requires
        sent@.len() == arcs@.len(),
    ensures
        r@ == failed_arcs(arcs@, sent@),
{
    let mut r: Vec<ArcId> = Vec::new();
    let mut i: usize = 0;
    assert(arcs@.take(0) =~= Seq::empty());
    while i < arcs.len()
        invariant
            i <= arcs@.len(),
            sent@.len() == arcs@.len(),
            r@ == failed_arcs(arcs@.take(i as int), sent@.take(i as int)),
        decreases arcs@.len() - i,
    {
        proof {
            assert(arcs@.take(i + 1).drop_last() =~= arcs@.take(i as int));
            assert(sent@.take(i + 1).drop_last() =~= sent@.take(i as int));
        }
        if !sent[i] {
            r.push(arcs[i]);
        }
        i += 1;
    }
    assert(arcs@.take(arcs@.len() as int) =~= arcs@);
    assert(sent@.take(sent@.len() as int) =~= sent@);
    r
}

/// The arcs reported missing are those over which the message could not be sent, each as often as
/// that happened, and in their order.
pub proof fn just_the_failed_arcs_are_missing(arcs: Seq<ArcId>, sent: Seq<bool>) -> (from: Seq<int>)
    requires
        arcs.len() == sent.len(),
    ensures
        failed_arcs(arcs, sent).len() == from.len(),
        forall|k: int|
            0 <= k < from.len() ==> 0 <= #[trigger] from[k] < arcs.len() && !sent[from[k]]
                && failed_arcs(arcs, sent)[k] == arcs[from[k]],
        forall|j: int, k: int| 0 <= j < k < from.len() ==> from[j] < from[k],
        forall|i: int| 0 <= i < arcs.len() && !(#[trigger] sent[i]) ==> from.contains(i),
    decreases arcs.len(),
{
    if arcs.len() == 0 {
        Seq::empty()
    } else {
        let n = arcs.len() - 1;
        let front = sent.drop_last();
        let before = just_the_failed_arcs_are_missing(arcs.drop_last(), front);
        let from = if sent.last() {
            before
        } else {
            before.push(n)
        };
        assert forall|k: int| 0 <= k < from.len() implies 0 <= #[trigger] from[k] < arcs.len()
            && !sent[from[k]] && failed_arcs(arcs, sent)[k] == arcs[from[k]] by {
            if k < before.len() {
                assert(before[k] == from[k]);
                assert(front[from[k]] == sent[from[k]]);
            }
        }
        assert forall|i: int| 0 <= i < arcs.len() && !(#[trigger] sent[i]) implies from.contains(
            i,
        ) by {
            if i < n {
                assert(front[i] == sent[i]);
                assert(before.contains(i));
                let k = choose|k: int| 0 <= k < before.len() && before[k] == i;
                assert(from[k] == i);
            } else {
                assert(from[before.len() as int] == n);
            }
        }
        from
    }
}

/// A message for a g-node leaves over a link that has the arc of the first path to it that is not
/// passed over, and whose connection is open, and over no other; it leaves over none where there is
/// no such path, and wherever all links of that arc are closed.
pub proof fn messages_leave_by_the_first_path(
    snapshot: RouteSnapshot,
    links: Map<Seq<char>, EntryView>,
    open_links: Set<LinkId>,
    hc: HCoord,
    skip: Option<ArcId>,
    r: Option<LinkId>,
)
    requires
        is_gateway(snapshot, links, open_links, hc, skip, r),
    ensures
        snapshot.departure(hc, skip) is None ==> r is None,
        r is Some ==> open_links.contains(r->Some_0) && exists|mac: Seq<char>| #[trigger]
            links.contains_key(mac) && links[mac].id == r->Some_0 && links[mac].qspn_arc
                == snapshot.departure(hc, skip),
        r is None && snapshot.departure(hc, skip) is Some && (exists|mac: Seq<char>| #[trigger]
            links.contains_key(mac) && links[mac].qspn_arc == snapshot.departure(hc, skip))
            ==> exists|mac: Seq<char>| #[trigger]
            links.contains_key(mac) && links[mac].qspn_arc == snapshot.departure(hc, skip)
                && !open_links.contains(links[mac].id),
{
    match snapshot.departure(hc, skip) {
        None => {},
        Some(arc) => {
            match r {
                Some(link) => {
                    assert(carries(links, arc, link));
                },
                None => {
                    if exists|mac: Seq<char>| #[trigger]
                        links.contains_key(mac) && links[mac].qspn_arc == Some(arc) {
                        let mac = choose|mac: Seq<char>| #[trigger]
                            links.contains_key(mac) && links[mac].qspn_arc == Some(arc);
                        assert(carries(links, arc, links[mac].id));
                    }
                },
            }
        },
    }
}

/// A level as it travels in a search for a place: no more than fits.
pub fn level_on_the_wire(lvl: usize) -> (r: i32)
    ensures
        r == if lvl <= i32::MAX {
            lvl as int
        } else {
            i32::MAX as int
        },
{
    if lvl <= 0x7fff_ffff {
        lvl as i32
    } else {
        i32::MAX
    }
}

} // verus!
