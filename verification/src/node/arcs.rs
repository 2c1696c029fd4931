//! What the coming and going of a neighbour's arc leads to, one action after another.
use vstd::prelude::*;
use crate::kernel::routes::{InstallerView, RouteInstaller};
use crate::node::lifecycle::{
    on_arc_added, on_arc_attached, on_arc_cost_changed, on_arc_removed, with_endpoint, NeighborArc,
};
use crate::node::peers::PeerLinks;
use crate::node::registry::{with_arc, with_link, EntryView, LinkId, LinkRegistry};
use crate::qspn::ArcId;
use crate::space::Cost;

verus! {

/// What the neighbourhood tells.
#[derive(Debug, PartialEq, Eq)]
pub enum ArcEvent {
    /// An arc came up.
    Added(NeighborArc),
    /// An arc's cost changed.
    CostChanged(NeighborArc),
    /// An arc went down.
    Removed(NeighborArc),
}

impl ArcEvent {
    /// The arc it is about.
    pub open spec fn about(self) -> NeighborArc {
        match self {
            ArcEvent::Added(arc) => arc,
            ArcEvent::CostChanged(arc) => arc,
            ArcEvent::Removed(arc) => arc,
        }
    }
}

/// What is to be done next.
#[derive(Debug, Clone, Copy, PartialEq, Eq, Structural)]
pub enum ArcAction {
    /// Dial the neighbour.
    Dial {
        /// The link to it.
        link: LinkId,
    },
    /// Ask the routing protocol to take the arc up.
    AddArc {
        /// The link.
        link: LinkId,
        /// What the arc costs.
        cost: Cost,
    },
    /// Tell the identities and hooking of the link.
    LinkUp {
        /// The link.
        link: LinkId,
    },
    /// Announce anew which services this node takes part in.
    Reannounce,
    /// Tell the routing protocol what an arc costs now.
    ArcChanged {
        /// Its arc.
        arc: ArcId,
        /// What it costs.
        cost: Cost,
    },
    /// Tell the routing protocol that an arc is gone.
    RemoveArc {
        /// Its arc.
        arc: ArcId,
        /// The link.
        link: LinkId,
    },
    /// Tell the identities and hooking that the link is gone.
    LinkDown {
        /// The link.
        link: LinkId,
    },
    /// Reconcile the routes with the snapshot.
    Reconcile,
    /// Nothing.
    Rest,
}

/// What came of an action.
#[derive(Debug)]
pub enum ArcOutcome<C> {
    /// It is done, or failed in a way that changes nothing.
    Done,
    /// The neighbour was dialled, and this connection is open.
    Dialled(C),
    /// The routing protocol took the arc up as this one.
    Taken(ArcId),
}

/// What a node knows of its arcs.
pub struct ArcState<C> {
    /// The links.
    pub links: Map<Seq<char>, EntryView>,
    /// The number of the next link.
    pub next_id: int,
    /// The installer.
    pub installer: InstallerView,
    /// The open connections.
    pub clients: Map<LinkId, C>,
}

/// What is known after a neighbour was dialled or needed no dialling: an arc that is measured is
/// handed to the routing protocol, and any other waits.
pub open spec fn hand_over(arc: NeighborArc, link: LinkId) -> ArcAction {
    match arc.cost {
        Some(cost) => ArcAction::AddArc { link, cost },
        None => ArcAction::Rest,
    }
}

/// What is known and what is to be done at first when an event comes.
pub open spec fn first_action<C>(state: ArcState<C>, event: ArcEvent) -> (ArcState<C>, ArcAction) {
    match event {
        ArcEvent::Added(arc) => {
            let (links, next_id, link) = with_link(
                state.links,
                state.next_id,
                arc.neighbour_mac@,
                arc.my_dev@,
                arc.neighbour_id@,
            );
            let action = if state.clients.contains_key(link) {
                hand_over(arc, link)
            } else {
                ArcAction::Dial { link }
            };
            (ArcState { links, next_id, ..state }, action)
        },
        ArcEvent::CostChanged(arc) => {
            let action = if state.links.contains_key(arc.neighbour_mac@) {
                match (state.links[arc.neighbour_mac@].qspn_arc, arc.cost) {
                    (Some(arc), Some(cost)) => ArcAction::ArcChanged { arc, cost },
                    _ => ArcAction::Rest,
                }
            } else {
                ArcAction::Rest
            };
            (state, action)
        },
        ArcEvent::Removed(arc) => if state.links.contains_key(arc.neighbour_mac@) {
            let entry = state.links[arc.neighbour_mac@];
            let links = state.links.remove(arc.neighbour_mac@);
            let clients = state.clients.remove(entry.id);
            match entry.qspn_arc {
                Some(arc) => {
                    let installer = InstallerView {
                        endpoints: state.installer.endpoints.remove(arc),
                        ..state.installer
                    };
                    (
                        ArcState { links, clients, installer, ..state },
                        ArcAction::RemoveArc { arc, link: entry.id },
                    )
                },
                None => (
                    ArcState { links, clients, ..state },
                    ArcAction::LinkDown { link: entry.id },
                ),
            }
        } else {
            (state, ArcAction::Reconcile)
        },
    }
}

/// What is known and what is to be done after an action for `arc` came out in some way.
pub open spec fn next_action<C>(
    state: ArcState<C>,
    arc: NeighborArc,
    action: ArcAction,
    outcome: ArcOutcome<C>,
) -> (ArcState<C>, ArcAction) {
    match action {
        ArcAction::Dial { link } => {
            let clients = match outcome {
                ArcOutcome::Dialled(client) => state.clients.insert(link, client),
                _ => state.clients,
            };
            (ArcState { clients, ..state }, hand_over(arc, link))
        },
        ArcAction::AddArc { link, cost: _ } => match outcome {
            ArcOutcome::Taken(qspn_arc) => (
                ArcState {
                    links: with_arc(state.links, link, qspn_arc),
                    installer: with_endpoint(
                        state.installer,
                        qspn_arc,
                        arc.neighbour_nic_addr@,
                        arc.my_dev@,
                    ),
                    ..state
                },
                ArcAction::LinkUp { link },
            ),
            _ => (state, ArcAction::Rest),
        },
        ArcAction::LinkUp { link: _ } => (state, ArcAction::Reannounce),
        ArcAction::Reannounce => (state, ArcAction::Reconcile),
        ArcAction::ArcChanged { arc: _, cost: _ } => (state, ArcAction::Reconcile),
        ArcAction::RemoveArc { arc: _, link } => (state, ArcAction::LinkDown { link }),
        ArcAction::LinkDown { link: _ } => (state, ArcAction::Reconcile),
        ArcAction::Reconcile => (state, ArcAction::Rest),
        ArcAction::Rest => (state, ArcAction::Rest),
    }
}

/// What these three know together.
pub open spec fn arc_state<C>(
    registry: &LinkRegistry,
    installer: &RouteInstaller,
    links: &PeerLinks<C>,
) -> ArcState<C> {
    ArcState {
        links: registry.links(),
        next_id: registry.next_id() as int,
        installer: installer@,
        clients: links@,
    }
}

fn after_dialling(arc: &NeighborArc, link: LinkId) -> (r: ArcAction)
    ensures
        r == hand_over(*arc, link),
{
    match arc.cost {
        Some(cost) => ArcAction::AddArc { link, cost },
        None => ArcAction::Rest,
    }
}

/// Takes note of an event, and says what is to be done first.
pub fn begin<C>(
    registry: &mut LinkRegistry,
    installer: &mut RouteInstaller,
    links: &mut PeerLinks<C>,
    event: &ArcEvent,
) -> (r: ArcAction)
    requires
        *event is Added ==> old(registry).links().contains_key(event.about().neighbour_mac@) || old(
            registry,
        ).next_id() < u64::MAX,
    ensures
        (arc_state(final(registry), final(installer), final(links)), r) == first_action(
            arc_state(old(registry), old(installer), old(links)),
            *event,
        ),
        final(registry).retries() == old(registry).retries(),
        final(links).dial_port() == old(links).dial_port(),
{
    match event {
        ArcEvent::Added(arc) => {
            let added = on_arc_added(registry, &*links, arc);
            if added.dial {
                ArcAction::Dial { link: added.link }
            } else {
                after_dialling(arc, added.link)
            }
        },
        ArcEvent::CostChanged(arc) => match on_arc_cost_changed(&*registry, arc) {
            Some((arc, cost)) => ArcAction::ArcChanged { arc, cost },
            None => ArcAction::Rest,
        },
        ArcEvent::Removed(arc) => {
            let ghost before = registry.links();
            match on_arc_removed(registry, installer, links, arc.neighbour_mac.as_str()) {
                Some(removed) => match removed.qspn_arc {
                    Some(arc) => ArcAction::RemoveArc { arc, link: removed.link },
                    None => ArcAction::LinkDown { link: removed.link },
                },
                None => {
                    assert(before.remove(arc.neighbour_mac@) =~= before);
                    ArcAction::Reconcile
                },
            }
        },
    }
}

/// Takes note of what came of an action for `arc`, and says what is to be done next.
pub fn advance<C>(
    registry: &mut LinkRegistry,
    installer: &mut RouteInstaller,
    links: &mut PeerLinks<C>,
    arc: &NeighborArc,
    action: ArcAction,
    outcome: ArcOutcome<C>,
) -> (r: ArcAction)
    ensures
        (arc_state(final(registry), final(installer), final(links)), r) == next_action(
            arc_state(old(registry), old(installer), old(links)),
            *arc,
            action,
            outcome,
        ),
        final(registry).retries() == old(registry).retries(),
        final(links).dial_port() == old(links).dial_port(),
{
    match action {
        ArcAction::Dial { link } => {
            match outcome {
                ArcOutcome::Dialled(client) => {
                    links.insert(link, client);
                },
                _ => {},
            }
            after_dialling(arc, link)
        },
        ArcAction::AddArc { link, cost: _ } => match outcome {
            ArcOutcome::Taken(qspn_arc) => {
                on_arc_attached(registry, installer, arc, link, qspn_arc);
                ArcAction::LinkUp { link }
            },
            _ => ArcAction::Rest,
        },
        ArcAction::LinkUp { link: _ } => ArcAction::Reannounce,
        ArcAction::Reannounce => ArcAction::Reconcile,
        ArcAction::ArcChanged { arc: _, cost: _ } => ArcAction::Reconcile,
        ArcAction::RemoveArc { arc: _, link } => ArcAction::LinkDown { link },
        ArcAction::LinkDown { link: _ } => ArcAction::Reconcile,
        ArcAction::Reconcile => ArcAction::Rest,
        ArcAction::Rest => ArcAction::Rest,
    }
}

/// How many actions can still follow.
pub open spec fn actions_left(action: ArcAction) -> nat {
    match action {
        ArcAction::Dial { .. } => 5,
        ArcAction::AddArc { .. } => 4,
        ArcAction::LinkUp { .. } => 3,
        ArcAction::Reannounce => 2,
        ArcAction::RemoveArc { .. } => 3,
        ArcAction::LinkDown { .. } => 2,
        ArcAction::ArcChanged { .. } => 2,
        ArcAction::Reconcile => 1,
        ArcAction::Rest => 0,
    }
}

/// Whatever comes of them, the actions for an event come to an end: each leaves fewer to follow.
pub proof fn an_event_comes_to_rest<C>(
    state: ArcState<C>,
    arc: NeighborArc,
    action: ArcAction,
    outcome: ArcOutcome<C>,
)
    requires
        !(action is Rest),
    ensures
        actions_left(next_action(state, arc, action, outcome).1) < actions_left(action),
{
}

/// The identities and hooking hear of a link only once the routing protocol has taken its arc up.
pub proof fn a_link_is_told_once_it_is_taken_up<C>(
    state: ArcState<C>,
    event: ArcEvent,
    arc: NeighborArc,
    action: ArcAction,
    outcome: ArcOutcome<C>,
)
    ensures
        !(first_action(state, event).1 is LinkUp),
        next_action(state, arc, action, outcome).1 is LinkUp ==> action is AddArc
            && outcome is Taken,
{
}

/// What an arc that comes up leads to: its neighbour is dialled unless a connection is open, and
/// whatever comes of that, the arc is handed to the routing protocol once it is measured; if taken
/// up, the identities and hooking hear of it, the services are announced anew, and the routes are
/// reconciled.
pub proof fn an_arc_that_comes_up_is_routed<C>(
    state: ArcState<C>,
    arc: NeighborArc,
    dialled: ArcOutcome<C>,
    taken: ArcOutcome<C>,
    told: ArcOutcome<C>,
    announced: ArcOutcome<C>,
    reconciled: ArcOutcome<C>,
)
    requires
        0 <= state.next_id < u64::MAX,
    ensures
        ({
            let mac = arc.neighbour_mac@;
            let known = state.links.contains_key(mac);
            let link = if known {
                state.links[mac].id
            } else {
                LinkId(state.next_id as u64)
            };
            let (s1, a1) = first_action(state, ArcEvent::Added(arc));
            let connected = state.clients.contains_key(link);
            let (s2, a2) = if connected {
                (s1, a1)
            } else {
                next_action(s1, arc, a1, dialled)
            };
            let (s3, a3) = next_action(s2, arc, a2, taken);
            let (s4, a4) = next_action(s3, arc, a3, told);
            let (s5, a5) = next_action(s4, arc, a4, announced);
            let (s6, a6) = next_action(s5, arc, a5, reconciled);
            &&& s1.links.contains_key(mac) && s1.links[mac].id == link
            &&& known ==> s1 == state
            &&& !known ==> s1.next_id == state.next_id + 1 && s1.links[mac].dev == arc.my_dev@
                && s1.links[mac].neighbour_id == arc.neighbour_id@
                && s1.links[mac].qspn_arc is None
            &&& !connected ==> a1 == (ArcAction::Dial { link })
            &&& !connected && dialled is Dialled ==> s2.clients == s1.clients.insert(
                link,
                dialled->Dialled_0,
            )
            &&& !connected && !(dialled is Dialled) ==> s2.clients == s1.clients
            &&& arc.cost is None ==> a2 is Rest
            &&& arc.cost is Some ==> a2 == (ArcAction::AddArc { link, cost: arc.cost->Some_0 })
            &&& arc.cost is Some && !(taken is Taken) ==> a3 is Rest && s3 == s2
            &&& arc.cost is Some && taken is Taken ==> {
                &&& s3.links[mac].qspn_arc == Some(taken->Taken_0)
                &&& a3 == (ArcAction::LinkUp { link })
                &&& a4 is Reannounce && s4 == s3
                &&& a5 is Reconcile && s5 == s3
                &&& a6 is Rest && s6 == s3
            }
        }),
{
}

/// What an arc that goes down leads to: the routing protocol drops it where it had it, the
/// identities and hooking hear of it, and the routes are reconciled in any case, even where the arc
/// was not known.
pub proof fn an_arc_that_goes_down_is_unrouted<C>(
    state: ArcState<C>,
    arc: NeighborArc,
    dropped: ArcOutcome<C>,
    told: ArcOutcome<C>,
    reconciled: ArcOutcome<C>,
)
    ensures
        ({
            let mac = arc.neighbour_mac@;
            let (s1, a1) = first_action(state, ArcEvent::Removed(arc));
            let entry = state.links[mac];
            &&& !state.links.contains_key(mac) ==> s1 == state && a1 is Reconcile
            &&& state.links.contains_key(mac) ==> s1.links == state.links.remove(mac)
                && s1.clients == state.clients.remove(entry.id) && s1.next_id == state.next_id
            &&& state.links.contains_key(mac) && entry.qspn_arc is Some ==> {
                let (s2, a2) = next_action(s1, arc, a1, dropped);
                let (s3, a3) = next_action(s2, arc, a2, told);
                let (s4, a4) = next_action(s3, arc, a3, reconciled);
                &&& a1 == (ArcAction::RemoveArc { arc: entry.qspn_arc->Some_0, link: entry.id })
                &&& s1.installer.endpoints == state.installer.endpoints.remove(
                    entry.qspn_arc->Some_0,
                )
                &&& a2 == (ArcAction::LinkDown { link: entry.id }) && s2 == s1
                &&& a3 is Reconcile && s3 == s1
                &&& a4 is Rest && s4 == s1
            }
            &&& state.links.contains_key(mac) && entry.qspn_arc is None ==> {
                let (s2, a2) = next_action(s1, arc, a1, told);
                let (s3, a3) = next_action(s2, arc, a2, reconciled);
                &&& a1 == (ArcAction::LinkDown { link: entry.id })
                &&& s1.installer == state.installer
                &&& a2 is Reconcile && s2 == s1
                &&& a3 is Rest && s3 == s1
            }
        }),
{
}

/// Once an event is dealt with nothing more is done for it, and nothing changes.
pub proof fn rest_is_final<C>(state: ArcState<C>, arc: NeighborArc, outcome: ArcOutcome<C>)
    ensures
        next_action(state, arc, ArcAction::Rest, outcome).0 == state,
        next_action(state, arc, ArcAction::Rest, outcome).1 is Rest,
{
}

/// An event is about the arc that it tells of.
pub proof fn an_event_is_about_its_arc(arc: NeighborArc)
    ensures
        ArcEvent::Added(arc).about() == arc,
        ArcEvent::CostChanged(arc).about() == arc,
        ArcEvent::Removed(arc).about() == arc,
{
}

/// What a new cost leads to: the routing protocol hears of it, and the routes are reconciled, where
/// it has the arc; nothing happens elsewhere, and nothing that is known changes.
pub proof fn a_new_cost_is_passed_on<C>(
    state: ArcState<C>,
    arc: NeighborArc,
    told: ArcOutcome<C>,
    reconciled: ArcOutcome<C>,
)
    ensures
        ({
            let mac = arc.neighbour_mac@;
            let (s1, a1) = first_action(state, ArcEvent::CostChanged(arc));
            let used = state.links.contains_key(mac) && state.links[mac].qspn_arc is Some
                && arc.cost is Some;
            &&& s1 == state
            &&& !used ==> a1 is Rest
            &&& used ==> {
                let (s2, a2) = next_action(s1, arc, a1, told);
                let (s3, a3) = next_action(s2, arc, a2, reconciled);
                &&& a1 == (ArcAction::ArcChanged {
                    arc: state.links[mac].qspn_arc->Some_0,
                    cost: arc.cost->Some_0,
                })
                &&& a2 is Reconcile && s2 == state
                &&& a3 is Rest && s3 == state
            }
        }),
{
}

/// An arc that comes up and goes down again leaves nothing behind but that its number is spent:
/// neither its link, nor its gateway, nor its connection.
pub proof fn departure_undoes_arrival<C>(
    state: ArcState<C>,
    arc: NeighborArc,
    client: C,
    qspn_arc: ArcId,
)
    requires
        !state.links.contains_key(arc.neighbour_mac@),
        forall|m: Seq<char>| #[trigger]
            state.links.contains_key(m) ==> 0 <= state.links[m].id.0 < state.next_id,
        forall|l: LinkId| #[trigger] state.clients.contains_key(l) ==> l.0 < state.next_id,
        !state.installer.endpoints.contains_key(qspn_arc),
        0 <= state.next_id < u64::MAX,
        arc.cost is Some,
    ensures
        ({
            let link = LinkId(state.next_id as u64);
            let cost = arc.cost->Some_0;
            let (s1, a1) = first_action(state, ArcEvent::Added(arc));
            let (s2, a2) = next_action(s1, arc, a1, ArcOutcome::Dialled(client));
            let (s3, a3) = next_action(s2, arc, a2, ArcOutcome::Taken(qspn_arc));
            let (s4, a4) = first_action(s3, ArcEvent::Removed(arc));
            &&& a1 == ArcAction::Dial { link }
            &&& a2 == ArcAction::AddArc { link, cost }
            &&& a3 == ArcAction::LinkUp { link }
            &&& a4 == ArcAction::RemoveArc { arc: qspn_arc, link }
            &&& s4 == (ArcState { next_id: state.next_id + 1, ..state })
        }),
{
    let link = LinkId(state.next_id as u64);
    let (s1, a1) = first_action(state, ArcEvent::Added(arc));
    assert(!state.clients.contains_key(link));
    let (s2, a2) = next_action(s1, arc, a1, ArcOutcome::Dialled(client));
    let (s3, a3) = next_action(s2, arc, a2, ArcOutcome::Taken(qspn_arc));
    assert(s3.links.contains_key(arc.neighbour_mac@));
    assert(s3.links[arc.neighbour_mac@].id == link);
    assert(s3.links[arc.neighbour_mac@].qspn_arc == Some(qspn_arc));
    let (s4, a4) = first_action(s3, ArcEvent::Removed(arc));
    assert(s4.links =~= state.links);
    assert(s4.clients =~= state.clients);
    assert(s4.installer.endpoints =~= state.installer.endpoints);
}

} // verus!
