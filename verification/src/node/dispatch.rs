//! Which identity, and which part of it, an inbound call is for.
use std::collections::HashMap;
use vstd::prelude::*;
use vstd::string::*;
use crate::node::wire::{decode_identity_id, identity_in, IdentityId, TypedValue};
use crate::text::{decimal, decimal_text};

verus! {

/// The area that an error reported to a caller belongs to.
#[derive(Debug, Clone, Copy, PartialEq, Eq, Structural)]
pub enum ErrorDomain {
    /// The call could not be read.
    Deserialize,
}

/// An error reported to a caller.
#[derive(Debug, PartialEq, Eq)]
pub struct RemoteError {
    /// Its area.
    pub domain: ErrorDomain,
    /// What is wrong.
    pub message: String,
}

impl RemoteError {
    /// It says that the call could not be read, in these words.
    pub open spec fn says(&self, message: Seq<char>) -> bool {
        self.domain == ErrorDomain::Deserialize && self.message@ == message
    }
}

fn protocol_error(message: String) -> (r: RemoteError)
    ensures
        r.says(message@),
{
    RemoteError { domain: ErrorDomain::Deserialize, message }
}

/// Whom a call addresses.
#[derive(Debug, PartialEq, Eq)]
pub enum UnicastId {
    /// The main identity; also what an empty address means.
    MainIdentity,
    /// The node as a whole.
    WholeNode(TypedValue),
    /// The identity whose id the value holds.
    IdentityAware(TypedValue),
}

/// The identity that a call is for.
#[derive(Debug, Clone, Copy, PartialEq, Eq, Structural)]
pub enum Selection {
    /// The main one.
    Main,
    /// Another one.
    Secondary(IdentityId),
}

/// What the call addresses, or in which words it is refused.
pub open spec fn selected(
    unicast_id: Result<UnicastId, String>,
    main_id: IdentityId,
) -> Result<Selection, Seq<char>> {
    match unicast_id {
        Err(error) => Err("Request.unicast_id: "@ + error@),
        Ok(UnicastId::MainIdentity) => Ok(Selection::Main),
        Ok(UnicastId::WholeNode(_)) => Err(
            "Request.unicast_id: WholeNode is not valid for an identity-scoped call"@,
        ),
        Ok(UnicastId::IdentityAware(value)) => match identity_in(value@) {
            None => Err(
                "Request.unicast_id: IdentityAware payload is not a valid identity id"@,
            ),
            Some(raw) => if IdentityId(raw) == main_id {
                Ok(Selection::Main)
            } else {
                Ok(Selection::Secondary(IdentityId(raw)))
            },
        },
    }
}

/// The identity that a call is for, given whom it addresses (or why that could not be read).
pub fn select_identity(unicast_id: &Result<UnicastId, String>, main_id: IdentityId) -> (r: Result<
    Selection,
    RemoteError,
>)
    ensures
        match selected(*unicast_id, main_id) {
            Ok(selection) => r is Ok && r->Ok_0 == selection,
            Err(message) => r is Err && r->Err_0.says(message),
        },
{
    match unicast_id {
        Err(error) => {
            let mut message = String::from_str("Request.unicast_id: ");
            message.append(error.as_str());
            Err(protocol_error(message))
        },
        Ok(UnicastId::MainIdentity) => Ok(Selection::Main),
        Ok(UnicastId::WholeNode(_)) => Err(
            protocol_error(
                String::from_str(
                    "Request.unicast_id: WholeNode is not valid for an identity-scoped call",
                ),
            ),
        ),
        Ok(UnicastId::IdentityAware(value)) => match decode_identity_id(value) {
            None => Err(
                protocol_error(
                    String::from_str(
                        "Request.unicast_id: IdentityAware payload is not a valid identity id",
                    ),
                ),
            ),
            Some(id) => if id == main_id {
                Ok(Selection::Main)
            } else {
                Ok(Selection::Secondary(id))
            },
        },
    }
}

/// The calls that a node answers.
#[derive(Debug, Clone, Copy, PartialEq, Eq, Structural)]
pub enum Call {
    /// A neighbour announces itself.
    NeighborhoodHereIAm,
    /// A neighbour asks for an arc.
    NeighborhoodRequestArc,
    /// A neighbour asks whether an arc can be used.
    NeighborhoodCanYouExport,
    /// A neighbour drops an arc.
    NeighborhoodRemoveArc,
    /// A neighbour asks for a sign of life.
    NeighborhoodNop,
    /// A peer tells of a duplicated identity.
    IdentityMatchDuplication,
    /// A peer asks for the main identity.
    IdentityGetPeerMainId,
    /// A peer tells of a dropped identity arc.
    IdentityNotifyIdentityArcRemoved,
    /// A peer asks for all routes.
    QspnGetFullEtp,
    /// A peer sends routes.
    QspnSendEtp,
    /// A peer prepares to leave.
    QspnGotPrepareDestroy,
    /// A peer leaves.
    QspnGotDestroy,
    /// A message to forward.
    PeersForwardPeerMessage,
    /// A request to fetch.
    PeersGetRequest,
    /// A response.
    PeersSetResponse,
    /// A refusal.
    PeersSetRefuseMessage,
    /// A demand to start again.
    PeersSetRedoFromStart,
    /// The next destination.
    PeersSetNextDestination,
    /// A failure.
    PeersSetFailure,
    /// A non-participant.
    PeersSetNonParticipant,
    /// Missing maps of optional services.
    PeersSetMissingOptionalMaps,
    /// A participant.
    PeersSetParticipant,
    /// Maps of participants, given.
    PeersGiveParticipantMaps,
    /// Maps of participants, asked for.
    PeersAskParticipantMaps,
    /// A migration is prepared.
    CoordinatorExecutePrepareMigration,
    /// A migration is finished.
    CoordinatorExecuteFinishMigration,
    /// An entry is prepared.
    CoordinatorExecutePrepareEnter,
    /// An entry is finished.
    CoordinatorExecuteFinishEnter,
    /// A g-node has split.
    CoordinatorExecuteWeHaveSplitted,
    /// The network's data are asked for.
    HookingRetrieveNetworkData,
    /// A migration path is searched.
    HookingSearchMigrationPath,
    /// A search request, routed.
    HookingRouteSearchRequest,
    /// A search error, routed.
    HookingRouteSearchError,
    /// A search response, routed.
    HookingRouteSearchResponse,
    /// An exploration request, routed.
    HookingRouteExploreRequest,
    /// An exploration response, routed.
    HookingRouteExploreResponse,
    /// A reservation's deletion, routed.
    HookingRouteDeleteReserveRequest,
    /// A migration request, routed.
    HookingRouteMigRequest,
    /// A migration response, routed.
    HookingRouteMigResponse,
}

/// The part of a node that answers a call.
#[derive(Debug, Clone, Copy, PartialEq, Eq, Structural)]
pub enum Module {
    /// The neighbourhood, one for the node.
    Neighborhood,
    /// The identities, one for the node.
    Identity,
    /// Routing, one for each identity.
    Qspn,
    /// Peer services, one for each identity.
    Peers,
    /// The coordinator, one for each identity.
    Coordinator,
    /// Hooking, one for each identity.
    Hooking,
}

/// The part that answers `call`.
pub open spec fn answered_by(call: Call) -> Module {
    match call {
        Call::NeighborhoodHereIAm => Module::Neighborhood,
        Call::NeighborhoodRequestArc => Module::Neighborhood,
        Call::NeighborhoodCanYouExport => Module::Neighborhood,
        Call::NeighborhoodRemoveArc => Module::Neighborhood,
        Call::NeighborhoodNop => Module::Neighborhood,
        Call::IdentityMatchDuplication => Module::Identity,
        Call::IdentityGetPeerMainId => Module::Identity,
        Call::IdentityNotifyIdentityArcRemoved => Module::Identity,
        Call::QspnGetFullEtp => Module::Qspn,
        Call::QspnSendEtp => Module::Qspn,
        Call::QspnGotPrepareDestroy => Module::Qspn,
        Call::QspnGotDestroy => Module::Qspn,
        Call::CoordinatorExecutePrepareMigration => Module::Coordinator,
        Call::CoordinatorExecuteFinishMigration => Module::Coordinator,
        Call::CoordinatorExecutePrepareEnter => Module::Coordinator,
        Call::CoordinatorExecuteFinishEnter => Module::Coordinator,
        Call::CoordinatorExecuteWeHaveSplitted => Module::Coordinator,
        Call::HookingRetrieveNetworkData => Module::Hooking,
        Call::HookingSearchMigrationPath => Module::Hooking,
        Call::HookingRouteSearchRequest => Module::Hooking,
        Call::HookingRouteSearchError => Module::Hooking,
        Call::HookingRouteSearchResponse => Module::Hooking,
        Call::HookingRouteExploreRequest => Module::Hooking,
        Call::HookingRouteExploreResponse => Module::Hooking,
        Call::HookingRouteDeleteReserveRequest => Module::Hooking,
        Call::HookingRouteMigRequest => Module::Hooking,
        Call::HookingRouteMigResponse => Module::Hooking,
        _ => Module::Peers,
    }
}

/// The part that answers `call`.
pub fn module_for(call: Call) -> (r: Module)
    ensures
        r == answered_by(call),
        call is NeighborhoodHereIAm || call is NeighborhoodRequestArc
            || call is NeighborhoodCanYouExport || call is NeighborhoodRemoveArc
            || call is NeighborhoodNop <==> r is Neighborhood,
        call is IdentityMatchDuplication || call is IdentityGetPeerMainId
            || call is IdentityNotifyIdentityArcRemoved <==> r is Identity,
        call is QspnGetFullEtp || call is QspnSendEtp || call is QspnGotPrepareDestroy
            || call is QspnGotDestroy <==> r is Qspn,
        call is PeersForwardPeerMessage || call is PeersGetRequest || call is PeersSetResponse
            || call is PeersSetRefuseMessage || call is PeersSetRedoFromStart
            || call is PeersSetNextDestination || call is PeersSetFailure
            || call is PeersSetNonParticipant || call is PeersSetMissingOptionalMaps
            || call is PeersSetParticipant || call is PeersGiveParticipantMaps
            || call is PeersAskParticipantMaps <==> r is Peers,
        call is CoordinatorExecutePrepareMigration || call is CoordinatorExecuteFinishMigration
            || call is CoordinatorExecutePrepareEnter || call is CoordinatorExecuteFinishEnter
            || call is CoordinatorExecuteWeHaveSplitted <==> r is Coordinator,
        call is HookingRetrieveNetworkData || call is HookingSearchMigrationPath
            || call is HookingRouteSearchRequest || call is HookingRouteSearchError
            || call is HookingRouteSearchResponse || call is HookingRouteExploreRequest
            || call is HookingRouteExploreResponse || call is HookingRouteDeleteReserveRequest
            || call is HookingRouteMigRequest || call is HookingRouteMigResponse
            <==> r is Hooking,
{
    match call {
        Call::NeighborhoodHereIAm
        | Call::NeighborhoodRequestArc
        | Call::NeighborhoodCanYouExport
        | Call::NeighborhoodRemoveArc
        | Call::NeighborhoodNop => Module::Neighborhood,
        Call::IdentityMatchDuplication
        | Call::IdentityGetPeerMainId
        | Call::IdentityNotifyIdentityArcRemoved => Module::Identity,
        Call::QspnGetFullEtp
        | Call::QspnSendEtp
        | Call::QspnGotPrepareDestroy
        | Call::QspnGotDestroy => Module::Qspn,
        Call::PeersForwardPeerMessage
        | Call::PeersGetRequest
        | Call::PeersSetResponse
        | Call::PeersSetRefuseMessage
        | Call::PeersSetRedoFromStart
        | Call::PeersSetNextDestination
        | Call::PeersSetFailure
        | Call::PeersSetNonParticipant
        | Call::PeersSetMissingOptionalMaps
        | Call::PeersSetParticipant
        | Call::PeersGiveParticipantMaps
        | Call::PeersAskParticipantMaps => Module::Peers,
        Call::CoordinatorExecutePrepareMigration
        | Call::CoordinatorExecuteFinishMigration
        | Call::CoordinatorExecutePrepareEnter
        | Call::CoordinatorExecuteFinishEnter
        | Call::CoordinatorExecuteWeHaveSplitted => Module::Coordinator,
        Call::HookingRetrieveNetworkData
        | Call::HookingSearchMigrationPath
        | Call::HookingRouteSearchRequest
        | Call::HookingRouteSearchError
        | Call::HookingRouteSearchResponse
        | Call::HookingRouteExploreRequest
        | Call::HookingRouteExploreResponse
        | Call::HookingRouteDeleteReserveRequest
        | Call::HookingRouteMigRequest
        | Call::HookingRouteMigResponse => Module::Hooking,
    }
}

/// Where a call goes: to a part that the node has once, or to a part of one identity's stack.
#[derive(Debug)]
pub enum Target<'a, S> {
    /// The neighbourhood.
    Neighborhood,
    /// The identities.
    Identity,
    /// A part of this stack.
    Stack(Module, &'a S),
}

/// What a [`Target`] says.
pub enum Destination<S> {
    /// The neighbourhood.
    Neighborhood,
    /// The identities.
    Identity,
    /// A part of this stack.
    Stack(Module, S),
}

impl<'a, S> Target<'a, S> {
    /// What it says.
    pub open spec fn view(&self) -> Destination<S> {
        match *self {
            Target::Neighborhood => Destination::Neighborhood,
            Target::Identity => Destination::Identity,
            Target::Stack(module, stack) => Destination::Stack(module, *stack),
        }
    }
}

/// The stacks by identity rather than by its number.
pub open spec fn stacks_by_identity<S>(stacks: Map<u64, S>) -> Map<IdentityId, S> {
    Map::new(|id: IdentityId| stacks.contains_key(id.0), |id: IdentityId| stacks[id.0])
}

/// The stacks of the identities that a node hosts.
#[derive(Debug)]
pub struct Dispatcher<S> {
    identity_stack: S,
    secondary: HashMap<u64, S>,
}

impl<S> Dispatcher<S> {
    /// The main identity's stack.
    pub closed spec fn main_stack(&self) -> S {
        self.identity_stack
    }

    /// The other identities' stacks.
    pub closed spec fn others(&self) -> Map<IdentityId, S> {
        stacks_by_identity(self.secondary@)
    }

    /// The stack that an identity-scoped call reaches, or in which words it is refused.
    pub open spec fn resolves(
        &self,
        unicast_id: Result<UnicastId, String>,
        main_id: IdentityId,
    ) -> Result<S, Seq<char>> {
        match selected(unicast_id, main_id) {
            Err(message) => Err(message),
            Ok(Selection::Main) => Ok(self.main_stack()),
            Ok(Selection::Secondary(id)) => if self.others().contains_key(id) {
                Ok(self.others()[id])
            } else {
                Err(
                    "Request.unicast_id: no locally-hosted identity with id "@ + decimal(
                        id.0 as nat,
                    ),
                )
            },
        }
    }

    /// Where a call goes, or in which words it is refused.
    pub open spec fn reaches(
        &self,
        call: Option<Call>,
        unicast_id: Result<UnicastId, String>,
        main_id: IdentityId,
    ) -> Result<Destination<S>, Seq<char>> {
        match call {
            None => Err("MethodCall with no oneof arm set"@),
            Some(call) => match answered_by(call) {
                Module::Neighborhood => Ok(Destination::Neighborhood),
                Module::Identity => Ok(Destination::Identity),
                module => match self.resolves(unicast_id, main_id) {
                    Ok(stack) => Ok(Destination::Stack(module, stack)),
                    Err(message) => Err(message),
                },
            },
        }
    }

    /// A node that hosts one identity.
    pub fn new(stack: S) -> (r: Dispatcher<S>)
        ensures
            r.main_stack() == stack,
            r.others() == Map::<IdentityId, S>::empty(),
    {
        let r = Dispatcher { identity_stack: stack, secondary: HashMap::new() };
        assert(r.others() =~= Map::empty());
        r
    }

    /// Puts another stack in place of the main identity's.
    pub fn replace_identity_stack(&mut self, stack: S)
        ensures
            final(self).main_stack() == stack,
            final(self).others() == old(self).others(),
    {
        self.identity_stack = stack;
    }

    /// Hosts another identity, or replaces its stack.
    pub fn register_identity(&mut self, id: IdentityId, stack: S)
        ensures
            final(self).main_stack() == old(self).main_stack(),
            final(self).others() == old(self).others().insert(id, stack),
    {
        let ghost before = self.others();
        let _ = self.secondary.insert(id.0, stack);
        assert(self.others() =~= before.insert(id, stack));
    }

    /// Stops hosting an identity.
    pub fn unregister_identity(&mut self, id: IdentityId)
        ensures
            final(self).main_stack() == old(self).main_stack(),
            final(self).others() == old(self).others().remove(id),
    {
        let ghost before = self.others();
        let _ = self.secondary.remove(&id.0);
        assert(self.others() =~= before.remove(id));
    }

    /// The stack that an identity-scoped call reaches.
    pub fn resolve_stack(
        &self,
        unicast_id: &Result<UnicastId, String>,
        main_id: IdentityId,
    ) -> (r: Result<&S, RemoteError>)
        ensures
            match self.resolves(*unicast_id, main_id) {
                Ok(stack) => r is Ok && *r->Ok_0 == stack,
                Err(message) => r is Err && r->Err_0.says(message),
            },
    {
        match select_identity(unicast_id, main_id) {
            Err(error) => Err(error),
            Ok(Selection::Main) => Ok(&self.identity_stack),
            Ok(Selection::Secondary(id)) => match self.secondary.get(&id.0) {
                Some(stack) => Ok(stack),
                None => {
                    let mut message = String::from_str(
                        "Request.unicast_id: no locally-hosted identity with id ",
                    );
                    message.append(decimal_text(id.0).as_str());
                    Err(protocol_error(message))
                },
            },
        }
    }

    /// Where a call goes. A call for a part that the node has once is not asked whom it addresses;
    /// one for an identity's part goes to the stack that it addresses, or is refused.
    pub fn handle(
        &self,
        call: Option<Call>,
        unicast_id: &Result<UnicastId, String>,
        main_id: IdentityId,
    ) -> (r: Result<Target<'_, S>, RemoteError>)
        ensures
            match call {
                None => r is Err && r->Err_0.says("MethodCall with no oneof arm set"@),
                Some(call) => match answered_by(call) {
                    Module::Neighborhood => r is Ok && r->Ok_0 is Neighborhood,
                    Module::Identity => r is Ok && r->Ok_0 is Identity,
                    module => match self.resolves(*unicast_id, main_id) {
                        Ok(stack) => r is Ok && r->Ok_0 is Stack && r->Ok_0->Stack_0 == module
                            && *r->Ok_0->Stack_1 == stack,
                        Err(message) => r is Err && r->Err_0.says(message),
                    },
                },
            },
            match self.reaches(call, *unicast_id, main_id) {
                Ok(destination) => r is Ok && r->Ok_0@ == destination,
                Err(message) => r is Err && r->Err_0.says(message),
            },
    {
        let call = match call {
            Some(call) => call,
            None => {
                return Err(protocol_error(String::from_str("MethodCall with no oneof arm set")));
            },
        };
        let module = module_for(call);
        match module {
            Module::Neighborhood => Ok(Target::Neighborhood),
            Module::Identity => Ok(Target::Identity),
            _ => match self.resolve_stack(unicast_id, main_id) {
                Ok(stack) => Ok(Target::Stack(module, stack)),
                Err(error) => Err(error),
            },
        }
    }
}

/// Each part answers its own calls and no others.
pub proof fn each_part_answers_its_own_calls(call: Call)
    ensures
        call is NeighborhoodHereIAm || call is NeighborhoodRequestArc
            || call is NeighborhoodCanYouExport || call is NeighborhoodRemoveArc
            || call is NeighborhoodNop <==> answered_by(call) == Module::Neighborhood,
        call is IdentityMatchDuplication || call is IdentityGetPeerMainId
            || call is IdentityNotifyIdentityArcRemoved <==> answered_by(call)
            == Module::Identity,
        call is QspnGetFullEtp || call is QspnSendEtp || call is QspnGotPrepareDestroy
            || call is QspnGotDestroy <==> answered_by(call) == Module::Qspn,
        call is PeersForwardPeerMessage || call is PeersGetRequest || call is PeersSetResponse
            || call is PeersSetRefuseMessage || call is PeersSetRedoFromStart
            || call is PeersSetNextDestination || call is PeersSetFailure
            || call is PeersSetNonParticipant || call is PeersSetMissingOptionalMaps
            || call is PeersSetParticipant || call is PeersGiveParticipantMaps
            || call is PeersAskParticipantMaps <==> answered_by(call) == Module::Peers,
        call is CoordinatorExecutePrepareMigration || call is CoordinatorExecuteFinishMigration
            || call is CoordinatorExecutePrepareEnter || call is CoordinatorExecuteFinishEnter
            || call is CoordinatorExecuteWeHaveSplitted <==> answered_by(call)
            == Module::Coordinator,
        call is HookingRetrieveNetworkData || call is HookingSearchMigrationPath
            || call is HookingRouteSearchRequest || call is HookingRouteSearchError
            || call is HookingRouteSearchResponse || call is HookingRouteExploreRequest
            || call is HookingRouteExploreResponse || call is HookingRouteDeleteReserveRequest
            || call is HookingRouteMigRequest || call is HookingRouteMigResponse
            <==> answered_by(call) == Module::Hooking,
{
}

/// A call for routing, the peer services, the coordinator or hooking reaches that part of the stack
/// of the identity that it names, and of no other: the main one where it names that or none, another
/// where that is hosted here. It is refused where it names the whole node, cannot be read, or names
/// an identity that is not hosted. A call for the neighbourhood or the identities reaches them,
/// whomever it names.
pub proof fn calls_reach_whom_they_name<S>(
    dispatcher: Dispatcher<S>,
    call: Call,
    name: Result<UnicastId, String>,
    main_id: IdentityId,
)
    ensures
        ({
            let reached = dispatcher.reaches(Some(call), name, main_id);
            let shared = call is NeighborhoodHereIAm || call is NeighborhoodRequestArc
                || call is NeighborhoodCanYouExport || call is NeighborhoodRemoveArc
                || call is NeighborhoodNop;
            let identities = call is IdentityMatchDuplication || call is IdentityGetPeerMainId
                || call is IdentityNotifyIdentityArcRemoved;
            &&& shared ==> reached == Ok::<_, Seq<char>>(Destination::<S>::Neighborhood)
            &&& identities ==> reached == Ok::<_, Seq<char>>(Destination::<S>::Identity)
            &&& !shared && !identities ==> match name {
                Err(_) => reached is Err,
                Ok(UnicastId::MainIdentity) => reached is Ok && reached->Ok_0 is Stack
                    && reached->Ok_0->Stack_1 == dispatcher.main_stack(),
                Ok(UnicastId::WholeNode(_)) => reached is Err,
                Ok(UnicastId::IdentityAware(value)) => match identity_in(value@) {
                    None => reached is Err,
                    Some(raw) => if raw == main_id.0 {
                        reached is Ok && reached->Ok_0 is Stack && reached->Ok_0->Stack_1
                            == dispatcher.main_stack()
                    } else if dispatcher.others().contains_key(IdentityId(raw)) {
                        reached is Ok && reached->Ok_0 is Stack && reached->Ok_0->Stack_1
                            == dispatcher.others()[IdentityId(raw)]
                    } else {
                        reached is Err
                    },
                },
            }
            &&& reached is Ok && reached->Ok_0 is Stack ==> reached->Ok_0->Stack_0 == (if call is QspnGetFullEtp
                || call is QspnSendEtp || call is QspnGotPrepareDestroy || call is QspnGotDestroy {
                Module::Qspn
            } else if call is CoordinatorExecutePrepareMigration
                || call is CoordinatorExecuteFinishMigration
                || call is CoordinatorExecutePrepareEnter || call is CoordinatorExecuteFinishEnter
                || call is CoordinatorExecuteWeHaveSplitted {
                Module::Coordinator
            } else if call is HookingRetrieveNetworkData || call is HookingSearchMigrationPath
                || call is HookingRouteSearchRequest || call is HookingRouteSearchError
                || call is HookingRouteSearchResponse || call is HookingRouteExploreRequest
                || call is HookingRouteExploreResponse
                || call is HookingRouteDeleteReserveRequest || call is HookingRouteMigRequest
                || call is HookingRouteMigResponse {
                Module::Hooking
            } else {
                Module::Peers
            })
            &&& dispatcher.reaches(None, name, main_id) is Err
        }),
{
}

/// A call that names an identity never falls back to another: it reaches the main stack only if it
/// names the main identity.
pub proof fn a_named_identity_is_never_replaced(value: TypedValue, main_id: IdentityId)
    ensures
        selected(Ok(UnicastId::IdentityAware(value)), main_id) == Ok::<_, Seq<char>>(
            Selection::Main,
        ) <==> identity_in(value@) == Some(main_id.0),
{
}

} // verus!
