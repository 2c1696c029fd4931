//! Moving to another network: which moves are taken up, and in which order one is carried out.
use vstd::prelude::*;
use crate::node::adapters::{complete, NetworkInfo, NetworkView};
use crate::node::lifecycle::{is_address, virtual_placeholder};
use crate::node::wire::IdentityId;
use crate::space::{valid_gsizes, Naddr, Topology};

verus! {

/// The positions of a member after its g-node at level `guest` has moved to `entry`: its own below
/// that level, and those from there on.
pub open spec fn combined(current: Seq<u32>, guest: int, entry: Seq<u32>) -> Seq<u32> {
    current.take(guest) + entry
}

/// The address of a member after its g-node at level `guest_gnode_level` has moved to `entry_pos`;
/// none where that is no address of the topology.
pub fn combine_entry_naddr(
    topology: &Topology,
    current_positions: &Vec<u32>,
    guest_gnode_level: usize,
    entry_pos: &Vec<u32>,
) -> (r: Option<Naddr>)
    ensures
        r is Some <==> guest_gnode_level <= current_positions@.len() && is_address(
            topology@,
            combined(current_positions@, guest_gnode_level as int, entry_pos@),
        ),
        r is Some ==> r->Some_0@ == combined(
            current_positions@,
            guest_gnode_level as int,
            entry_pos@,
        ) && r->Some_0.gsizes() == topology@,
{
    if guest_gnode_level > current_positions.len() {
        return None;
    }
    let mut lower: Vec<u32> = Vec::new();
    let mut i: usize = 0;
    while i < guest_gnode_level
        invariant
            i <= guest_gnode_level <= current_positions@.len(),
            lower@ == current_positions@.take(i as int),
        decreases guest_gnode_level - i,
    {
        lower.push(current_positions[i]);
        assert(current_positions@.take(i + 1) =~= current_positions@.take(i as int).push(
            current_positions@[i as int],
        ));
        i += 1;
    }
    let positions = complete(&lower, entry_pos, 0);
    assert(entry_pos@.skip(0) =~= entry_pos@);
    match Naddr::new(topology.clone(), positions) {
        Ok(naddr) => Some(naddr),
        Err(_) => None,
    }
}

/// Whether a move that is proposed has been made already: only if both the position and the network
/// are those the identity has.
pub fn is_stale_finish_enter_replay(
    current_naddr: &Naddr,
    current_network_id: i64,
    new_naddr: &Naddr,
    target_network_id: i64,
) -> (r: bool)
    ensures
        r == (current_naddr@ == new_naddr@ && current_naddr.gsizes() == new_naddr.gsizes()
            && current_network_id == target_network_id),
{
    current_naddr.same(new_naddr) && current_network_id == target_network_id
}

/// A g-node moves as one: its members end up at the same positions from its level on, keep their
/// own below, and remain as different as they were there.
pub proof fn a_gnode_moves_as_one(a: Seq<u32>, b: Seq<u32>, guest: int, entry: Seq<u32>)
    requires
        0 <= guest <= a.len(),
        guest <= b.len(),
    ensures
        combined(a, guest, entry).skip(guest) == entry,
        combined(b, guest, entry).skip(guest) == entry,
        combined(a, guest, entry).take(guest) == a.take(guest),
        combined(b, guest, entry).take(guest) == b.take(guest),
        combined(a, guest, entry) == combined(b, guest, entry) <==> a.take(guest) == b.take(guest),
{
    let ca = combined(a, guest, entry);
    let cb = combined(b, guest, entry);
    assert(ca.skip(guest) =~= entry);
    assert(cb.skip(guest) =~= entry);
    assert(ca.take(guest) =~= a.take(guest));
    assert(cb.take(guest) =~= b.take(guest));
}

/// A node on its own moves to exactly the place it was given.
pub proof fn a_lone_node_moves_to_its_place(current: Seq<u32>, entry: Seq<u32>)
    ensures
        combined(current, 0, entry) == entry,
{
    assert(combined(current, 0, entry) =~= entry);
}

/// How far a move has come. `old` is the identity that moves and `new` the one that takes over.
#[derive(Debug, Clone, Copy, PartialEq, Eq, Structural)]
pub enum Phase {
    /// No move is under way.
    Idle,
    /// The identities are being told of the move.
    Preparing {
        /// The identity that moves.
        old: IdentityId,
    },
    /// The identity is being forked.
    Forking {
        /// The identity that moves.
        old: IdentityId,
    },
    /// The new identity is being given a place not yet settled.
    Veiling {
        /// The identity that moves.
        old: IdentityId,
        /// The identity that takes over.
        new: IdentityId,
    },
    /// The old stack and its kernel state are being taken down.
    TearingDown {
        /// The identity that moves.
        old: IdentityId,
        /// The identity that takes over.
        new: IdentityId,
    },
    /// The new stack is being started.
    Bootstrapping {
        /// The identity that moves.
        old: IdentityId,
        /// The identity that takes over.
        new: IdentityId,
    },
    /// The fork is being undone, because the new stack did not start.
    Aborting,
    /// The known arcs are being attached to the new stack, which then answers calls.
    Attaching {
        /// The identity that moves.
        old: IdentityId,
        /// The identity that takes over.
        new: IdentityId,
    },
    /// The new stack is being asked whether it has settled.
    Waiting {
        /// The identity that moves.
        old: IdentityId,
        /// The identity that takes over.
        new: IdentityId,
    },
    /// A while is being let pass before it is asked again.
    Pausing {
        /// The identity that moves.
        old: IdentityId,
        /// The identity that takes over.
        new: IdentityId,
    },
    /// The new place is being made real in the kernel.
    Realizing {
        /// The identity that moves.
        old: IdentityId,
        /// The identity that takes over.
        new: IdentityId,
    },
    /// The new identity is being given its settled place.
    Naming {
        /// The identity that moves.
        old: IdentityId,
        /// The identity that takes over.
        new: IdentityId,
    },
    /// The old identity is being removed.
    Retiring {
        /// The identity that moves.
        old: IdentityId,
    },
}

/// What to do next.
#[derive(Debug, Clone, Copy, PartialEq, Eq, Structural)]
pub enum Action {
    /// Nothing: no move is under way.
    Rest,
    /// Tell the identities that `old` is about to move.
    PrepareMigration {
        /// The identity that moves.
        old: IdentityId,
    },
    /// Fork `old`.
    Fork {
        /// The identity that moves.
        old: IdentityId,
    },
    /// Give `new` the virtual place.
    SetVirtual {
        /// The identity that takes over.
        new: IdentityId,
    },
    /// Stop the old stack, wait for it, and take its kernel state down.
    TearDown,
    /// Start the new stack at the target, with the installer at the virtual place.
    Bootstrap,
    /// Undo the fork.
    AbortFork {
        /// The identity that moves.
        old: IdentityId,
        /// The identity that takes over.
        new: IdentityId,
    },
    /// Attach the known arcs, publish the new stack, and let it answer calls.
    Attach,
    /// Ask the new stack whether it has settled.
    PollBootstrap,
    /// Let a while pass.
    Pause,
    /// Make the target real in the kernel: the address, and the routes.
    Realize,
    /// Give `new` the target.
    SetReal {
        /// The identity that takes over.
        new: IdentityId,
    },
    /// Remove `old`.
    Retire {
        /// The identity that moved.
        old: IdentityId,
    },
    /// The move is complete.
    Finished,
    /// The move was given up.
    Stopped,
}

/// What came of the last action.
#[derive(Debug, Clone, Copy, PartialEq, Eq, Structural)]
pub enum Outcome {
    /// It was done.
    Done,
    /// It was done, and gave this identity.
    Forked(IdentityId),
    /// It failed.
    Failed,
    /// The stack has not settled yet.
    NotYet,
}

/// The next phase and action. Telling the identities, forking and starting the new stack must
/// succeed; the rest is done as well as it can be.
pub open spec fn next_step(phase: Phase, outcome: Outcome) -> (Phase, Action) {
    match phase {
        Phase::Idle => (Phase::Idle, Action::Rest),
        Phase::Preparing { old } => if outcome is Failed {
            (Phase::Idle, Action::Stopped)
        } else {
            (Phase::Forking { old }, Action::Fork { old })
        },
        Phase::Forking { old } => match outcome {
            Outcome::Forked(new) => (Phase::Veiling { old, new }, Action::SetVirtual { new }),
            _ => (Phase::Idle, Action::Stopped),
        },
        Phase::Veiling { old, new } => (Phase::TearingDown { old, new }, Action::TearDown),
        Phase::TearingDown { old, new } => (Phase::Bootstrapping { old, new }, Action::Bootstrap),
        Phase::Bootstrapping { old, new } => if outcome is Failed {
            (Phase::Aborting, Action::AbortFork { old, new })
        } else {
            (Phase::Attaching { old, new }, Action::Attach)
        },
        Phase::Aborting => (Phase::Idle, Action::Stopped),
        Phase::Attaching { old, new } => (Phase::Waiting { old, new }, Action::PollBootstrap),
        Phase::Waiting { old, new } => if outcome is NotYet {
            (Phase::Pausing { old, new }, Action::Pause)
        } else {
            (Phase::Realizing { old, new }, Action::Realize)
        },
        Phase::Pausing { old, new } => (Phase::Waiting { old, new }, Action::PollBootstrap),
        Phase::Realizing { old, new } => (Phase::Naming { old, new }, Action::SetReal { new }),
        Phase::Naming { old, new } => (Phase::Retiring { old }, Action::Retire { old }),
        Phase::Retiring { old } => (Phase::Idle, Action::Finished),
    }
}

fn step(phase: Phase, outcome: Outcome) -> (r: (Phase, Action))
    ensures
        r == next_step(phase, outcome),
{
    match phase {
        Phase::Idle => (Phase::Idle, Action::Rest),
        Phase::Preparing { old } => match outcome {
            Outcome::Failed => (Phase::Idle, Action::Stopped),
            _ => (Phase::Forking { old }, Action::Fork { old }),
        },
        Phase::Forking { old } => match outcome {
            Outcome::Forked(new) => (Phase::Veiling { old, new }, Action::SetVirtual { new }),
            _ => (Phase::Idle, Action::Stopped),
        },
        Phase::Veiling { old, new } => (Phase::TearingDown { old, new }, Action::TearDown),
        Phase::TearingDown { old, new } => (Phase::Bootstrapping { old, new }, Action::Bootstrap),
        Phase::Bootstrapping { old, new } => match outcome {
            Outcome::Failed => (Phase::Aborting, Action::AbortFork { old, new }),
            _ => (Phase::Attaching { old, new }, Action::Attach),
        },
        Phase::Aborting => (Phase::Idle, Action::Stopped),
        Phase::Attaching { old, new } => (Phase::Waiting { old, new }, Action::PollBootstrap),
        Phase::Waiting { old, new } => match outcome {
            Outcome::NotYet => (Phase::Pausing { old, new }, Action::Pause),
            _ => (Phase::Realizing { old, new }, Action::Realize),
        },
        Phase::Pausing { old, new } => (Phase::Waiting { old, new }, Action::PollBootstrap),
        Phase::Realizing { old, new } => (Phase::Naming { old, new }, Action::SetReal { new }),
        Phase::Naming { old, new } => (Phase::Retiring { old }, Action::Retire { old }),
        Phase::Retiring { old: _ } => (Phase::Idle, Action::Finished),
    }
}

/// What came of a proposal to move.
#[derive(Debug, Clone, Copy, PartialEq, Eq, Structural)]
pub enum Admission {
    /// The positions are no address.
    NotAnAddress,
    /// This identity keeps its place.
    Fixed,
    /// Another move is under way.
    Busy,
    /// The move has been made already.
    Stale,
    /// The whole network would move.
    WholeNetwork,
    /// The move is taken up.
    Admitted,
}

/// What a [`Migrator`] knows.
pub struct MigratorView {
    /// The g-node sizes of the topology.
    pub gsizes: Seq<u32>,
    /// The positions of the running stack.
    pub current: Seq<u32>,
    /// The positions that a move leads to.
    pub target: Seq<u32>,
    /// The level of the g-node that moves.
    pub guest_gnode_level: int,
    /// Whether the identity may move at all.
    pub negotiated: bool,
    /// How many moves were completed.
    pub migrations: int,
    /// How far a move has come.
    pub phase: Phase,
}

/// What comes of a proposal to move a g-node at level `guest` to `entry` in network `network_id`.
pub open spec fn admission(
    m: MigratorView,
    current_network: i64,
    guest: int,
    entry: Seq<u32>,
    network_id: i64,
) -> Admission {
    let target = combined(m.current, guest, entry);
    if guest > m.current.len() || !is_address(m.gsizes, target) {
        Admission::NotAnAddress
    } else if !m.negotiated {
        Admission::Fixed
    } else if m.phase != Phase::Idle {
        Admission::Busy
    } else if target == m.current && network_id == current_network {
        Admission::Stale
    } else if guest >= m.gsizes.len() {
        Admission::WholeNetwork
    } else {
        Admission::Admitted
    }
}

/// What is known, and what to do next, once the last action came out in some way.
pub open spec fn advanced(m: MigratorView, outcome: Outcome) -> (MigratorView, Action) {
    let (phase, action) = next_step(m.phase, outcome);
    (
        MigratorView {
            phase,
            current: if action is Attach {
                m.target
            } else {
                m.current
            },
            migrations: if action is Finished {
                m.migrations + 1
            } else {
                m.migrations
            },
            ..m
        },
        action,
    )
}

/// One identity's moves.
#[derive(Debug)]
pub struct Migrator {
    current: Naddr,
    target: Naddr,
    guest_gnode_level: usize,
    negotiated: bool,
    migrations: u32,
    phase: Phase,
}

impl Migrator {
    #[verifier::type_invariant]
    spec fn is_consistent(self) -> bool {
        &&& valid_gsizes(self.current.gsizes())
        &&& self.current@.len() == self.current.gsizes().len()
        &&& self.target.gsizes() == self.current.gsizes()
    }

    /// What it knows.
    pub closed spec fn view(&self) -> MigratorView {
        MigratorView {
            gsizes: self.current.gsizes(),
            current: self.current@,
            target: self.target@,
            guest_gnode_level: self.guest_gnode_level as int,
            negotiated: self.negotiated,
            migrations: self.migrations as int,
            phase: self.phase,
        }
    }

    /// An identity that stands at `my_naddr` and has not moved yet.
    pub fn new(my_naddr: Naddr, negotiated: bool) -> (r: Migrator)
        ensures
            r@ == (MigratorView {
                gsizes: my_naddr.gsizes(),
                current: my_naddr@,
                target: my_naddr@,
                guest_gnode_level: 0,
                negotiated,
                migrations: 0,
                phase: Phase::Idle,
            }),
    {
        let _ = my_naddr.positions();
        let target = my_naddr.clone();
        Migrator {
            current: my_naddr,
            target,
            guest_gnode_level: 0,
            negotiated,
            migrations: 0,
            phase: Phase::Idle,
        }
    }

    /// Takes up a proposed move, or says why not. A move that is taken up makes the identity a
    /// member of the other network at once; the first action is to tell the identities.
    pub fn finish_enter(
        &mut self,
        net: &mut NetworkInfo,
        guest_gnode_level: usize,
        entry_pos: &Vec<u32>,
        target_network_id: i64,
        main_id: IdentityId,
    ) -> (r: Admission)
        ensures
            r == admission(
                old(self)@,
                old(net)@.network_id,
                guest_gnode_level as int,
                entry_pos@,
                target_network_id,
            ),
            r is Admitted ==> final(self)@ == (MigratorView {
                target: combined(old(self)@.current, guest_gnode_level as int, entry_pos@),
                guest_gnode_level: guest_gnode_level as int,
                phase: Phase::Preparing { old: main_id },
                ..old(self)@
            }),
            r is Admitted ==> final(net)@ == (NetworkView {
                network_id: target_network_id,
                ..old(net)@
            }),
            !(r is Admitted) ==> final(self)@ == old(self)@ && final(net)@ == old(net)@,
    {
        proof {
            use_type_invariant(&*self);
        }
        let new_naddr = match combine_entry_naddr(
            self.current.topology(),
            self.current.positions(),
            guest_gnode_level,
            entry_pos,
        ) {
            Some(new_naddr) => new_naddr,
            None => {
                return Admission::NotAnAddress;
            },
        };
        if !self.negotiated {
            return Admission::Fixed;
        }
        if self.phase != Phase::Idle {
            return Admission::Busy;
        }
        if is_stale_finish_enter_replay(
            &self.current,
            net.network_id(),
            &new_naddr,
            target_network_id,
        ) {
            return Admission::Stale;
        }
        if guest_gnode_level >= self.current.topology().levels() {
            return Admission::WholeNetwork;
        }
        net.set_network_id(target_network_id);
        let current = self.current.clone();
        let negotiated = self.negotiated;
        let migrations: u32 = self.migrations;
        *self = Migrator {
            current,
            target: new_naddr,
            guest_gnode_level,
            negotiated,
            migrations,
            phase: Phase::Preparing { old: main_id },
        };
        Admission::Admitted
    }

    /// The next action, given what came of the last one. Once the new stack runs, its place is the
    /// identity's; once the move is complete, it counts.
    pub fn advance(&mut self, outcome: Outcome) -> (r: Action)
        requires
            old(self)@.migrations < u32::MAX,
        ensures
            ({
                let (phase, action) = next_step(old(self)@.phase, outcome);
                &&& r == action
                &&& final(self)@ == (MigratorView {
                    phase,
                    current: if action is Attach {
                        old(self)@.target
                    } else {
                        old(self)@.current
                    },
                    migrations: if action is Finished {
                        old(self)@.migrations + 1
                    } else {
                        old(self)@.migrations
                    },
                    ..old(self)@
                })
            }),
            (final(self)@, r) == advanced(old(self)@, outcome),
    {
        proof {
            use_type_invariant(&*self);
        }
        let (phase, action) = step(self.phase, outcome);
        let _ = self.target.positions();
        let target = self.target.clone();
        let current = match action {
            Action::Attach => self.target.clone(),
            _ => self.current.clone(),
        };
        let migrations: u32 = match action {
            Action::Finished => self.migrations + 1,
            _ => self.migrations,
        };
        let guest_gnode_level: usize = self.guest_gnode_level;
        let negotiated = self.negotiated;
        *self = Migrator { current, target, guest_gnode_level, negotiated, migrations, phase };
        action
    }

    /// The address of the running stack.
    pub fn current(&self) -> (r: &Naddr)
        ensures
            r@ == self@.current,
            r.gsizes() == self@.gsizes,
    {
        &self.current
    }

    /// The address that a move leads to.
    pub fn target(&self) -> (r: &Naddr)
        ensures
            r@ == self@.target,
            r.gsizes() == self@.gsizes,
    {
        proof {
            use_type_invariant(self);
        }
        &self.target
    }

    /// The level of the g-node that moves, and that of the network it enters.
    pub fn gnode_levels(&self) -> (r: (usize, usize))
        ensures
            r.0 == self@.guest_gnode_level,
            r.1 == self@.gsizes.len(),
    {
        (self.guest_gnode_level, self.current.topology().levels())
    }

    /// How many moves were completed.
    pub fn migrations(&self) -> (r: u32)
        ensures
            r == self@.migrations,
    {
        self.migrations
    }

    /// Whether the identity has moved at least once.
    pub fn rehooked(&self) -> (r: bool)
        ensures
            r == (self@.migrations > 0),
    {
        self.migrations > 0
    }

    /// The address for the installer of a stack that starts at `my_naddr`: that address for a
    /// network of its own, and the virtual place for one that enters another network.
    pub fn route_naddr(my_naddr: &Naddr, entering: bool) -> (r: Naddr)
        ensures
            r.gsizes() == my_naddr.gsizes(),
            r@ == if entering {
                my_naddr.gsizes()
            } else {
                my_naddr@
            },
            entering ==> r.virtual_somewhere(),
    {
        if entering {
            virtual_placeholder(my_naddr.topology())
        } else {
            my_naddr.clone()
        }
    }
}

/// While a move is under way no other is taken up.
pub proof fn one_move_at_a_time(
    m: MigratorView,
    current_network: i64,
    guest: int,
    entry: Seq<u32>,
    network_id: i64,
)
    requires
        m.phase != Phase::Idle,
    ensures
        !(admission(m, current_network, guest, entry, network_id) is Admitted),
{
}

/// An identity with a fixed place never moves.
pub proof fn a_fixed_place_is_kept(
    m: MigratorView,
    current_network: i64,
    guest: int,
    entry: Seq<u32>,
    network_id: i64,
)
    requires
        !m.negotiated,
    ensures
        !(admission(m, current_network, guest, entry, network_id) is Admitted),
{
}

/// A completed move that is proposed once more is recognised, and only the same place in the same
/// network is taken for it.
pub proof fn a_completed_move_is_not_repeated(
    m: MigratorView,
    current_network: i64,
    guest: int,
    entry: Seq<u32>,
    network_id: i64,
)
    requires
        m.negotiated,
        m.phase == Phase::Idle,
        0 <= guest < m.gsizes.len(),
        guest <= m.current.len(),
        is_address(m.gsizes, combined(m.current, guest, entry)),
    ensures
        admission(m, current_network, guest, entry, network_id) is Stale <==> combined(
            m.current,
            guest,
            entry,
        ) == m.current && network_id == current_network,
        admission(m, current_network, guest, entry, network_id) is Stale || admission(
            m,
            current_network,
            guest,
            entry,
            network_id,
        ) is Admitted,
        admission(
            (MigratorView { current: combined(m.current, guest, entry), ..m }),
            network_id,
            guest,
            entry,
            network_id,
        ) is Stale,
{
    let target = combined(m.current, guest, entry);
    assert(combined(target, guest, entry) =~= target);
}

/// The phase after these outcomes.
pub open spec fn phase_after(phase: Phase, outcomes: Seq<Outcome>) -> Phase
    decreases outcomes.len(),
{
    if outcomes.len() == 0 {
        phase
    } else {
        next_step(phase_after(phase, outcomes.drop_last()), outcomes.last()).0
    }
}

/// The actions that these outcomes lead to, in their order.
pub open spec fn actions_after(phase: Phase, outcomes: Seq<Outcome>) -> Seq<Action>
    decreases outcomes.len(),
{
    if outcomes.len() == 0 {
        Seq::empty()
    } else {
        actions_after(phase, outcomes.drop_last()).push(
            next_step(phase_after(phase, outcomes.drop_last()), outcomes.last()).1,
        )
    }
}

spec fn torn_down(phase: Phase) -> bool {
    phase is TearingDown || started(phase) || phase is Bootstrapping || phase is Aborting
}

spec fn started(phase: Phase) -> bool {
    phase is Attaching || waiting(phase)
}

spec fn waiting(phase: Phase) -> bool {
    phase is Waiting || phase is Pausing || phase is Realizing || phase is Naming
        || phase is Retiring
}

proof fn history(old: IdentityId, outcomes: Seq<Outcome>)
    ensures
        ({
            let phase = phase_after(Phase::Preparing { old }, outcomes);
            let actions = actions_after(Phase::Preparing { old }, outcomes);
            &&& actions.len() == outcomes.len()
            &&& torn_down(phase) ==> actions.contains(Action::TearDown)
            &&& (started(phase) || phase is Bootstrapping) ==> actions.contains(Action::Bootstrap)
            &&& started(phase) ==> actions.contains(Action::Attach)
        }),
    decreases outcomes.len(),
{
    let start = Phase::Preparing { old };
    if outcomes.len() > 0 {
        history(old, outcomes.drop_last());
        let before = actions_after(start, outcomes.drop_last());
        let actions = actions_after(start, outcomes);
        assert forall|a: Action| before.contains(a) implies actions.contains(a) by {
            let i = choose|i: int| 0 <= i < before.len() && before[i] == a;
            assert(actions[i] == a);
        }
        assert(actions[actions.len() - 1] == next_step(
            phase_after(start, outcomes.drop_last()),
            outcomes.last(),
        ).1);
    }
}

/// Two stacks never hold kernel state at once, and none answers before it runs: the new stack
/// starts only after the old one was taken down, answers only after it started, and is made real in
/// the kernel only after it answers and did not say that it has yet to settle.
pub proof fn a_move_goes_in_order(old: IdentityId, outcomes: Seq<Outcome>, i: int)
    requires
        0 <= i < outcomes.len(),
    ensures
        ({
            let actions = actions_after(Phase::Preparing { old }, outcomes.take(i + 1));
            let before = actions_after(Phase::Preparing { old }, outcomes.take(i));
            &&& actions == before.push(actions.last())
            &&& actions.last() is Bootstrap ==> before.contains(Action::TearDown)
            &&& actions.last() is Attach ==> before.contains(Action::TearDown) && before.contains(
                Action::Bootstrap,
            )
            &&& actions.last() is Realize ==> {
                &&& before.contains(Action::TearDown)
                &&& before.contains(Action::Bootstrap)
                &&& before.contains(Action::Attach)
                &&& !(outcomes[i] is NotYet)
            }
        }),
{
    assert(outcomes.take(i + 1).drop_last() =~= outcomes.take(i));
    assert(outcomes.take(i + 1).last() == outcomes[i]);
    history(old, outcomes.take(i));
}

/// What is known after these outcomes.
pub open spec fn known_after(m: MigratorView, outcomes: Seq<Outcome>) -> MigratorView
    decreases outcomes.len(),
{
    if outcomes.len() == 0 {
        m
    } else {
        advanced(known_after(m, outcomes.drop_last()), outcomes.last()).0
    }
}

/// The outcomes of a move that goes well, as far as they have come: the identities are told, the
/// fork gives `new`, the new stack starts, asks for time `waits` times, and then does not ask for
/// more. All else may come out in any way.
pub open spec fn goes_well(outcomes: Seq<Outcome>, new: IdentityId, waits: int) -> bool {
    &&& 0 <= waits
    &&& outcomes.len() <= 10 + 2 * waits
    &&& outcomes.len() > 0 ==> !(outcomes[0] is Failed)
    &&& outcomes.len() > 1 ==> outcomes[1] == Outcome::Forked(new)
    &&& outcomes.len() > 4 ==> !(outcomes[4] is Failed)
    &&& forall|i: int|
        6 <= i < 6 + 2 * waits && i % 2 == 0 && i < outcomes.len() ==> (
        #[trigger] outcomes[i]) is NotYet
    &&& outcomes.len() > 6 + 2 * waits ==> !(outcomes[6 + 2 * waits] is NotYet)
}

spec fn phase_of_a_good_move(old: IdentityId, new: IdentityId, waits: int, n: int) -> Phase {
    if n == 0 {
        Phase::Preparing { old }
    } else if n == 1 {
        Phase::Forking { old }
    } else if n == 2 {
        Phase::Veiling { old, new }
    } else if n == 3 {
        Phase::TearingDown { old, new }
    } else if n == 4 {
        Phase::Bootstrapping { old, new }
    } else if n == 5 {
        Phase::Attaching { old, new }
    } else if n <= 6 + 2 * waits {
        if n % 2 == 0 {
            Phase::Waiting { old, new }
        } else {
            Phase::Pausing { old, new }
        }
    } else if n == 7 + 2 * waits {
        Phase::Realizing { old, new }
    } else if n == 8 + 2 * waits {
        Phase::Naming { old, new }
    } else if n == 9 + 2 * waits {
        Phase::Retiring { old }
    } else {
        Phase::Idle
    }
}

proof fn front_goes_well(outcomes: Seq<Outcome>, new: IdentityId, waits: int)
    requires
        goes_well(outcomes, new, waits),
        outcomes.len() > 0,
    ensures
        goes_well(outcomes.drop_last(), new, waits),
{
    let front = outcomes.drop_last();
    assert forall|i: int|
        6 <= i < 6 + 2 * waits && i % 2 == 0 && i < front.len() implies (
    #[trigger] front[i]) is NotYet by {
        assert(outcomes[i] is NotYet);
    }
}

proof fn good_moves_are_in_phase(
    m: MigratorView,
    old: IdentityId,
    new: IdentityId,
    outcomes: Seq<Outcome>,
    waits: int,
)
    requires
        m.phase == (Phase::Preparing { old }),
        goes_well(outcomes, new, waits),
    ensures
        phase_after(m.phase, outcomes) == phase_of_a_good_move(
            old,
            new,
            waits,
            outcomes.len() as int,
        ),
        known_after(m, outcomes) == (MigratorView {
            phase: phase_after(m.phase, outcomes),
            current: if outcomes.len() >= 5 {
                m.target
            } else {
                m.current
            },
            migrations: if outcomes.len() == 10 + 2 * waits {
                m.migrations + 1
            } else {
                m.migrations
            },
            ..m
        }),
        actions_after(m.phase, outcomes).len() == outcomes.len(),
    decreases outcomes.len(),
{
    if outcomes.len() > 0 {
        let front = outcomes.drop_last();
        let n = front.len() as int;
        front_goes_well(outcomes, new, waits);
        good_moves_are_in_phase(m, old, new, front, waits);
        assert(outcomes.last() == outcomes[n]);
        if 6 <= n < 6 + 2 * waits && n % 2 == 0 {
            assert(outcomes[n] is NotYet);
        }
    }
}

proof fn earlier_actions_stay(phase: Phase, outcomes: Seq<Outcome>, i: int)
    requires
        0 <= i < outcomes.len(),
    ensures
        actions_after(phase, outcomes).len() == outcomes.len(),
        actions_after(phase, outcomes)[i] == next_step(
            phase_after(phase, outcomes.take(i)),
            outcomes[i],
        ).1,
    decreases outcomes.len(),
{
    let front = outcomes.drop_last();
    if i < front.len() {
        earlier_actions_stay(phase, front, i);
        assert(front.take(i) =~= outcomes.take(i));
    } else {
        assert(front =~= outcomes.take(i));
        if front.len() > 0 {
            earlier_actions_stay(phase, front, 0);
        } else {
            assert(actions_after(phase, front).len() == 0);
        }
    }
}

proof fn beginnings_go_well(outcomes: Seq<Outcome>, new: IdentityId, waits: int, i: int)
    requires
        goes_well(outcomes, new, waits),
        0 <= i <= outcomes.len(),
    ensures
        goes_well(outcomes.take(i), new, waits),
    decreases outcomes.len() - i,
{
    if i < outcomes.len() {
        beginnings_go_well(outcomes, new, waits, i + 1);
        front_goes_well(outcomes.take(i + 1), new, waits);
        assert(outcomes.take(i + 1).drop_last() =~= outcomes.take(i));
    } else {
        assert(outcomes.take(i) =~= outcomes);
    }
}

/// A move whose fork and start succeed is carried through, action by action: the identity is forked,
/// veiled and taken down, the new stack is started and attached, and asked until it has no more need
/// of time, whatever else it answers; then its place is made real and named, the old identity is
/// retired, and the move is complete.
pub proof fn a_move_that_starts_is_carried_through(
    old: IdentityId,
    new: IdentityId,
    outcomes: Seq<Outcome>,
    waits: int,
    i: int,
)
    requires
        goes_well(outcomes, new, waits),
        0 <= i < outcomes.len(),
    ensures
        ({
            let actions = actions_after(Phase::Preparing { old }, outcomes);
            &&& actions.len() == outcomes.len()
            &&& i == 0 ==> actions[i] == (Action::Fork { old })
            &&& i == 1 ==> actions[i] == (Action::SetVirtual { new })
            &&& i == 2 ==> actions[i] == Action::TearDown
            &&& i == 3 ==> actions[i] == Action::Bootstrap
            &&& i == 4 ==> actions[i] == Action::Attach
            &&& 5 <= i < 6 + 2 * waits && i % 2 == 1 ==> actions[i] == Action::PollBootstrap
            &&& 6 <= i < 6 + 2 * waits && i % 2 == 0 ==> actions[i] == Action::Pause
            &&& i == 6 + 2 * waits ==> actions[i] == Action::Realize
            &&& i == 7 + 2 * waits ==> actions[i] == (Action::SetReal { new })
            &&& i == 8 + 2 * waits ==> actions[i] == (Action::Retire { old })
            &&& i == 9 + 2 * waits ==> actions[i] == Action::Finished
        }),
{
    let m = MigratorView {
        gsizes: Seq::empty(),
        current: Seq::empty(),
        target: Seq::empty(),
        guest_gnode_level: 0,
        negotiated: true,
        migrations: 0,
        phase: Phase::Preparing { old },
    };
    earlier_actions_stay(m.phase, outcomes, i);
    beginnings_go_well(outcomes, new, waits, i);
    good_moves_are_in_phase(m, old, new, outcomes.take(i), waits);
    if 6 <= i < 6 + 2 * waits && i % 2 == 0 {
        assert(outcomes[i] is NotYet);
    }
}

/// While no move is under way nothing is done and nothing changes, whatever comes: no move is counted
/// that was not begun.
pub proof fn nothing_happens_without_a_move(m: MigratorView, outcome: Outcome)
    requires
        m.phase is Idle,
    ensures
        advanced(m, outcome).1 is Rest,
        advanced(m, outcome).0 == m,
{
}

/// While such a move is under way no other can begin; the identity has its old place until the new
/// stack has started, and the new one from then on; and the move counts once it is complete, when
/// another may begin.
pub proof fn a_completed_move_counts_once(
    m: MigratorView,
    old: IdentityId,
    new: IdentityId,
    outcomes: Seq<Outcome>,
    waits: int,
)
    requires
        m.phase == (Phase::Preparing { old }),
        goes_well(outcomes, new, waits),
    ensures
        ({
            let after = known_after(m, outcomes);
            &&& after.phase == Phase::Idle <==> outcomes.len() == 10 + 2 * waits
            &&& after.current == if outcomes.len() < 5 {
                m.current
            } else {
                m.target
            }
            &&& after.migrations == if outcomes.len() == 10 + 2 * waits {
                m.migrations + 1
            } else {
                m.migrations
            }
            &&& after.target == m.target
            &&& after.gsizes == m.gsizes
            &&& after.guest_gnode_level == m.guest_gnode_level
            &&& after.negotiated == m.negotiated
        }),
{
    good_moves_are_in_phase(m, old, new, outcomes, waits);
}

/// A move is given up where telling the identities fails, where the fork does, and, once the fork is
/// undone, where the new stack does not start; the identity then has the place it had, nothing is
/// counted, and another move may begin.
pub proof fn a_move_is_given_up_where_it_cannot_start(
    m: MigratorView,
    old: IdentityId,
    new: IdentityId,
    told: Outcome,
    forked: Outcome,
    veiled: Outcome,
    taken_down: Outcome,
    undone: Outcome,
)
    requires
        m.phase == (Phase::Preparing { old }),
        !(told is Failed),
        !(forked is Forked),
    ensures
        actions_after(m.phase, seq![Outcome::Failed]) == seq![Action::Stopped],
        known_after(m, seq![Outcome::Failed]) == (MigratorView { phase: Phase::Idle, ..m }),
        actions_after(m.phase, seq![told, forked]) == seq![Action::Fork { old }, Action::Stopped],
        known_after(m, seq![told, forked]) == (MigratorView { phase: Phase::Idle, ..m }),
        ({
            let outcomes = seq![
                told,
                Outcome::Forked(new),
                veiled,
                taken_down,
                Outcome::Failed,
                undone,
            ];
            &&& actions_after(m.phase, outcomes) == seq![
                Action::Fork { old },
                Action::SetVirtual { new },
                Action::TearDown,
                Action::Bootstrap,
                Action::AbortFork { old, new },
                Action::Stopped,
            ]
            &&& known_after(m, outcomes) == (MigratorView { phase: Phase::Idle, ..m })
        }),
{
    let none = Seq::<Outcome>::empty();
    assert(phase_after(m.phase, none) == m.phase);
    assert(actions_after(m.phase, none) =~= Seq::empty());
    assert(known_after(m, none) == m);
    assert(seq![Outcome::Failed].drop_last() =~= none);
    assert(actions_after(m.phase, seq![Outcome::Failed]) =~= seq![Action::Stopped]);
    let two = seq![told, forked];
    assert(two.drop_last() =~= seq![told]);
    assert(seq![told].drop_last() =~= none);
    assert(phase_after(m.phase, seq![told]) == (Phase::Forking { old }));
    assert(actions_after(m.phase, seq![told]) =~= seq![Action::Fork { old }]);
    assert(known_after(m, seq![told]) == (MigratorView { phase: Phase::Forking { old }, ..m }));
    assert(actions_after(m.phase, two) =~= seq![Action::Fork { old }, Action::Stopped]);
    let o2 = seq![told, Outcome::Forked(new)];
    let o3 = o2.push(veiled);
    let o4 = o3.push(taken_down);
    let o5 = o4.push(Outcome::Failed);
    let o6 = o5.push(undone);
    assert(o2.drop_last() =~= seq![told]);
    assert(o3.drop_last() =~= o2);
    assert(o4.drop_last() =~= o3);
    assert(o5.drop_last() =~= o4);
    assert(o6.drop_last() =~= o5);
    let all = seq![told, Outcome::Forked(new), veiled, taken_down, Outcome::Failed, undone];
    assert(all =~= o6);
    assert(actions_after(m.phase, o2) =~= seq![Action::Fork { old }, Action::SetVirtual { new }]);
    assert(known_after(m, o2) == (MigratorView { phase: Phase::Veiling { old, new }, ..m }));
    assert(phase_after(m.phase, o2) == (Phase::Veiling { old, new }));
    assert(phase_after(m.phase, o3) == (Phase::TearingDown { old, new }));
    assert(known_after(m, o3) == (MigratorView { phase: Phase::TearingDown { old, new }, ..m }));
    assert(phase_after(m.phase, o4) == (Phase::Bootstrapping { old, new }));
    assert(known_after(m, o4) == (MigratorView { phase: Phase::Bootstrapping { old, new }, ..m }));
    assert(phase_after(m.phase, o5) == Phase::Aborting);
    assert(known_after(m, o5) == (MigratorView { phase: Phase::Aborting, ..m }));
    assert(actions_after(m.phase, o3) == actions_after(m.phase, o2).push(Action::TearDown));
    assert(actions_after(m.phase, o4) == actions_after(m.phase, o3).push(Action::Bootstrap));
    assert(actions_after(m.phase, o5) == actions_after(m.phase, o4).push(
        Action::AbortFork { old, new },
    ));
    assert(actions_after(m.phase, o6) == actions_after(m.phase, o5).push(Action::Stopped));
    assert(actions_after(m.phase, o6) =~= seq![
        Action::Fork { old },
        Action::SetVirtual { new },
        Action::TearDown,
        Action::Bootstrap,
        Action::AbortFork { old, new },
        Action::Stopped,
    ]);
}

/// A move is given up for no other reason: `Stopped` answers a failure to tell the identities, a
/// fork that gave no identity, or the undoing of a fork whose stack did not start.
pub proof fn a_move_is_given_up_for_nothing_else(old: IdentityId, outcomes: Seq<Outcome>, i: int)
    requires
        0 <= i < outcomes.len(),
    ensures
        ({
            let actions = actions_after(Phase::Preparing { old }, outcomes);
            let asked = if i == 0 {
                Action::PrepareMigration { old }
            } else {
                actions[i - 1]
            };
            &&& actions.len() == outcomes.len()
            &&& actions[i] is Stopped ==> (asked is PrepareMigration && outcomes[i] is Failed) || (
            asked is Fork && !(outcomes[i] is Forked)) || asked is AbortFork
            &&& actions[i] is AbortFork ==> asked is Bootstrap && outcomes[i] is Failed
            &&& actions[i] is Rest ==> asked is Stopped || asked is Finished || asked is Rest
            &&& asked is PollBootstrap && !(outcomes[i] is NotYet) ==> actions[i] is Realize
            &&& asked is PollBootstrap && outcomes[i] is NotYet ==> actions[i] is Pause
        }),
{
    earlier_actions_stay(Phase::Preparing { old }, outcomes, i);
    if i > 0 {
        earlier_actions_stay(Phase::Preparing { old }, outcomes, i - 1);
        assert(outcomes.take(i).drop_last() =~= outcomes.take(i - 1));
        assert(outcomes.take(i).last() == outcomes[i - 1]);
    } else {
        assert(outcomes.take(0) =~= Seq::empty());
    }
}

/// A place is an address of a topology exactly if it names one position for each level, below the
/// size there; a proposed move is taken up exactly if the place it leads to is one, this identity
/// may move, none is under way, it is not there yet, and it is not the whole network that moves.
pub proof fn a_move_is_taken_up_where_it_leads_somewhere(
    m: MigratorView,
    current_network: i64,
    guest: int,
    entry: Seq<u32>,
    network_id: i64,
)
    requires
        0 <= guest,
        m.current.len() == m.gsizes.len(),
    ensures
        ({
            let lands = guest <= m.current.len() && guest + entry.len() == m.gsizes.len() && (
            forall|l: int| 0 <= l < guest ==> #[trigger] m.current[l] < m.gsizes[l]) && (
            forall|l: int| 0 <= l < entry.len() ==> #[trigger] entry[l] < m.gsizes[guest + l]);
            let stays = (forall|l: int|
                0 <= l < entry.len() ==> #[trigger] entry[l] == m.current[guest + l])
                && network_id == current_network;
            admission(m, current_network, guest, entry, network_id) == if !lands {
                Admission::NotAnAddress
            } else if !m.negotiated {
                Admission::Fixed
            } else if m.phase != Phase::Idle {
                Admission::Busy
            } else if stays {
                Admission::Stale
            } else if guest == m.gsizes.len() {
                Admission::WholeNetwork
            } else {
                Admission::Admitted
            }
        }),
{
    let target = combined(m.current, guest, entry);
    if guest <= m.current.len() {
        assert forall|l: int| 0 <= l < guest implies #[trigger] target[l] == m.current[l] by {}
        assert forall|l: int| 0 <= l < entry.len() implies #[trigger] entry[l] == target[guest
            + l] by {}
        assert(target.len() == guest + entry.len());
        if is_address(m.gsizes, target) {
            assert forall|l: int| 0 <= l < guest implies #[trigger] m.current[l]
                < m.gsizes[l] by {
                assert(target[l] < m.gsizes[0 + l]);
            }
            assert forall|l: int| 0 <= l < entry.len() implies #[trigger] entry[l]
                < m.gsizes[guest + l] by {
                assert(target[guest + l] < m.gsizes[0 + (guest + l)]);
            }
            if forall|l: int|
                0 <= l < entry.len() ==> #[trigger] entry[l] == m.current[guest + l] {
                assert forall|k: int| 0 <= k < target.len() implies target[k]
                    == m.current[k] by {
                    if k >= guest {
                        assert(entry[k - guest] == m.current[guest + (k - guest)]);
                    }
                }
                assert(target =~= m.current);
            }
            if target == m.current {
                assert forall|l: int| 0 <= l < entry.len() implies #[trigger] entry[l]
                    == m.current[guest + l] by {
                    assert(target[guest + l] == entry[l]);
                }
            }
        } else if target.len() == m.gsizes.len() {
            let k = choose|k: int|
                0 <= k < target.len() && !(#[trigger] target[k] < m.gsizes[0 + k]);
            if k < guest {
                assert(m.current[k] == target[k]);
            } else {
                assert(entry[k - guest] == target[k]);
            }
        }
    }
}

/// How many outcomes a move still needs at most, while the new stack does not ask for time.
pub open spec fn steps_left(phase: Phase) -> int {
    match phase {
        Phase::Idle => 0,
        Phase::Preparing { .. } => 10,
        Phase::Forking { .. } => 9,
        Phase::Veiling { .. } => 8,
        Phase::TearingDown { .. } => 7,
        Phase::Bootstrapping { .. } => 6,
        Phase::Aborting => 1,
        Phase::Attaching { .. } => 5,
        Phase::Waiting { .. } => 4,
        Phase::Pausing { .. } => 5,
        Phase::Realizing { .. } => 3,
        Phase::Naming { .. } => 2,
        Phase::Retiring { .. } => 1,
    }
}

/// A move does not hang: every outcome but the new stack's asking for time brings it closer to its
/// end, at which another move can be taken up.
pub proof fn a_move_comes_to_an_end(phase: Phase, outcome: Outcome)
    requires
        phase != Phase::Idle,
        !(outcome is NotYet),
    ensures
        0 <= steps_left(next_step(phase, outcome).0) < steps_left(phase),
        steps_left(phase) > 0,
{
}

/// What hooking tells.
#[derive(Debug, PartialEq, Eq)]
pub enum HookingEvent {
    /// An arc fails.
    FailingArc,
    /// A neighbour is of the same network.
    SameNetwork,
    /// A neighbour is of another network.
    AnotherNetwork,
    /// An entry is being prepared.
    DoPrepareEnter,
    /// An entry is settled: the g-node at this level moves to these positions of that network.
    DoFinishEnter {
        /// The level of the g-node.
        guest_gnode_level: usize,
        /// The positions from that level on.
        pos: Vec<u32>,
        /// The network.
        network_id: i64,
    },
    /// A migration is being prepared.
    DoPrepareMigration {
        /// Its number.
        migration_id: i32,
    },
    /// A migration is settled.
    DoFinishMigration,
}

/// What to do about what hooking tells.
#[derive(Debug, Clone, Copy, PartialEq, Eq, Structural)]
pub enum HookingReaction {
    /// Nothing.
    Ignore,
    /// Tell the identities that this one is about to move, under this number.
    PrepareMigration {
        /// The number.
        migration_id: i32,
        /// The identity.
        identity: IdentityId,
    },
    /// A proposal to move was judged; where it is taken up, the move begins.
    Enter(Admission),
}

/// What to do about what hooking tells.
pub fn on_hooking_event(
    migrator: &mut Migrator,
    net: &mut NetworkInfo,
    event: &HookingEvent,
    main_id: IdentityId,
) -> (r: HookingReaction)
    ensures
        match *event {
            HookingEvent::DoFinishEnter { guest_gnode_level, pos, network_id } => {
                let admitted = admission(
                    old(migrator)@,
                    old(net)@.network_id,
                    guest_gnode_level as int,
                    pos@,
                    network_id,
                );
                &&& r == HookingReaction::Enter(admitted)
                &&& admitted is Admitted ==> final(migrator)@ == (MigratorView {
                    target: combined(old(migrator)@.current, guest_gnode_level as int, pos@),
                    guest_gnode_level: guest_gnode_level as int,
                    phase: Phase::Preparing { old: main_id },
                    ..old(migrator)@
                }) && final(net)@ == (NetworkView { network_id, ..old(net)@ })
                &&& !(admitted is Admitted) ==> final(migrator)@ == old(migrator)@ && final(net)@
                    == old(net)@
            },
            HookingEvent::DoPrepareMigration { migration_id } => r
                == (HookingReaction::PrepareMigration { migration_id, identity: main_id })
                && final(migrator)@ == old(migrator)@ && final(net)@ == old(net)@,
            _ => r is Ignore && final(migrator)@ == old(migrator)@ && final(net)@ == old(net)@,
        },
{
    match event {
        HookingEvent::DoFinishEnter { guest_gnode_level, pos, network_id } =>
            HookingReaction::Enter(
                migrator.finish_enter(net, *guest_gnode_level, pos, *network_id, main_id),
            ),
        HookingEvent::DoPrepareMigration { migration_id } => HookingReaction::PrepareMigration {
            migration_id: *migration_id,
            identity: main_id,
        },
        _ => HookingReaction::Ignore,
    }
}

} // verus!
