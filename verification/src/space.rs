//! The hierarchical address space: topologies, node addresses and g-node coordinates.
use vstd::prelude::*;
use vstd::string::*;
use crate::sorted_map::Key;
use crate::text::{decimal, decimal_text};

verus! {

/// The coordinate of a g-node: its level and its position inside the g-node one level up.
#[derive(Debug, Clone, Copy, PartialEq, Eq, Structural)]
pub struct HCoord {
    /// The level, counted from the leaves.
    pub level: usize,
    /// The position at that level.
    pub pos: u32,
}

impl HCoord {
    /// The coordinate `(level, pos)`.
    pub fn new(level: usize, pos: u32) -> (r: HCoord)
        ensures
            r == (HCoord { level, pos }),
    {
        HCoord { level, pos }
    }
}

impl Key for HCoord {
    open spec fn rank(self) -> int {
        self.level as int * 0x1_0000_0000 + self.pos as int
    }

    proof fn rank_is_injective(a: Self, b: Self) {
    }

    fn before(&self, other: &Self) -> (r: bool) {
        self.level < other.level || (self.level == other.level && self.pos < other.pos)
    }
}

/// What a path costs.
#[derive(Debug, Clone, Copy, PartialEq, Eq, Structural)]
pub enum Cost {
    /// A path that costs nothing.
    Null,
    /// A path of the given magnitude.
    Finite(u64),
    /// A path that leads nowhere.
    Dead,
}


/// Why a list of g-node sizes is no topology.
#[derive(Debug, Clone, Copy, PartialEq, Eq, Structural)]
pub enum TopologyError {
    /// No level at all.
    Empty,
    /// A g-node size of zero; the lowest such level.
    ZeroGsize {
        /// That level.
        level: usize,
    },
}

/// Why a list of positions is no address in a topology.
#[derive(Debug, Clone, Copy, PartialEq, Eq, Structural)]
pub enum PositionError {
    /// The number of positions does not fit the number of levels.
    WrongLength {
        /// The topology's levels.
        levels: usize,
        /// The positions given.
        given: usize,
    },
    /// A position outside its level's g-node; the lowest such level.
    OutOfRange {
        /// That level.
        level: usize,
        /// The position there.
        pos: u32,
        /// The g-node size there.
        gsize: u32,
    },
}

impl PositionError {
    /// The message for an operator.
    pub open spec fn printed(self) -> Seq<char> {
        match self {
            PositionError::WrongLength { levels, given } => decimal(given as nat)
                + " positions given for a "@ + decimal(levels as nat) + "-level topology"@,
            PositionError::OutOfRange { level, pos, gsize } => "position "@ + decimal(pos as nat)
                + " at level "@ + decimal(level as nat) + " is out of range: g-node size is "@
                + decimal(gsize as nat),
        }
    }

    /// The message for an operator.
    pub fn message(&self) -> (r: String)
        ensures
            r@ == self.printed(),
    {
        match self {
            PositionError::WrongLength { levels, given } => {
                let mut r = decimal_text(*given as u64);
                r.append(" positions given for a ");
                r.append(decimal_text(*levels as u64).as_str());
                r.append("-level topology");
                r
            },
            PositionError::OutOfRange { level, pos, gsize } => {
                let mut r = String::from_str("position ");
                r.append(decimal_text(*pos as u64).as_str());
                r.append(" at level ");
                r.append(decimal_text(*level as u64).as_str());
                r.append(" is out of range: g-node size is ");
                r.append(decimal_text(*gsize as u64).as_str());
                r
            },
        }
    }
}

/// The error says why the positions are no address: that there are too many or too few of them, or
/// else which is the lowest that is out of range.
pub open spec fn tells_why(gsizes: Seq<u32>, positions: Seq<u32>, error: PositionError) -> bool {
    if positions.len() != gsizes.len() {
        error == (PositionError::WrongLength {
            levels: gsizes.len() as usize,
            given: positions.len() as usize,
        })
    } else {
        error is OutOfRange && ({
            let level = error->level as int;
            &&& level < positions.len()
            &&& positions[level] >= gsizes[level]
            &&& error->pos == positions[level]
            &&& error->gsize == gsizes[level]
            &&& forall|l: int| 0 <= l < level ==> #[trigger] positions[l] < gsizes[l]
        })
    }
}

/// There is one reason why positions are no address, and none where they are one: their number where
/// that is wrong, and else the lowest that is out of range.
pub proof fn there_is_one_reason(
    gsizes: Seq<u32>,
    positions: Seq<u32>,
    error: PositionError,
    level: int,
)
    requires
        positions.len() <= usize::MAX,
        gsizes.len() <= usize::MAX,
    ensures
        positions.len() != gsizes.len() ==> (tells_why(gsizes, positions, error) <==> error == (
        PositionError::WrongLength {
            levels: gsizes.len() as usize,
            given: positions.len() as usize,
        })),
        positions.len() == gsizes.len() && (forall|l: int|
            0 <= l < positions.len() ==> #[trigger] positions[l] < gsizes[l]) ==> !tells_why(
            gsizes,
            positions,
            error,
        ),
        positions.len() == gsizes.len() && 0 <= level < positions.len() && positions[level]
            >= gsizes[level] && (forall|l: int|
            0 <= l < level ==> #[trigger] positions[l] < gsizes[l]) ==> (tells_why(
            gsizes,
            positions,
            error,
        ) <==> error == (PositionError::OutOfRange {
            level: level as usize,
            pos: positions[level],
            gsize: gsizes[level],
        })),
{
    if positions.len() == gsizes.len() && tells_why(gsizes, positions, error) {
        let told = error->level as int;
        assert(positions[told] >= gsizes[told]);
        if 0 <= level < positions.len() && positions[level] >= gsizes[level] {
            if level < told {
                assert(positions[level] < gsizes[level]);
            }
        }
    }
}

/// Sizes that make a topology: at least one level, and no empty g-node.
pub open spec fn valid_gsizes(gsizes: Seq<u32>) -> bool {
    &&& gsizes.len() > 0
    &&& forall|l: int| 0 <= l < gsizes.len() ==> #[trigger] gsizes[l] > 0
}

/// Positions that lie inside their level's g-node, level by level from `first` on.
pub open spec fn in_range(gsizes: Seq<u32>, first: int, positions: Seq<u32>) -> bool {
    forall|i: int|
        0 <= i < positions.len() ==> #[trigger] positions[i] < gsizes[first + i]
}

/// The g-node sizes of a network, leaf level first.
#[derive(Debug, PartialEq, Eq)]
pub struct Topology {
    gsizes: Vec<u32>,
}

impl Topology {
    #[verifier::type_invariant]
    spec fn is_valid(self) -> bool {
        valid_gsizes(self.gsizes@)
    }

    /// The g-node sizes, leaf level first.
    pub closed spec fn view(&self) -> Seq<u32> {
        self.gsizes@
    }

    /// The topology with these g-node sizes.
    pub fn new(gsizes: Vec<u32>) -> (r: Result<Topology, TopologyError>)
        ensures
            r is Ok <==> valid_gsizes(gsizes@),
            r is Ok ==> r->Ok_0@ == gsizes@,
            r is Err && gsizes@.len() == 0 ==> r->Err_0 == TopologyError::Empty,
            r is Err && gsizes@.len() > 0 ==> r->Err_0 is ZeroGsize && ({
                let level = r->Err_0->level as int;
                &&& level < gsizes@.len()
                &&& gsizes@[level] == 0
                &&& forall|l: int| 0 <= l < level ==> #[trigger] gsizes@[l] > 0
            }),
    {
        if gsizes.len() == 0 {
            return Err(TopologyError::Empty);
        }
        let mut level: usize = 0;
        while level < gsizes.len()
            invariant
                level <= gsizes@.len(),
                forall|l: int| 0 <= l < level ==> #[trigger] gsizes@[l] > 0,
            decreases gsizes@.len() - level,
        {
            if gsizes[level] == 0 {
                return Err(TopologyError::ZeroGsize { level });
            }
            level += 1;
        }
        Ok(Topology { gsizes })
    }

    /// How many levels there are.
    pub fn levels(&self) -> (r: usize)
        ensures
            r == self@.len(),
            valid_gsizes(self@),
    {
        proof {
            use_type_invariant(self);
        }
        self.gsizes.len()
    }

    /// The g-node sizes, leaf level first.
    pub fn gsizes(&self) -> (r: &Vec<u32>)
        ensures
            r@ == self@,
            valid_gsizes(self@),
    {
        proof {
            use_type_invariant(self);
        }
        &self.gsizes
    }

    /// The g-node size at `level`, where there is such a level.
    pub fn gsize(&self, level: usize) -> (r: Option<u32>)
        ensures
            r == (if level < self@.len() { Some(self@[level as int]) } else { None }),
            r is Some ==> r->Some_0 > 0,
            valid_gsizes(self@),
    {
        proof {
            use_type_invariant(self);
        }
        if level < self.gsizes.len() {
            Some(self.gsizes[level])
        } else {
            None
        }
    }

    /// Whether both have the same levels and sizes.
    pub fn same(&self, other: &Topology) -> (r: bool)
        ensures
            r == (self@ == other@),
    {
        same_numbers(&self.gsizes, &other.gsizes)
    }
}

impl Clone for Topology {
    fn clone(&self) -> (r: Self)
        ensures
            r@ == self@,
    {
        proof {
            use_type_invariant(self);
        }
        Topology { gsizes: copy_numbers(&self.gsizes) }
    }
}

/// Whether two lists hold the same numbers in the same order.
pub fn same_numbers(a: &Vec<u32>, b: &Vec<u32>) -> (r: bool)
    ensures
        r == (a@ == b@),
{
    if a.len() != b.len() {
        return false;
    }
    let mut i: usize = 0;
    while i < a.len()
        invariant
            i <= a@.len(),
            a@.len() == b@.len(),
            forall|j: int| 0 <= j < i ==> a@[j] == b@[j],
        decreases a@.len() - i,
    {
        if a[i] != b[i] {
            return false;
        }
        i += 1;
    }
    assert(a@ =~= b@);
    true
}

/// The same numbers once more.
pub fn copy_numbers(a: &Vec<u32>) -> (r: Vec<u32>)
    ensures
        r@ == a@,
{
    let mut r: Vec<u32> = Vec::new();
    let mut i: usize = 0;
    while i < a.len()
        invariant
            i <= a@.len(),
            r@ == a@.take(i as int),
        decreases a@.len() - i,
    {
        r.push(a[i]);
        assert(a@.take(i + 1) =~= a@.take(i as int).push(a@[i as int]));
        i += 1;
    }
    assert(a@.take(a@.len() as int) =~= a@);
    r
}

/// The lowest index at which a position is outside its g-node, if there is one.
fn first_out_of_range(gsizes: &Vec<u32>, first: usize, positions: &Vec<u32>) -> (r: Option<usize>)
    requires
        first + positions@.len() <= gsizes@.len(),
    ensures
        r is None <==> in_range(gsizes@, first as int, positions@),
        r is Some ==> ({
            let i = r->Some_0 as int;
            &&& i < positions@.len()
            &&& positions@[i] >= gsizes@[first + i]
            &&& forall|j: int| 0 <= j < i ==> #[trigger] positions@[j] < gsizes@[first + j]
        }),
{
    let levels: usize = gsizes.len();
    let mut i: usize = 0;
    while i < positions.len()
        invariant
            i <= positions@.len(),
            levels == gsizes@.len(),
            first + positions@.len() <= levels,
            forall|j: int| 0 <= j < i ==> #[trigger] positions@[j] < gsizes@[first + j],
        decreases positions@.len() - i,
    {
        if positions[i] >= gsizes[first + i] {
            return Some(i);
        }
        i += 1;
    }
    None
}

/// A node's address: one position per level, leaf level first. A position at or above its level's
/// g-node size is virtual: it stands for a place not yet settled.
#[derive(Debug, PartialEq, Eq)]
pub struct Naddr {
    topology: Topology,
    positions: Vec<u32>,
}

impl Naddr {
    #[verifier::type_invariant]
    spec fn is_valid(self) -> bool {
        &&& valid_gsizes(self.topology@)
        &&& self.positions@.len() == self.topology@.len()
    }

    /// The g-node sizes of the topology, leaf level first.
    pub closed spec fn gsizes(&self) -> Seq<u32> {
        self.topology@
    }

    /// The positions, leaf level first.
    pub closed spec fn view(&self) -> Seq<u32> {
        self.positions@
    }

    /// Some position lies outside its g-node.
    pub open spec fn virtual_somewhere(&self) -> bool {
        !in_range(self.gsizes(), 0, self@)
    }

    /// The address with these positions, each of which must lie inside its g-node.
    pub fn new(topology: Topology, positions: Vec<u32>) -> (r: Result<Naddr, PositionError>)
        ensures
            r is Ok <==> positions@.len() == topology@.len() && in_range(
                topology@,
                0,
                positions@,
            ),
            r is Ok ==> r->Ok_0@ == positions@ && r->Ok_0.gsizes() == topology@,
            r is Err ==> tells_why(topology@, positions@, r->Err_0),
    {
        let levels: usize = topology.levels();
        if positions.len() != levels {
            return Err(PositionError::WrongLength { levels, given: positions.len() });
        }
        match first_out_of_range(topology.gsizes(), 0, &positions) {
            Some(level) => Err(
                PositionError::OutOfRange {
                    level,
                    pos: positions[level],
                    gsize: topology.gsizes()[level],
                },
            ),
            None => Ok(Naddr { topology, positions }),
        }
    }

    /// The address with these positions, virtual ones allowed.
    pub fn new_allowing_virtual(topology: Topology, positions: Vec<u32>) -> (r: Result<
        Naddr,
        PositionError,
    >)
        ensures
            r is Ok <==> positions@.len() == topology@.len(),
            r is Ok ==> r->Ok_0@ == positions@ && r->Ok_0.gsizes() == topology@,
            r is Err ==> r->Err_0 == (PositionError::WrongLength {
                levels: topology@.len() as usize,
                given: positions@.len() as usize,
            }),
    {
        let levels: usize = topology.levels();
        if positions.len() != levels {
            return Err(PositionError::WrongLength { levels, given: positions.len() });
        }
        Ok(Naddr { topology, positions })
    }

    /// The topology this address belongs to.
    pub fn topology(&self) -> (r: &Topology)
        ensures
            r@ == self.gsizes(),
            valid_gsizes(r@),
            self@.len() == r@.len(),
    {
        proof {
            use_type_invariant(self);
        }
        &self.topology
    }

    /// The positions, leaf level first.
    pub fn positions(&self) -> (r: &Vec<u32>)
        ensures
            r@ == self@,
            r@.len() == self.gsizes().len(),
            valid_gsizes(self.gsizes()),
    {
        proof {
            use_type_invariant(self);
        }
        &self.positions
    }

    /// The position at `level`, where there is such a level.
    pub fn pos(&self, level: usize) -> (r: Option<u32>)
        ensures
            r == (if level < self@.len() { Some(self@[level as int]) } else { None }),
            self@.len() == self.gsizes().len(),
    {
        proof {
            use_type_invariant(self);
        }
        if level < self.positions.len() {
            Some(self.positions[level])
        } else {
            None
        }
    }

    /// Whether some position lies outside its g-node.
    pub fn is_virtual(&self) -> (r: bool)
        ensures
            r == self.virtual_somewhere(),
    {
        proof {
            use_type_invariant(self);
        }
        let topology = &self.topology;
        first_out_of_range(topology.gsizes(), 0, &self.positions).is_some()
    }

    /// Whether this node lies inside the g-node that `hc` names, seen from here.
    pub fn is_inside(&self, hc: HCoord) -> (r: bool)
        ensures
            r == (hc.level < self@.len() && self@[hc.level as int] == hc.pos),
    {
        hc.level < self.positions.len() && self.positions[hc.level] == hc.pos
    }

    /// The coordinate of `target` seen from here: the highest level at which the two differ, and
    /// the target's position there. `None` where they do not differ, or where the topologies do.
    pub fn hcoord(&self, target: &Naddr) -> (r: Option<HCoord>)
        ensures
            r is Some <==> self.gsizes() == target.gsizes() && self@ != target@,
            r is Some ==> ({
                let level = r->Some_0.level as int;
                &&& level < self@.len()
                &&& self@.len() == target@.len()
                &&& self@[level] != target@[level]
                &&& r->Some_0.pos == target@[level]
                &&& forall|l: int| level < l < self@.len() ==> #[trigger] self@[l] == target@[l]
            }),
    {
        proof {
            use_type_invariant(self);
            use_type_invariant(target);
        }
        if !self.topology.same(&target.topology) {
            return None;
        }
        let mut level: usize = self.positions.len();
        while level > 0
            invariant
                level <= self.positions@.len(),
                self.positions@.len() == target.positions@.len(),
                self.topology@ == target.topology@,
                forall|l: int|
                    level <= l < self@.len() ==> #[trigger] self.positions@[l]
                        == target.positions@[l],
            decreases level,
        {
            level -= 1;
            if self.positions[level] != target.positions[level] {
                return Some(HCoord { level, pos: target.positions[level] });
            }
        }
        assert(self.positions@ =~= target.positions@);
        None
    }

    /// Whether both are the same address in the same topology.
    pub fn same(&self, other: &Naddr) -> (r: bool)
        ensures
            r == (self@ == other@ && self.gsizes() == other.gsizes()),
    {
        self.topology.same(&other.topology) && same_numbers(&self.positions, &other.positions)
    }
}

impl Clone for Naddr {
    fn clone(&self) -> (r: Self)
        ensures
            r@ == self@,
            r.gsizes() == self.gsizes(),
    {
        proof {
            use_type_invariant(self);
        }
        Naddr { topology: self.topology.clone(), positions: copy_numbers(&self.positions) }
    }
}

/// The lower part of an address: positions for levels `0..top()` of some topology.
#[derive(Debug, PartialEq, Eq)]
pub struct TupleNode {
    positions: Vec<u32>,
}

impl TupleNode {
    /// The positions, leaf level first.
    pub closed spec fn view(&self) -> Seq<u32> {
        self.positions@
    }

    /// The tuple of these positions, which must fit `topology` from the leaf level up.
    pub fn new(topology: Topology, positions: Vec<u32>) -> (r: Result<TupleNode, PositionError>)
        ensures
            r is Ok <==> positions@.len() <= topology@.len() && in_range(
                topology@,
                0,
                positions@,
            ),
            r is Ok ==> r->Ok_0@ == positions@,
            r is Err && positions@.len() > topology@.len() ==> r->Err_0
                == (PositionError::WrongLength {
                levels: topology@.len() as usize,
                given: positions@.len() as usize,
            }),
            r is Err && positions@.len() <= topology@.len() ==> r->Err_0 is OutOfRange && ({
                let level = r->Err_0->level as int;
                &&& level < positions@.len()
                &&& positions@[level] >= topology@[level]
                &&& r->Err_0->pos == positions@[level]
                &&& r->Err_0->gsize == topology@[level]
                &&& forall|l: int| 0 <= l < level ==> #[trigger] positions@[l] < topology@[l]
            }),
    {
        let levels: usize = topology.levels();
        if positions.len() > levels {
            return Err(PositionError::WrongLength { levels, given: positions.len() });
        }
        match first_out_of_range(topology.gsizes(), 0, &positions) {
            Some(level) => Err(
                PositionError::OutOfRange {
                    level,
                    pos: positions[level],
                    gsize: topology.gsizes()[level],
                },
            ),
            None => Ok(TupleNode { positions }),
        }
    }

    /// How many levels the tuple names.
    pub fn top(&self) -> (r: usize)
        ensures
            r == self@.len(),
    {
        self.positions.len()
    }

    /// The positions, leaf level first.
    pub fn positions(&self) -> (r: &Vec<u32>)
        ensures
            r@ == self@,
    {
        &self.positions
    }
}

} // verus!
