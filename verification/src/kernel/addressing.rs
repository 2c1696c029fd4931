//! Hierarchical addresses as addresses of `10.0.0.0/8`: the first octet is ten, two kind bits are
//! zero, and below them stand the positions, outermost level first, each in as many bits as its
//! g-node needs.
use vstd::prelude::*;
use vstd::arithmetic::power2::*;
use vstd::bits::*;
use vstd::string::*;
use crate::net::{Ipv4Addr, Ipv4Net};
use crate::space::{in_range, valid_gsizes, HCoord, Naddr};
use crate::text::{decimal, decimal_text};

verus! {

/// Why an address cannot be written into `10.0.0.0/8`.
#[derive(Debug, Clone, Copy, PartialEq, Eq, Structural)]
pub enum AddressingError {
    /// The coordinate's level is none of the topology's.
    LevelOutOfRange {
        /// The coordinate's level.
        level: usize,
        /// The topology's levels.
        levels: usize,
    },
    /// The positions and the two kind bits do not fit in 24 bits.
    TopologyTooWide {
        /// The bits that the positions need (at most `u32::MAX` is reported).
        needed: u32,
    },
    /// A position is not below its level's g-node size, so it does not fit its bits.
    PositionOutOfRange {
        /// The level; the outermost where there are several.
        level: usize,
        /// The position.
        pos: u32,
        /// The g-node size.
        gsize: u32,
    },
}

impl AddressingError {
    /// The message for an operator.
    pub open spec fn printed(&self) -> Seq<char> {
        match *self {
            AddressingError::LevelOutOfRange { level, levels } => "level "@ + decimal(level as nat)
                + " is out of range for a "@ + decimal(levels as nat) + "-level topology"@,
            AddressingError::TopologyTooWide { needed } => "topology needs "@ + decimal(
                needed as nat,
            ) + " address bits (+2 kind bits), only 24 are available in 10.0.0.0/8"@,
            AddressingError::PositionOutOfRange { level, pos, gsize } => "position "@ + decimal(
                pos as nat,
            ) + " at level "@ + decimal(level as nat) + " is out of range: g-node size is "@
                + decimal(gsize as nat),
        }
    }

    /// The message for an operator.
    pub fn message(&self) -> (r: String)
        ensures
            r@ == self.printed(),
    {
        match self {
            AddressingError::LevelOutOfRange { level, levels } => {
                let mut r = String::from_str("level ");
                r.append(decimal_text(*level as u64).as_str());
                r.append(" is out of range for a ");
                r.append(decimal_text(*levels as u64).as_str());
                r.append("-level topology");
                r
            },
            AddressingError::TopologyTooWide { needed } => {
                let mut r = String::from_str("topology needs ");
                r.append(decimal_text(*needed as u64).as_str());
                r.append(" address bits (+2 kind bits), only 24 are available in 10.0.0.0/8");
                r
            },
            AddressingError::PositionOutOfRange { level, pos, gsize } => {
                let mut r = String::from_str("position ");
                r.append(decimal_text(*pos as u64).as_str());
                r.append(" at level ");
                r.append(decimal_text(*level as u64).as_str());
                r.append(" is out of range: g-node size is ");
                r.append(decimal_text(*gsize as u64).as_str());
                r
            },
        }
    }
}

/// How many binary digits `n` has; zero has none.
pub open spec fn binary_digits(n: nat) -> nat
    decreases n,
{
    if n == 0 {
        0
    } else {
        1 + binary_digits(n / 2)
    }
}

/// The bits that tell the positions `0..gsize` apart.
pub open spec fn position_bits(gsize: u32) -> nat {
    if gsize == 0 {
        0
    } else {
        binary_digits((gsize - 1) as nat)
    }
}

/// The bits that all the positions of a topology need.
pub open spec fn address_bits(gsizes: Seq<u32>) -> nat
    decreases gsizes.len(),
{
    if gsizes.len() == 0 {
        0
    } else {
        position_bits(gsizes[0]) + address_bits(gsizes.drop_first())
    }
}

/// The positions side by side as one number, leaf level lowest.
pub open spec fn packed(gsizes: Seq<u32>, positions: Seq<u32>) -> nat
    decreases gsizes.len(),
{
    if gsizes.len() == 0 {
        0
    } else {
        positions[0] as nat + pow2(position_bits(gsizes[0])) * packed(
            gsizes.drop_first(),
            positions.drop_first(),
        )
    }
}

/// The positions and the kind bits fit beside the first octet.
pub open spec fn fits(gsizes: Seq<u32>) -> bool {
    address_bits(gsizes) + 2 <= 24
}

/// The positions with those below `below` left open.
pub open spec fn opened(positions: Seq<u32>, below: int) -> Seq<u32> {
    Seq::new(
        positions.len(),
        |l: int|
            if l < below {
                0u32
            } else {
                positions[l]
            },
    )
}

/// The outermost of the levels `below..levels` whose position does not lie inside its g-node;
/// `-1` where they all do.
pub open spec fn outermost_misfit(
    gsizes: Seq<u32>,
    positions: Seq<u32>,
    below: int,
    levels: int,
) -> int
    decreases levels,
{
    if levels <= below || levels <= 0 {
        -1
    } else if positions[levels - 1] >= gsizes[levels - 1] {
        levels - 1
    } else {
        outermost_misfit(gsizes, positions, below, levels - 1)
    }
}

/// The network that holds every address with these positions from level `below` on.
pub open spec fn packing(gsizes: Seq<u32>, below: int, positions: Seq<u32>) -> Result<
    Ipv4Net,
    AddressingError,
> {
    let misfit = outermost_misfit(gsizes, positions, below, gsizes.len() as int);
    if !fits(gsizes) {
        Err(
            AddressingError::TopologyTooWide {
                needed: if address_bits(gsizes) > u32::MAX {
                    u32::MAX
                } else {
                    address_bits(gsizes) as u32
                },
            },
        )
    } else if misfit >= 0 {
        Err(
            AddressingError::PositionOutOfRange {
                level: misfit as usize,
                pos: positions[misfit],
                gsize: gsizes[misfit],
            },
        )
    } else {
        Ok(
            Ipv4Net {
                address: Ipv4Addr {
                    bits: (10 * pow2(24) + packed(gsizes, opened(positions, below))) as u32,
                },
                prefix_len: (32 - address_bits(gsizes.take(below))) as u8,
            },
        )
    }
}

/// `n` lies below the power of two that its binary digits span, and not below half of it.
pub proof fn binary_digits_are_tight(n: nat)
    ensures
        n < pow2(binary_digits(n)),
        n > 0 ==> pow2((binary_digits(n) - 1) as nat) <= n,
    decreases n,
{
    lemma2_to64();
    if n > 0 {
        binary_digits_are_tight(n / 2);
        lemma_pow2_unfold(binary_digits(n));
        if n / 2 > 0 {
            lemma_pow2_unfold((binary_digits(n) - 1) as nat);
        }
    }
}

/// The bits of a level are the fewest that tell its positions apart.
pub proof fn position_bits_are_fewest(gsize: u32)
    requires
        gsize > 0,
    ensures
        gsize <= pow2(position_bits(gsize)),
        position_bits(gsize) > 0 ==> pow2((position_bits(gsize) - 1) as nat) < gsize,
        position_bits(gsize) <= 32,
{
    let n = (gsize - 1) as nat;
    binary_digits_are_tight(n);
    lemma2_to64();
    if binary_digits(n) > 32 {
        if binary_digits(n) > 33 {
            lemma_pow2_strictly_increases(32, (binary_digits(n) - 1) as nat);
        }
    }
}

/// The bits needed to tell the positions `0..gsize` apart.
pub fn level_bits(gsize: u32) -> (r: u32)
    ensures
        r == position_bits(gsize),
        r <= 32,
{
    proof {
        lemma2_to64();
        if gsize > 0 {
            position_bits_are_fewest(gsize);
        }
    }
    let mut rest: u32 = if gsize == 0 {
        0
    } else {
        gsize - 1
    };
    let mut bits: u32 = 0;
    while rest > 0
        invariant
            bits + binary_digits(rest as nat) == position_bits(gsize),
            position_bits(gsize) <= 32,
        decreases rest,
    {
        rest = rest / 2;
        bits += 1;
    }
    bits
}

proof fn bits_of_tail(gsizes: Seq<u32>, l: int)
    requires
        0 <= l < gsizes.len(),
    ensures
        address_bits(gsizes.skip(l)) == position_bits(gsizes[l]) + address_bits(gsizes.skip(l + 1)),
{
    assert(gsizes.skip(l).drop_first() =~= gsizes.skip(l + 1));
}

proof fn bits_of_range(gsizes: Seq<u32>, l: int, below: int)
    requires
        0 <= l < below <= gsizes.len(),
    ensures
        address_bits(gsizes.subrange(l, below)) == position_bits(gsizes[l]) + address_bits(
            gsizes.subrange(l + 1, below),
        ),
{
    assert(gsizes.subrange(l, below).drop_first() =~= gsizes.subrange(l + 1, below));
}

/// The bits of a topology are those of its lower and those of its upper levels.
pub proof fn address_bits_split(gsizes: Seq<u32>, below: int)
    requires
        0 <= below <= gsizes.len(),
    ensures
        address_bits(gsizes) == address_bits(gsizes.take(below)) + address_bits(gsizes.skip(below)),
    decreases below,
{
    if below == 0 {
        assert(gsizes.take(0) =~= Seq::empty());
        assert(gsizes.skip(0) =~= gsizes);
    } else {
        let tail = gsizes.drop_first();
        address_bits_split(tail, below - 1);
        assert(gsizes.take(below).drop_first() =~= tail.take(below - 1));
        assert(gsizes.skip(below) =~= tail.skip(below - 1));
    }
}

/// The bits of a topology, or the error that they are too many.
fn total_bits(gsizes: &Vec<u32>) -> (r: Result<u32, AddressingError>)
    ensures
        r is Ok <==> fits(gsizes@),
        r is Ok ==> r->Ok_0 == address_bits(gsizes@),
        r is Err ==> r->Err_0 == (AddressingError::TopologyTooWide {
            needed: if address_bits(gsizes@) > u32::MAX {
                u32::MAX
            } else {
                address_bits(gsizes@) as u32
            },
        }),
{
    let mut needed: u32 = 0;
    let mut level: usize = gsizes.len();
    assert(gsizes@.skip(level as int) =~= Seq::empty());
    while level > 0
        invariant
            level <= gsizes@.len(),
            needed == if address_bits(gsizes@.skip(level as int)) > u32::MAX {
                u32::MAX as int
            } else {
                address_bits(gsizes@.skip(level as int)) as int
            },
        decreases level,
    {
        level -= 1;
        proof {
            bits_of_tail(gsizes@, level as int);
        }
        needed = needed.saturating_add(level_bits(gsizes[level]));
    }
    assert(gsizes@.skip(0) =~= gsizes@);
    if needed > 22 {
        Err(AddressingError::TopologyTooWide { needed })
    } else {
        Ok(needed)
    }
}

proof fn append_bits(acc: u32, bits: u32, value: u32, spare: nat)
    requires
        bits + spare <= 22,
        acc < pow2((22 - bits - spare) as nat),
        value < pow2(bits as nat),
    ensures
        (acc << bits) | value == acc * pow2(bits as nat) + value,
        acc * pow2(bits as nat) + value < pow2((22 - spare) as nat),
        acc * pow2(bits as nat) + value < 0x40_0000,
{
    lemma2_to64();
    let p = pow2(bits as nat);
    let room = pow2((22 - bits - spare) as nat);
    lemma_pow2_adds((22 - bits - spare) as nat, bits as nat);
    assert(acc * p + value < room * p) by (nonlinear_arith)
        requires
            acc < room,
            value < p,
    ;
    if spare > 0 {
        lemma_pow2_strictly_increases((22 - spare) as nat, 22);
    }
    lemma_u32_shl_is_mul(acc, bits);
    let shifted: u32 = acc << bits;
    assert(bits <= 22);
    assert(1u32 << bits == p) by {
        lemma_u32_shl_is_mul(1u32, bits);
    }
    assert(value < (1u32 << bits));
    assert((acc << bits) | value == (acc << bits) + value) by (bit_vector)
        requires
            bits <= 22,
            value < (1u32 << bits),
    ;
    assert(shifted + value < 0x40_0000);
}

/// Puts one position per level into the low bits of a `10.x.x.x` address, leaving the levels below
/// `below` open.
fn pack(gsizes: &Vec<u32>, below: usize, positions: &Vec<u32>) -> (r: Result<
    Ipv4Net,
    AddressingError,
>)
    requires
        valid_gsizes(gsizes@),
        positions@.len() == gsizes@.len(),
        below <= gsizes@.len(),
    ensures
        r == packing(gsizes@, below as int, positions@),
{
    let needed: u32 = match total_bits(gsizes) {
        Ok(needed) => needed,
        Err(error) => {
            return Err(error);
        },
    };
    let levels: usize = gsizes.len();
    let mut acc: u32 = 0;
    let mut open_bits: u32 = 0;
    let mut level: usize = levels;
    let ghost opens = opened(positions@, below as int);
    proof {
        assert(gsizes@.skip(level as int) =~= Seq::empty());
        assert(opens.skip(level as int) =~= Seq::empty());
        lemma2_to64();
        address_bits_split(gsizes@, below as int);
    }
    while level > 0
        invariant
            level <= levels,
            levels == gsizes@.len(),
            positions@.len() == levels,
            below <= levels,
            valid_gsizes(gsizes@),
            fits(gsizes@),
            opens == opened(positions@, below as int),
            acc == packed(gsizes@.skip(level as int), opens.skip(level as int)),
            acc < pow2(address_bits(gsizes@.skip(level as int))),
            address_bits(gsizes@.skip(level as int)) <= 22,
            level >= below ==> open_bits == 0,
            level < below ==> open_bits == address_bits(
                gsizes@.subrange(level as int, below as int),
            ),
            open_bits <= 22,
            outermost_misfit(gsizes@, positions@, below as int, levels as int)
                == outermost_misfit(gsizes@, positions@, below as int, level as int),
        decreases level,
    {
        level -= 1;
        let gsize: u32 = gsizes[level];
        let bits: u32 = level_bits(gsize);
        let value: u32 = if level < below {
            0
        } else {
            let value: u32 = positions[level];
            if value >= gsize {
                return Err(AddressingError::PositionOutOfRange { level, pos: value, gsize });
            }
            value
        };
        proof {
            let l = level as int;
            position_bits_are_fewest(gsize);
            bits_of_tail(gsizes@, l);
            address_bits_split(gsizes@, l);
            let above = address_bits(gsizes@.skip(l + 1));
            append_bits(acc, bits, value, (22 - bits - above) as nat);
            assert(gsizes@.skip(l).drop_first() =~= gsizes@.skip(l + 1));
            assert(opens.skip(l).drop_first() =~= opens.skip(l + 1));
            assert(opens.skip(l)[0] == value);
            assert(acc * pow2(bits as nat) == pow2(bits as nat) * acc) by (nonlinear_arith);
            if l < below {
                bits_of_range(gsizes@, l, below as int);
                address_bits_split(gsizes@, below as int);
                address_bits_split(gsizes@.take(below as int), l);
                assert(gsizes@.take(below as int).skip(l) =~= gsizes@.subrange(l, below as int));
                if l + 1 == below {
                    assert(gsizes@.subrange(l + 1, below as int) =~= Seq::empty());
                }
            }
        }
        acc = (acc << bits) | value;
        if level < below {
            open_bits = open_bits + bits;
        }
    }
    proof {
        assert(gsizes@.skip(0) =~= gsizes@);
        assert(opens.skip(0) =~= opens);
        lemma2_to64();
        if address_bits(gsizes@) < 22 {
            lemma_pow2_strictly_increases(address_bits(gsizes@), 22);
        }
        assert(gsizes@.subrange(0, below as int) =~= gsizes@.take(below as int));
        if below == 0 {
            assert(gsizes@.take(0) =~= Seq::empty());
        }
    }
    let address = Ipv4Addr { bits: 0xa00_0000 + acc };
    Ok(Ipv4Net { address, prefix_len: (32 - open_bits) as u8 })
}

/// The address of the node `naddr`, as a network of one.
pub fn host_address(naddr: &Naddr) -> (r: Result<Ipv4Net, AddressingError>)
    ensures
        r == packing(naddr.gsizes(), 0, naddr@),
{
    pack(naddr.topology().gsizes(), 0, naddr.positions())
}

/// The network of the g-node `hc`, seen from `positions` in a topology of these sizes.
pub open spec fn destination_of(gsizes: Seq<u32>, positions: Seq<u32>, hc: HCoord) -> Result<
    Ipv4Net,
    AddressingError,
> {
    if hc.level >= gsizes.len() {
        Err(
            AddressingError::LevelOutOfRange { level: hc.level, levels: gsizes.len() as usize },
        )
    } else {
        packing(gsizes, hc.level as int, positions.update(hc.level as int, hc.pos))
    }
}

/// The network of the g-node `hc`, seen from the node `my_naddr`: above the coordinate's level the
/// positions are this node's, at it the coordinate's, and below it they are open.
pub fn gnode_destination(my_naddr: &Naddr, hc: HCoord) -> (r: Result<Ipv4Net, AddressingError>)
    ensures
        r == destination_of(my_naddr.gsizes(), my_naddr@, hc),
{
    let levels: usize = my_naddr.topology().levels();
    if hc.level >= levels {
        return Err(AddressingError::LevelOutOfRange { level: hc.level, levels });
    }
    let mut positions: Vec<u32> = crate::space::copy_numbers(my_naddr.positions());
    positions.set(hc.level, hc.pos);
    pack(my_naddr.topology().gsizes(), hc.level, &positions)
}


proof fn no_misfit(gsizes: Seq<u32>, positions: Seq<u32>, below: int, levels: int)
    requires
        0 <= below,
        levels <= gsizes.len(),
        positions.len() == gsizes.len(),
    ensures
        outermost_misfit(gsizes, positions, below, levels) < 0 <==> forall|l: int|
            below <= l < levels ==> #[trigger] positions[l] < gsizes[l],
        outermost_misfit(gsizes, positions, below, levels) < levels || levels < 0,
        outermost_misfit(gsizes, positions, below, levels) >= 0 ==> ({
            let l = outermost_misfit(gsizes, positions, below, levels);
            below <= l && positions[l] >= gsizes[l]
        }),
    decreases levels,
{
    if levels > below && levels > 0 {
        no_misfit(gsizes, positions, below, levels - 1);
    }
}

/// Positions inside their g-nodes fill no more than the bits of the topology.
pub proof fn packed_is_bounded(gsizes: Seq<u32>, positions: Seq<u32>)
    requires
        valid_gsizes(gsizes) || gsizes.len() == 0,
        positions.len() == gsizes.len(),
        in_range(gsizes, 0, positions),
    ensures
        packed(gsizes, positions) < pow2(address_bits(gsizes)),
    decreases gsizes.len(),
{
    lemma2_to64();
    if gsizes.len() > 0 {
        let g = gsizes.drop_first();
        let p = positions.drop_first();
        assert forall|i: int| 0 <= i < p.len() implies #[trigger] p[i] < g[0 + i] by {
            assert(positions[i + 1] < gsizes[0 + (i + 1)]);
        }
        assert(valid_gsizes(g) || g.len() == 0);
        packed_is_bounded(g, p);
        position_bits_are_fewest(gsizes[0]);
        lemma_pow2_adds(position_bits(gsizes[0]), address_bits(g));
        let low = pow2(position_bits(gsizes[0]));
        let high = pow2(address_bits(g));
        let rest = packed(g, p);
        assert(positions[0] < gsizes[0]);
        assert(positions[0] as nat + low * rest < low * high) by (nonlinear_arith)
            requires
                positions[0] < low,
                rest < high,
                low > 0,
        ;
    }
}

/// Shifting the lower levels out leaves the upper ones.
proof fn packed_upper(gsizes: Seq<u32>, positions: Seq<u32>, below: int)
    requires
        valid_gsizes(gsizes) || gsizes.len() == 0,
        positions.len() == gsizes.len(),
        in_range(gsizes, 0, positions),
        0 <= below <= gsizes.len(),
    ensures
        packed(gsizes, positions) / pow2(address_bits(gsizes.take(below))) == packed(
            gsizes.skip(below),
            positions.skip(below),
        ),
    decreases below,
{
    lemma2_to64();
    if below == 0 {
        assert(gsizes.take(0) =~= Seq::empty());
        assert(gsizes.skip(0) =~= gsizes);
        assert(positions.skip(0) =~= positions);
        assert(address_bits(gsizes.take(0)) == 0);
        assert(packed(gsizes, positions) / 1 == packed(gsizes, positions));
    } else {
        let g = gsizes.drop_first();
        let p = positions.drop_first();
        assert forall|i: int| 0 <= i < p.len() implies #[trigger] p[i] < g[0 + i] by {
            assert(positions[i + 1] < gsizes[0 + (i + 1)]);
        }
        assert(valid_gsizes(g) || g.len() == 0);
        packed_upper(g, p, below - 1);
        assert(gsizes.take(below).drop_first() =~= g.take(below - 1));
        assert(gsizes.skip(below) =~= g.skip(below - 1));
        assert(positions.skip(below) =~= p.skip(below - 1));
        position_bits_are_fewest(gsizes[0]);
        let low = pow2(position_bits(gsizes[0]));
        let more = pow2(address_bits(g.take(below - 1)));
        lemma_pow2_adds(position_bits(gsizes[0]), address_bits(g.take(below - 1)));
        lemma_pow2_pos(position_bits(gsizes[0]));
        lemma_pow2_pos(address_bits(g.take(below - 1)));
        assert(positions[0] < gsizes[0]);
        let rest = packed(g, p);
        let all = positions[0] as nat + low * rest;
        assert(all / low == rest) by {
            vstd::arithmetic::div_mod::lemma_fundamental_div_mod_converse(
                all as int,
                low as int,
                rest as int,
                positions[0] as int,
            );
        }
        vstd::arithmetic::div_mod::lemma_div_denominator(all as int, low as int, more as int);
        assert(gsizes.take(below)[0] == gsizes[0]);
        assert(pow2(address_bits(gsizes.take(below))) == low * more);
        assert(packed(gsizes, positions) == all);
        assert((all as int / low as int) / more as int == all as int / (low * more) as int);
        assert(all / (low * more) == rest / more);
    }
}

/// One number holds one list of positions.
pub proof fn packed_tells_apart(gsizes: Seq<u32>, p: Seq<u32>, q: Seq<u32>)
    requires
        valid_gsizes(gsizes) || gsizes.len() == 0,
        p.len() == gsizes.len(),
        q.len() == gsizes.len(),
        in_range(gsizes, 0, p),
        in_range(gsizes, 0, q),
        packed(gsizes, p) == packed(gsizes, q),
    ensures
        p == q,
    decreases gsizes.len(),
{
    if gsizes.len() == 0 {
        assert(p =~= q);
    } else {
        let g = gsizes.drop_first();
        let pp = p.drop_first();
        let qq = q.drop_first();
        assert forall|i: int| 0 <= i < pp.len() implies #[trigger] pp[i] < g[0 + i] by {
            assert(p[i + 1] < gsizes[0 + (i + 1)]);
        }
        assert forall|i: int| 0 <= i < qq.len() implies #[trigger] qq[i] < g[0 + i] by {
            assert(q[i + 1] < gsizes[0 + (i + 1)]);
        }
        assert(valid_gsizes(g) || g.len() == 0);
        position_bits_are_fewest(gsizes[0]);
        let low = pow2(position_bits(gsizes[0])) as int;
        let n = packed(gsizes, p) as int;
        assert(p[0] < gsizes[0] && q[0] < gsizes[0]);
        let a = packed(g, pp) as int;
        let b = packed(g, qq) as int;
        assert(low * a == a * low && low * b == b * low) by (nonlinear_arith);
        vstd::arithmetic::div_mod::lemma_fundamental_div_mod_converse(n, low, a, p[0] as int);
        vstd::arithmetic::div_mod::lemma_fundamental_div_mod_converse(n, low, b, q[0] as int);
        packed_tells_apart(g, pp, qq);
        assert(p =~= seq![p[0]] + pp);
        assert(q =~= seq![q[0]] + qq);
    }
}

/// What a successful packing says in plain terms.
proof fn packing_facts(gsizes: Seq<u32>, below: int, positions: Seq<u32>)
    requires
        valid_gsizes(gsizes),
        positions.len() == gsizes.len(),
        0 <= below <= gsizes.len(),
        packing(gsizes, below, positions) is Ok,
    ensures
        fits(gsizes),
        in_range(gsizes, 0, opened(positions, below)),
        forall|l: int| below <= l < gsizes.len() ==> #[trigger] positions[l] < gsizes[l],
        packed(gsizes, opened(positions, below)) < 0x40_0000,
        packing(gsizes, below, positions)->Ok_0.address.bits == 0xa00_0000 + packed(
            gsizes,
            opened(positions, below),
        ),
        address_bits(gsizes.take(below)) <= 22,
        packing(gsizes, below, positions)->Ok_0.prefix_len == 32 - address_bits(
            gsizes.take(below),
        ),
{
    lemma2_to64();
    no_misfit(gsizes, positions, below, gsizes.len() as int);
    let open = opened(positions, below);
    assert forall|i: int| 0 <= i < open.len() implies #[trigger] open[i] < gsizes[0 + i] by {
        assert(gsizes[i] > 0);
        if i >= below {
            assert(positions[i] < gsizes[i]);
        }
    }
    packed_is_bounded(gsizes, open);
    if address_bits(gsizes) < 22 {
        lemma_pow2_strictly_increases(address_bits(gsizes), 22);
    }
    address_bits_split(gsizes, below);
}

/// There is a network exactly where the topology's positions need no more than 22 bits and every
/// position from the level on lies inside its g-node. Where the topology is too wide, that is told
/// first; else the outermost position that does not lie inside its g-node is.
pub proof fn a_network_needs_room_and_positions(
    gsizes: Seq<u32>,
    below: int,
    positions: Seq<u32>,
    level: int,
)
    requires
        positions.len() == gsizes.len(),
        0 <= below <= gsizes.len(),
        gsizes.len() <= usize::MAX,
    ensures
        packing(gsizes, below, positions) is Ok <==> address_bits(gsizes) <= 22 && forall|l: int|
            below <= l < gsizes.len() ==> #[trigger] positions[l] < gsizes[l],
        address_bits(gsizes) > 22 ==> packing(gsizes, below, positions) is Err && packing(
            gsizes,
            below,
            positions,
        )->Err_0 is TopologyTooWide,
        22 < address_bits(gsizes) <= u32::MAX ==> packing(gsizes, below, positions)->Err_0 == (
        AddressingError::TopologyTooWide { needed: address_bits(gsizes) as u32 }),
        address_bits(gsizes) <= 22 && below <= level < gsizes.len() && positions[level]
            >= gsizes[level] && (forall|l: int|
            level < l < gsizes.len() ==> #[trigger] positions[l] < gsizes[l]) ==> packing(
            gsizes,
            below,
            positions,
        ) == Err::<Ipv4Net, AddressingError>(
            AddressingError::PositionOutOfRange {
                level: level as usize,
                pos: positions[level],
                gsize: gsizes[level],
            },
        ),
{
    no_misfit(gsizes, positions, below, gsizes.len() as int);
    if below <= level < gsizes.len() && positions[level] >= gsizes[level] && (forall|l: int|
        level < l < gsizes.len() ==> #[trigger] positions[l] < gsizes[l]) {
        misfit_is_outermost(gsizes, positions, below, gsizes.len() as int, level);
    }
}

proof fn misfit_is_outermost(
    gsizes: Seq<u32>,
    positions: Seq<u32>,
    below: int,
    levels: int,
    level: int,
)
    requires
        0 <= below <= level < levels <= gsizes.len(),
        positions.len() == gsizes.len(),
        positions[level] >= gsizes[level],
        forall|l: int| level < l < gsizes.len() ==> #[trigger] positions[l] < gsizes[l],
    ensures
        outermost_misfit(gsizes, positions, below, levels) == level,
    decreases levels,
{
    if levels - 1 > level {
        assert(positions[levels - 1] < gsizes[levels - 1]);
        misfit_is_outermost(gsizes, positions, below, levels - 1, level);
    }
}

/// A g-node at a level that the topology does not have has no network, and that is told.
pub proof fn levels_beyond_the_topology_have_no_network(
    gsizes: Seq<u32>,
    positions: Seq<u32>,
    hc: HCoord,
)
    requires
        hc.level >= gsizes.len(),
    ensures
        destination_of(gsizes, positions, hc) == Err::<Ipv4Net, AddressingError>(
            AddressingError::LevelOutOfRange { level: hc.level, levels: gsizes.len() as usize },
        ),
{
}

/// Every address and every g-node network lies in `10.0.0.0/8`, with both kind bits zero and at
/// least ten bits of prefix.
pub proof fn addresses_stay_in_the_space(gsizes: Seq<u32>, below: int, positions: Seq<u32>)
    requires
        valid_gsizes(gsizes),
        positions.len() == gsizes.len(),
        0 <= below <= gsizes.len(),
        packing(gsizes, below, positions) is Ok,
    ensures
        ({
            let net = packing(gsizes, below, positions)->Ok_0;
            &&& net.address.octet(0) == 10
            &&& 0xa00_0000 <= net.address.bits < 0xa40_0000
            &&& 10 <= net.prefix_len <= 32
            &&& (Ipv4Net {
                address: Ipv4Addr { bits: 0xa00_0000 },
                prefix_len: 8,
            }).holds(net.address)
        }),
{
    packing_facts(gsizes, below, positions);
    lemma2_to64();
    let net = packing(gsizes, below, positions)->Ok_0;
    let n = net.address.bits as int;
    let space = Ipv4Net { address: Ipv4Addr { bits: 0xa00_0000 }, prefix_len: 8 };
    assert(n / 256 / 256 / 256 == 10);
    assert((32 - space.prefix_len) as nat == 24);
    assert(pow2(24) == 0x100_0000);
    assert(n as nat / pow2(24) == 10);
    assert(space.address.bits as nat / pow2(24) == 10);
}

/// Two nodes of one topology with one host address are one node.
pub proof fn host_addresses_tell_nodes_apart(gsizes: Seq<u32>, p: Seq<u32>, q: Seq<u32>)
    requires
        valid_gsizes(gsizes),
        p.len() == gsizes.len(),
        q.len() == gsizes.len(),
        packing(gsizes, 0, p) is Ok,
        packing(gsizes, 0, p) == packing(gsizes, 0, q),
    ensures
        p == q,
{
    packing_facts(gsizes, 0, p);
    packing_facts(gsizes, 0, q);
    assert(opened(p, 0) =~= p);
    assert(opened(q, 0) =~= q);
    packed_tells_apart(gsizes, p, q);
}

/// A node's own leaf position, taken as a g-node, is its host address.
pub proof fn own_leaf_is_the_host(gsizes: Seq<u32>, positions: Seq<u32>)
    requires
        valid_gsizes(gsizes),
        positions.len() == gsizes.len(),
    ensures
        destination_of(gsizes, positions, HCoord { level: 0, pos: positions[0] }) == packing(
            gsizes,
            0,
            positions,
        ),
{
    assert(positions.update(0, positions[0]) =~= positions);
}

proof fn quotient_above_ten(low: nat, k: nat)
    requires
        k <= 22,
    ensures
        (0xa00_0000 + low) as nat / pow2(k) == 10 * pow2((24 - k) as nat) + low / pow2(k),
{
    lemma2_to64();
    lemma_pow2_adds(k, (24 - k) as nat);
    lemma_pow2_pos(k);
    let p = pow2(k) as int;
    let m = 10 * pow2((24 - k) as nat) as int;
    assert(m * p == 0xa00_0000) by (nonlinear_arith)
        requires
            p * pow2((24 - k) as nat) == 0x100_0000,
            m == 10 * pow2((24 - k) as nat),
    ;
    vstd::arithmetic::div_mod::lemma_hoist_over_denominator(low as int, m, pow2(k));
}

/// A g-node's network holds exactly the hosts inside the g-node: those that share its position at
/// its level, and this node's positions above.
pub proof fn network_holds_exactly_its_hosts(
    gsizes: Seq<u32>,
    my: Seq<u32>,
    hc: HCoord,
    other: Seq<u32>,
)
    requires
        valid_gsizes(gsizes),
        my.len() == gsizes.len(),
        other.len() == gsizes.len(),
        hc.level < gsizes.len(),
        destination_of(gsizes, my, hc) is Ok,
        packing(gsizes, 0, other) is Ok,
    ensures
        destination_of(gsizes, my, hc)->Ok_0.holds(packing(gsizes, 0, other)->Ok_0.address) <==> (
        other[hc.level as int] == hc.pos && forall|l: int|
            hc.level < l < gsizes.len() ==> #[trigger] other[l] == my[l]),
{
    let below = hc.level as int;
    let mine = my.update(below, hc.pos);
    packing_facts(gsizes, below, mine);
    packing_facts(gsizes, 0, other);
    assert(opened(other, 0) =~= other);
    let open = opened(mine, below);
    let k = address_bits(gsizes.take(below));
    let upper = gsizes.skip(below);
    packed_upper(gsizes, open, below);
    packed_upper(gsizes, other, below);
    quotient_above_ten(packed(gsizes, open), k);
    quotient_above_ten(packed(gsizes, other), k);
    let a = open.skip(below);
    let b = other.skip(below);
    let dest = destination_of(gsizes, my, hc)->Ok_0;
    let host = packing(gsizes, 0, other)->Ok_0.address;
    assert((32 - dest.prefix_len) as nat == k);
    assert(dest.holds(host) <==> packed(upper, a) == packed(upper, b));
    if packed(upper, a) == packed(upper, b) {
        assert forall|i: int| 0 <= i < a.len() implies #[trigger] a[i] < upper[0 + i] by {
            assert(open[below + i] < gsizes[0 + (below + i)]);
        }
        assert forall|i: int| 0 <= i < b.len() implies #[trigger] b[i] < upper[0 + i] by {
            assert(other[below + i] < gsizes[0 + (below + i)]);
        }
        assert(valid_gsizes(upper)) by {
            assert forall|l: int| 0 <= l < upper.len() implies #[trigger] upper[l] > 0 by {
                assert(gsizes[below + l] > 0);
            }
        }
        packed_tells_apart(upper, a, b);
        assert(b[0] == other[below] && a[0] == hc.pos);
        assert forall|l: int| below < l < gsizes.len() implies #[trigger] other[l] == my[l] by {
            assert(a[l - below] == b[l - below]);
        }
    }
    if other[below] == hc.pos && forall|l: int|
        below < l < gsizes.len() ==> #[trigger] other[l] == my[l] {
        assert(a =~= b);
    }
}

/// With at least two positions at every level, two g-nodes seen from one node have one network
/// only if they are one g-node.
pub proof fn networks_tell_gnodes_apart(gsizes: Seq<u32>, my: Seq<u32>, x: HCoord, y: HCoord)
    requires
        valid_gsizes(gsizes),
        forall|l: int| 0 <= l < gsizes.len() ==> #[trigger] gsizes[l] > 1,
        my.len() == gsizes.len(),
        destination_of(gsizes, my, x) is Ok,
        destination_of(gsizes, my, x) == destination_of(gsizes, my, y),
    ensures
        x == y,
{
    let p = my.update(x.level as int, x.pos);
    let q = my.update(y.level as int, y.pos);
    packing_facts(gsizes, x.level as int, p);
    packing_facts(gsizes, y.level as int, q);
    if x.level < y.level {
        bits_grow(gsizes, x.level as int, y.level as int);
    } else if y.level < x.level {
        bits_grow(gsizes, y.level as int, x.level as int);
    }
    packed_tells_apart(gsizes, opened(p, x.level as int), opened(q, y.level as int));
    assert(opened(p, x.level as int)[x.level as int] == x.pos);
    assert(opened(q, y.level as int)[y.level as int] == y.pos);
}

proof fn bits_grow(gsizes: Seq<u32>, a: int, b: int)
    requires
        forall|l: int| 0 <= l < gsizes.len() ==> #[trigger] gsizes[l] > 1,
        0 <= a < b <= gsizes.len(),
    ensures
        address_bits(gsizes.take(a)) < address_bits(gsizes.take(b)),
{
    let lower = gsizes.take(b);
    address_bits_split(lower, a);
    assert(lower.take(a) =~= gsizes.take(a));
    assert(lower.skip(a)[0] == gsizes[a]);
    assert(gsizes[a] > 1);
    assert(binary_digits((gsizes[a] - 1) as nat) >= 1);
}

} // verus!
