//! How a node starts: the addresses it gives itself, the place it takes, and what it makes of the
//! arcs that come and go.
use vstd::prelude::*;
use vstd::std_specs::hash::*;
use vstd::string::*;
use vstd::utf8::encode_utf8;
use std::collections::hash_map::DefaultHasher;
use std::hash::Hasher;
use crate::kernel::routes::{EndpointView, InstallerView, RouteInstaller};
use crate::net::{address_of, Interface, Ipv4Addr};
use crate::node::adapters::NetworkInfo;
use crate::node::peers::PeerLinks;
use crate::node::registry::{with_arc, with_link, EntryView, LinkId, LinkRegistry};
use crate::node::wire::{
    be_bytes, byte_range, the_highest_byte_stands_first, to_be_bytes, NodeId,
};
use crate::qspn::ArcId;
use crate::space::{
    copy_numbers, in_range, tells_why, valid_gsizes, Cost, Naddr, PositionError, Topology,
};
use crate::text::{
    digit, hex_byte, hex_byte_text, list_form, list_text, signed_decimal, signed_decimal_text,
};

verus! {

/// The link-local addresses that a node may give itself: 169.254.1.0 to 169.254.254.255, without
/// the two blocks that are set aside.
pub const LINKLOCAL_SPACE: u32 = 65_024;

/// The four bytes of a node's id, lowest first.
pub open spec fn id_bytes(id: i32) -> Seq<u8> {
    be_bytes(id as nat, 4).reverse()
}

/// The eight bytes of a level, lowest first.
pub open spec fn level_bytes(level: nat) -> Seq<u8> {
    be_bytes(level, 8).reverse()
}

fn reversed(bytes: &Vec<u8>) -> (r: Vec<u8>)
    ensures
        r@ == bytes@.reverse(),
{
    let mut r: Vec<u8> = Vec::new();
    let mut i: usize = bytes.len();
    while i > 0
        invariant
            i <= bytes@.len(),
            r@.len() == bytes@.len() - i,
            forall|j: int| 0 <= j < r@.len() ==> #[trigger] r@[j] == bytes@[bytes@.len() - 1 - j],
        decreases i,
    {
        i -= 1;
        r.push(bytes[i]);
    }
    assert(r@ =~= bytes@.reverse());
    r
}

/// The hash of these writes.
pub open spec fn hash_of(writes: Seq<Seq<u8>>) -> u64 {
    DefaultHasher::spec_finish(writes)
}

/// The hash of these writes is the one with which the standard hasher finishes after them.
pub proof fn hashes_are_the_standard_hashers(writes: Seq<Seq<u8>>)
    ensures
        hash_of(writes) == DefaultHasher::spec_finish(writes),
{
}

/// The link-local address in slot `slot`.
pub open spec fn linklocal_at(slot: int) -> Ipv4Addr {
    address_of(169, 254, (slot / 256 + 1) as u8, (slot % 256) as u8)
}

/// The slot of a node's address number `index`, given the hash of its id.
pub open spec fn linklocal_slot(hash: u64, index: u32) -> int {
    (hash as int % LINKLOCAL_SPACE as int + index) % (LINKLOCAL_SPACE as int)
}

/// The address number `index` of a node whose id has this hash: from the slot that the hash picks,
/// one slot further for each number, around the whole space.
pub fn linklocal_from_hash(hash: u64, index: u32) -> (r: Ipv4Addr)
    ensures
        r == linklocal_at(linklocal_slot(hash, index)),
        r.octet(0) == 169,
        r.octet(1) == 254,
        1 <= r.octet(2) <= 254,
{
    let start: u64 = hash % (LINKLOCAL_SPACE as u64);
    let slot: u64 = (start + index as u64) % (LINKLOCAL_SPACE as u64);
    let third: u8 = (slot / 256 + 1) as u8;
    let fourth: u8 = (slot % 256) as u8;
    Ipv4Addr::new(169, 254, third, fourth)
}

/// One node gives no two of its interfaces the same address, as long as there are no more of them
/// than addresses.
pub proof fn linklocal_addresses_differ(hash: u64, i: u32, j: u32)
    requires
        i < LINKLOCAL_SPACE,
        j < LINKLOCAL_SPACE,
        i != j,
    ensures
        linklocal_at(linklocal_slot(hash, i)) != linklocal_at(linklocal_slot(hash, j)),
{
    let a = linklocal_slot(hash, i);
    let b = linklocal_slot(hash, j);
    let n = LINKLOCAL_SPACE as int;
    let start = hash as int % n;
    assert(0 <= start < n);
    assert(a == if start + i < n { start + i } else { start + i - n });
    assert(b == if start + j < n { start + j } else { start + j - n });
    assert(a != b);
    assert(0 <= a < n && 0 <= b < n);
    assert(a == a / 256 * 256 + a % 256);
    assert(b == b / 256 * 256 + b % 256);
    assert(0 <= a / 256 < 254 && 0 <= b / 256 < 254);
}

/// The addresses of a node follow each other from 169.254.1.0 on, from where the hash of its id
/// picks, and begin anew behind 169.254.254.255.
pub proof fn linklocal_addresses_follow_each_other(hash: u64, index: u32)
    ensures
        linklocal_at(linklocal_slot(hash, index)).bits == 0xa9fe_0100 + (hash + index) % 65_024,
{
    let n: int = 65_024;
    let q = hash as int / n;
    let slot = linklocal_slot(hash, index);
    assert(hash as int == n * q + hash as int % n);
    vstd::arithmetic::div_mod::lemma_mod_multiples_vanish(q, hash as int % n + index, n);
    assert(slot == (hash + index) % n);
    assert(0 <= slot < n);
    assert(0 <= slot / 256 < 254);
    assert(slot == slot / 256 * 256 + slot % 256);
}

/// A node's id and a level are hashed as four and eight bytes, the lowest first.
pub proof fn numbers_are_hashed_lowest_byte_first(id: i32, level: nat, i: int)
    requires
        id >= 0,
        0 <= i < 8,
    ensures
        id_bytes(id).len() == 4,
        i < 4 ==> id_bytes(id)[i] as int == id as int / byte_range(i as nat) as int % 256,
        level_bytes(level).len() == 8,
        level_bytes(level)[i] as int == level as int / byte_range(i as nat) as int % 256,
{
    the_highest_byte_stands_first(id as nat, 4, if i < 4 { 3 - i } else { 0 });
    the_highest_byte_stands_first(level, 8, 7 - i);
}

/// The address number `index` that the node `salt` gives itself.
pub fn derive_linklocal(salt: NodeId, index: u32) -> (r: Ipv4Addr)
    ensures
        r == linklocal_at(linklocal_slot(hash_of(seq![id_bytes(salt@)]), index)),
        r.octet(0) == 169,
        r.octet(1) == 254,
        1 <= r.octet(2) <= 254,
{
    let mut hasher = DefaultHasher::new();
    let id = reversed(&to_be_bytes(salt.get() as u64, 4));
    hasher.write(id.as_slice());
    assert(hasher@ =~= seq![id_bytes(salt@)]);
    linklocal_from_hash(hasher.finish(), index)
}

/// Hands out a node's link-local addresses, one for each interface.
#[derive(Debug)]
pub struct LinklocalAllocator {
    my_id: NodeId,
    index: u32,
}

impl LinklocalAllocator {
    /// The node's id.
    pub closed spec fn id(&self) -> i32 {
        self.my_id@
    }

    /// How many addresses were handed out.
    pub closed spec fn count(&self) -> u32 {
        self.index
    }

    /// Whether there is a number left for another address.
    pub fn has_room(&self) -> (r: bool)
        ensures
            r == (self.count() < u32::MAX),
    {
        self.index < u32::MAX
    }

    /// The next address, in dotted form.
    pub fn next_address(&mut self) -> (r: String)
        requires
            old(self).count() < u32::MAX,
        ensures
            r@ == linklocal_at(
                linklocal_slot(hash_of(seq![id_bytes(old(self).id())]), old(self).count()),
            ).dotted(),
            final(self).id() == old(self).id(),
            final(self).count() == old(self).count() + 1,
    {
        let address = derive_linklocal(self.my_id, self.index);
        self.index = self.index + 1;
        address.text()
    }
}

/// The allocator of the node `my_id`, which has handed out nothing yet.
pub fn linklocal_allocator(my_id: NodeId) -> (r: LinklocalAllocator)
    ensures
        r.id() == my_id@,
        r.count() == 0,
{
    LinklocalAllocator { my_id, index: 0 }
}

/// The byte `i` of a hash, counted from the highest.
pub open spec fn hash_byte(hash: u64, i: int) -> u8 {
    be_bytes(hash as nat, 8)[i]
}

/// A byte as the first octet of an address that is administered locally and names one station.
pub open spec fn local_unicast(b: u8) -> u8 {
    (b as int / 4 * 4 + 2) as u8
}

/// The hardware address made of a hash.
pub open spec fn mac_of(hash: u64) -> Seq<char> {
    hex_byte(local_unicast(hash_byte(hash, 0))) + ":"@ + hex_byte(hash_byte(hash, 1)) + ":"@
        + hex_byte(hash_byte(hash, 2)) + ":"@ + hex_byte(hash_byte(hash, 3)) + ":"@ + hex_byte(
        hash_byte(hash, 4),
    ) + ":"@ + hex_byte(hash_byte(hash, 5))
}

proof fn be_bytes_len(n: nat, width: nat)
    ensures
        be_bytes(n, width).len() == width,
    decreases width,
{
    if width > 0 {
        be_bytes_len(n / 256, (width - 1) as nat);
    }
}

/// The hardware address made of a hash: six of its bytes, the first one changed so that the address
/// is administered locally and names one station.
pub fn mac_from_hash(hash: u64) -> (r: String)
    ensures
        r@ == mac_of(hash),
{
    let b = to_be_bytes(hash, 8);
    proof {
        be_bytes_len(hash as nat, 8);
    }
    let first: u8 = b[0] / 4 * 4 + 2;
    let mut r = hex_byte_text(first);
    r.append(":");
    r.append(hex_byte_text(b[1]).as_str());
    r.append(":");
    r.append(hex_byte_text(b[2]).as_str());
    r.append(":");
    r.append(hex_byte_text(b[3]).as_str());
    r.append(":");
    r.append(hex_byte_text(b[4]).as_str());
    r.append(":");
    r.append(hex_byte_text(b[5]).as_str());
    r
}

/// The first octet of such an address has the bit of local administration set and the group bit
/// clear, whatever the hash.
pub proof fn synthetic_macs_are_local_unicast(b: u8)
    ensures
        local_unicast(b) & 0x02 == 0x02,
        local_unicast(b) & 0x01 == 0,
        local_unicast(b) == (b & 0xfc) | 0x02,
{
    let x: u8 = local_unicast(b);
    assert(x == b / 4 * 4 + 2);
    assert(x & 0x02 == 0x02 && x & 0x01 == 0 && x == (b & 0xfc) | 0x02) by (bit_vector)
        requires
            x == b / 4 * 4 + 2,
    ;
}

/// The octets of the hardware address made of a hash.
pub open spec fn octet_of(hash: u64, i: int) -> u8 {
    if i == 0 {
        local_unicast(hash_byte(hash, 0))
    } else {
        hash_byte(hash, i)
    }
}

proof fn mac_at(hash: u64, i: int)
    requires
        0 <= i < 6,
    ensures
        mac_of(hash).len() == 17,
        i < 5 ==> mac_of(hash)[3 * i + 2] == ':',
        mac_of(hash)[3 * i] == digit(octet_of(hash, i) as int / 16),
        mac_of(hash)[3 * i + 1] == digit(octet_of(hash, i) as int % 16),
{
    reveal_strlit(":");
}

/// The address made of a hash is six octets of two lower-case hexadecimal digits each, with colons
/// between them.
pub proof fn synthetic_macs_have_six_octets(hash: u64, i: int)
    requires
        0 <= i < 17,
    ensures
        mac_of(hash).len() == 17,
        i % 3 == 2 ==> mac_of(hash)[i] == ':',
        i % 3 != 2 ==> '0' <= mac_of(hash)[i] <= '9' || 'a' <= mac_of(hash)[i] <= 'f',
{
    let k = i / 3;
    mac_at(hash, k);
    assert(i == 3 * k || i == 3 * k + 1 || i == 3 * k + 2);
}

/// Two hashes make one address only where all six octets agree.
pub proof fn synthetic_macs_tell_octets_apart(a: u64, b: u64, i: int)
    requires
        mac_of(a) == mac_of(b),
        0 <= i < 6,
    ensures
        octet_of(a, i) == octet_of(b, i),
{
    mac_at(a, i);
    mac_at(b, i);
    let x = octet_of(a, i) as int;
    let y = octet_of(b, i) as int;
    digits_differ(x / 16, y / 16);
    digits_differ(x % 16, y % 16);
}

proof fn digits_differ(x: int, y: int)
    requires
        0 <= x < 16,
        0 <= y < 16,
        digit(x) == digit(y),
    ensures
        x == y,
{
}

/// The address made of a hash spells its six highest bytes, highest first, each as two digits: as
/// they are, but for the two lowest bits of the first, which become `10`.
pub proof fn synthetic_macs_spell_the_hash(hash: u64, i: int)
    requires
        0 <= i < 6,
    ensures
        ({
            let byte = hash as int / byte_range((7 - i) as nat) as int % 256;
            let octet = if i == 0 {
                byte - byte % 4 + 2
            } else {
                byte
            };
            &&& mac_of(hash).len() == 17
            &&& mac_of(hash)[3 * i] == digit(octet / 16)
            &&& mac_of(hash)[3 * i + 1] == digit(octet % 16)
        }),
{
    mac_at(hash, i);
    the_highest_byte_stands_first(hash as nat, 8, i);
}

/// The hardware address that the node `my_id` gives its interface `dev`.
pub fn synthetic_mac(dev: &str, my_id: NodeId) -> (r: String)
    ensures
        r@ == mac_of(hash_of(seq![id_bytes(my_id@), encode_utf8(dev@), seq![0xffu8]])),
{
    let mut hasher = DefaultHasher::new();
    let id = reversed(&to_be_bytes(my_id.get() as u64, 4));
    hasher.write(id.as_slice());
    hasher.write(dev.as_bytes());
    let end: Vec<u8> = vec![0xff];
    hasher.write(end.as_slice());
    assert(end@ =~= seq![0xffu8]);
    assert(hasher@ =~= seq![id_bytes(my_id@), encode_utf8(dev@), seq![0xffu8]]);
    mac_from_hash(hasher.finish())
}

/// The position at a level that the hash picks.
pub fn position_from_hash(hash: u64, gsize: u32) -> (r: u32)
    requires
        gsize > 0,
    ensures
        r == hash % gsize as u64,
        r < gsize,
{
    (hash % (gsize as u64)) as u32
}

/// The position at `level` that the node `id` starts from.
pub open spec fn first_position(id: i32, level: int, gsize: u32) -> u32 {
    (hash_of(seq![id_bytes(id), level_bytes(level as nat)]) % gsize as u64) as u32
}

/// The position that a node starts from at a level is one of that level's, and lies whole g-nodes
/// below the hash of its id and the level.
pub proof fn first_positions_are_picked_by_hash(id: i32, level: int, gsize: u32) -> (q: int)
    requires
        gsize > 0,
    ensures
        first_position(id, level, gsize) < gsize,
        DefaultHasher::spec_finish(seq![id_bytes(id), level_bytes(level as nat)]) == q * gsize
            + first_position(id, level, gsize),
{
    let hash = DefaultHasher::spec_finish(seq![id_bytes(id), level_bytes(level as nat)]);
    let q = hash as int / gsize as int;
    vstd::arithmetic::div_mod::lemma_fundamental_div_mod(hash as int, gsize as int);
    vstd::arithmetic::mul::lemma_mul_is_commutative(q, gsize as int);
    q
}

/// The positions that the node `my_id` starts from when nobody gives it any.
pub fn derive_initial_position(my_id: NodeId, topology: &Topology) -> (r: Vec<u32>)
    ensures
        r@.len() == topology@.len(),
        forall|l: int|
            0 <= l < r@.len() ==> #[trigger] r@[l] == first_position(my_id@, l, topology@[l]),
        in_range(topology@, 0, r@),
{
    let mut r: Vec<u32> = Vec::new();
    let levels: usize = topology.levels();
    let mut level: usize = 0;
    while level < levels
        invariant
            level <= levels,
            levels == topology@.len(),
            valid_gsizes(topology@),
            r@.len() == level,
            forall|l: int|
                0 <= l < level ==> #[trigger] r@[l] == first_position(my_id@, l, topology@[l]),
            forall|l: int| 0 <= l < level ==> #[trigger] r@[l] < topology@[l],
        decreases levels - level,
    {
        let gsize: u32 = topology.gsizes()[level];
        assert(topology@[level as int] > 0);
        let mut hasher = DefaultHasher::new();
        let id = reversed(&to_be_bytes(my_id.get() as u64, 4));
        hasher.write(id.as_slice());
        let at = reversed(&to_be_bytes(level as u64, 8));
        hasher.write(at.as_slice());
        assert(hasher@ =~= seq![id_bytes(my_id@), level_bytes(level as nat)]);
        r.push(position_from_hash(hasher.finish(), gsize));
        level += 1;
    }
    r
}

/// An address that is virtual at every level: it stands for a place not yet settled.
pub fn virtual_placeholder(topology: &Topology) -> (r: Naddr)
    ensures
        r@ == topology@,
        r.gsizes() == topology@,
        r.virtual_somewhere(),
{
    let positions = copy_numbers(topology.gsizes());
    let levels: usize = topology.levels();
    proof {
        assert(levels > 0);
        assert(!in_range(topology@, 0, topology@)) by {
            assert(topology@[0] >= topology@[0]);
            if in_range(topology@, 0, topology@) {
                assert(topology@[0] < topology@[0 + 0int]);
            }
        }
    }
    match Naddr::new_allowing_virtual(topology.clone(), positions) {
        Ok(naddr) => naddr,
        Err(_) => {
            assert(false);
            unreached()
        },
    }
}

/// `BuildHasher::build_hasher` of a fresh `RandomState`, and `Hasher::finish`: a number that differs
/// from process to process. Nothing is promised of it.
#[verifier::external_body]
pub(crate) fn random_u64() -> (r: u64) {
    std::hash::BuildHasher::build_hasher(&std::collections::hash_map::RandomState::new()).finish()
}

/// A network's id made of a random number: positive.
pub fn network_id_from(raw: u64) -> (r: i64)
    ensures
        r == (if raw as int % 0x8000_0000_0000_0000 == 0 {
            1
        } else {
            raw as int % 0x8000_0000_0000_0000
        }),
        r > 0,
{
    let low: u64 = raw % 0x8000_0000_0000_0000;
    if low == 0 {
        1
    } else {
        low as i64
    }
}

/// A fresh network's id.
pub fn random_i64() -> (r: i64)
    ensures
        r > 0,
{
    network_id_from(random_u64())
}

/// A fresh g-node's fingerprint: eight bytes.
pub fn random_fingerprint_id() -> (r: Vec<u8>)
    ensures
        r@.len() == 8,
{
    let raw: u64 = random_u64();
    proof {
        be_bytes_len(raw as nat, 8);
    }
    to_be_bytes(raw, 8)
}

/// The lower half of a number, taken as signed.
pub open spec fn signed_low(raw: u64) -> int {
    let low = raw as int % 0x1_0000_0000;
    if low < 0x8000_0000 {
        low
    } else {
        low - 0x1_0000_0000
    }
}

/// The lower half of a number, taken as signed, differs from it by whole multiples of what 32 bits
/// hold, and is a signed number of 32 bits.
pub proof fn the_lower_half_is_taken_as_signed(raw: u64)
    ensures
        i32::MIN <= signed_low(raw) <= i32::MAX,
        (raw - signed_low(raw)) % 0x1_0000_0000 == 0,
{
}

/// A migration's id made of a random number: the distance of its lower half from zero, but positive
/// and no more than fits.
pub fn migration_id_from(raw: u64) -> (r: i32)
    ensures
        r >= 1,
        ({
            let n = signed_low(raw);
            let distance = if n < 0 { -n } else { n };
            r == if distance == 0 {
                1
            } else if distance > i32::MAX {
                i32::MAX as int
            } else {
                distance
            }
        }),
{
    let low: i64 = (raw % 0x1_0000_0000) as i64;
    let n: i64 = if low < 0x8000_0000 {
        low
    } else {
        low - 0x1_0000_0000
    };
    let distance: i64 = if n < 0 {
        -n
    } else {
        n
    };
    if distance == 0 {
        1
    } else if distance > 0x7fff_ffff {
        i32::MAX
    } else {
        distance as i32
    }
}

/// A fresh migration's id.
pub fn random_migration_id() -> (r: i32)
    ensures
        r >= 1,
{
    migration_id_from(random_u64())
}

/// A place in a network that exists already.
#[derive(Debug, PartialEq, Eq)]
pub struct PreformedNetwork {
    /// The network.
    pub network_id: i64,
    /// The positions, leaf level first.
    pub position: Vec<u32>,
}

/// Where a node starts.
#[derive(Debug)]
pub struct StartPlan {
    /// Its address.
    pub my_naddr: Naddr,
    /// Its network.
    pub network_id: i64,
    /// Whether it may move to another place later.
    pub negotiated: bool,
}

/// Why a node cannot start.
#[derive(Debug, PartialEq, Eq)]
pub enum StartError {
    /// It was given both a fixed position and a network.
    BothGiven {
        /// The position.
        initial_position: Vec<u32>,
        /// The network, and the place in it.
        preformed: PreformedNetwork,
    },
    /// The position is none of the topology's.
    Position(PositionError),
}

impl StartError {
    /// The message for an operator.
    pub open spec fn printed(self) -> Seq<char> {
        match self {
            StartError::BothGiven { initial_position, preformed } =>
                "NodeInputs::initial_position and NodeInputs::preformed are mutually exclusive: initial_position=Some("@
                    + list_form(initial_position@)
                    + ") preformed=Some(PreformedNetwork { network_id: "@ + signed_decimal(
                    preformed.network_id as int,
                ) + ", position: "@ + list_form(preformed.position@) + " })"@,
            StartError::Position(error) => error.printed(),
        }
    }

    /// The message for an operator.
    pub fn message(&self) -> (r: String)
        ensures
            r@ == self.printed(),
    {
        match self {
            StartError::BothGiven { initial_position, preformed } => {
                let mut r = String::from_str(
                    "NodeInputs::initial_position and NodeInputs::preformed are mutually exclusive: initial_position=Some(",
                );
                r.append(list_text(initial_position).as_str());
                r.append(") preformed=Some(PreformedNetwork { network_id: ");
                r.append(signed_decimal_text(preformed.network_id).as_str());
                r.append(", position: ");
                r.append(list_text(&preformed.position).as_str());
                r.append(" })");
                r
            },
            StartError::Position(error) => error.message(),
        }
    }
}

/// The positions are an address of the topology.
pub open spec fn is_address(gsizes: Seq<u32>, positions: Seq<u32>) -> bool {
    positions.len() == gsizes.len() && in_range(gsizes, 0, positions)
}

/// Positions are an address exactly if there is one for each level, and each is one of its level's.
pub proof fn an_address_has_a_place_at_each_level(gsizes: Seq<u32>, positions: Seq<u32>)
    ensures
        is_address(gsizes, positions) <==> positions.len() == gsizes.len() && forall|l: int|
            0 <= l < gsizes.len() ==> #[trigger] positions[l] < gsizes[l],
{
    if is_address(gsizes, positions) {
        assert forall|l: int| 0 <= l < gsizes.len() implies #[trigger] positions[l] < gsizes[l] by {
            assert(gsizes[0 + l] == gsizes[l]);
        }
    }
}

/// Where a node starts: at a fixed position, which it keeps; at a place in an existing network; or,
/// given neither, at the position its id picks, in a network of its own with the id `fresh`.
pub fn plan_start(
    topology: &Topology,
    my_id: NodeId,
    initial_position: Option<Vec<u32>>,
    preformed: Option<PreformedNetwork>,
    fresh: i64,
) -> (r: Result<StartPlan, StartError>)
    ensures
        initial_position is Some && preformed is Some ==> r is Err && r->Err_0 == (
        StartError::BothGiven {
            initial_position: initial_position->Some_0,
            preformed: preformed->Some_0,
        }),
        initial_position is Some && preformed is None ==> {
            &&& r is Ok <==> is_address(topology@, initial_position->Some_0@)
            &&& r is Err ==> r->Err_0 is Position && tells_why(
                topology@,
                initial_position->Some_0@,
                r->Err_0->Position_0,
            )
            &&& r is Ok ==> r->Ok_0.my_naddr@ == initial_position->Some_0@ && r->Ok_0.network_id
                == fresh && !r->Ok_0.negotiated
        },
        initial_position is None && preformed is Some ==> {
            &&& r is Ok <==> is_address(topology@, preformed->Some_0.position@)
            &&& r is Err ==> r->Err_0 is Position && tells_why(
                topology@,
                preformed->Some_0.position@,
                r->Err_0->Position_0,
            )
            &&& r is Ok ==> r->Ok_0.my_naddr@ == preformed->Some_0.position@ && r->Ok_0.network_id
                == preformed->Some_0.network_id && r->Ok_0.negotiated
        },
        initial_position is None && preformed is None ==> {
            &&& r is Ok
            &&& r->Ok_0.network_id == fresh
            &&& r->Ok_0.negotiated
            &&& r->Ok_0.my_naddr@.len() == topology@.len()
            &&& forall|l: int|
                0 <= l < topology@.len() ==> #[trigger] r->Ok_0.my_naddr@[l] == first_position(
                    my_id@,
                    l,
                    topology@[l],
                )
        },
        r is Ok ==> r->Ok_0.my_naddr.gsizes() == topology@,
{
    let negotiated = initial_position.is_none();
    let (position, network_id) = match (initial_position, preformed) {
        (Some(initial_position), Some(preformed)) => {
            return Err(StartError::BothGiven { initial_position, preformed });
        },
        (Some(position), None) => (position, fresh),
        (None, Some(preformed)) => (preformed.position, preformed.network_id),
        (None, None) => (derive_initial_position(my_id, topology), fresh),
    };
    match Naddr::new(topology.clone(), position) {
        Ok(my_naddr) => Ok(StartPlan { my_naddr, network_id, negotiated }),
        Err(error) => Err(StartError::Position(error)),
    }
}

/// An arc to a neighbour as the neighbourhood tells of it.
#[derive(Debug, PartialEq, Eq)]
pub struct NeighborArc {
    /// The neighbour's id.
    pub neighbour_id: NodeId,
    /// Its hardware address.
    pub neighbour_mac: String,
    /// The interface here.
    pub my_dev: String,
    /// The neighbour's address on that link, in dotted form.
    pub neighbour_nic_addr: String,
    /// What the arc costs, once that is measured.
    pub cost: Option<Cost>,
}

/// What to do for a link that has come up.
#[derive(Debug, Clone, Copy, PartialEq, Eq, Structural)]
pub struct ArcAdded {
    /// The link.
    pub link: LinkId,
    /// Whether the neighbour must be dialled.
    pub dial: bool,
}

/// A link came up: it has an id from now on, and its neighbour is dialled unless a connection is
/// open.
pub fn on_arc_added<C>(registry: &mut LinkRegistry, links: &PeerLinks<C>, arc: &NeighborArc) -> (r:
    ArcAdded)
    requires
        old(registry).links().contains_key(arc.neighbour_mac@) || old(registry).next_id()
            < u64::MAX,
    ensures
        r.dial == !links@.contains_key(r.link),
        final(registry).retries() == old(registry).retries(),
        (final(registry).links(), final(registry).next_id() as int, r.link) == with_link(
            old(registry).links(),
            old(registry).next_id() as int,
            arc.neighbour_mac@,
            arc.my_dev@,
            arc.neighbour_id@,
        ),
{
    let link = registry.link_for_neighbour(
        arc.neighbour_id,
        arc.neighbour_mac.as_str(),
        arc.my_dev.as_str(),
    );
    let dial = links.get(link).is_none();
    ArcAdded { link, dial }
}

/// The installer's knowledge once the far end of `arc` is noted, where its address can be read.
pub open spec fn with_endpoint(
    installer: InstallerView,
    arc: ArcId,
    address: Seq<char>,
    dev: Seq<char>,
) -> InstallerView {
    if exists|a: Ipv4Addr| #[trigger] a.dotted() == address {
        let via = choose|a: Ipv4Addr| #[trigger] a.dotted() == address;
        InstallerView { endpoints: installer.endpoints.insert(arc, EndpointView { via, dev }), ..installer }
    } else {
        installer
    }
}

/// A far end whose address can be read becomes the gateway of its arc, under that address and on
/// that interface, and nothing else changes.
pub proof fn a_readable_far_end_becomes_the_gateway(
    installer: InstallerView,
    arc: ArcId,
    via: Ipv4Addr,
    dev: Seq<char>,
    other: ArcId,
)
    requires
        other != arc,
    ensures
        ({
            let after = with_endpoint(installer, arc, via.dotted(), dev);
            &&& after.endpoints.contains_key(arc)
            &&& after.endpoints[arc] == (EndpointView { via, dev })
            &&& after.endpoints.contains_key(other) == installer.endpoints.contains_key(other)
            &&& installer.endpoints.contains_key(other) ==> after.endpoints[other]
                == installer.endpoints[other]
            &&& after == (InstallerView { endpoints: after.endpoints, ..installer })
        }),
{
    let chosen = choose|a: Ipv4Addr| #[trigger] a.dotted() == via.dotted();
    crate::net::dotted_tells_apart(chosen, via);
}

/// A far end whose address cannot be read becomes no gateway, and nothing changes.
pub proof fn an_unreadable_far_end_becomes_none(
    installer: InstallerView,
    arc: ArcId,
    address: Seq<char>,
    dev: Seq<char>,
)
    requires
        forall|a: Ipv4Addr| #[trigger] a.dotted() != address,
    ensures
        with_endpoint(installer, arc, address, dev) == installer,
{
}

/// The routing protocol took the link up as `qspn_arc`: that is noted, and the far end becomes a
/// gateway where its address can be read.
pub fn on_arc_attached(
    registry: &mut LinkRegistry,
    installer: &mut RouteInstaller,
    arc: &NeighborArc,
    link: LinkId,
    qspn_arc: ArcId,
)
    ensures
        final(registry).links() == with_arc(old(registry).links(), link, qspn_arc),
        final(registry).next_id() == old(registry).next_id(),
        final(registry).retries() == old(registry).retries(),
        final(installer)@ == with_endpoint(
            old(installer)@,
            qspn_arc,
            arc.neighbour_nic_addr@,
            arc.my_dev@,
        ),
{
    registry.set_qspn_arc(link, qspn_arc);
    match Ipv4Addr::parse(arc.neighbour_nic_addr.as_str()) {
        Some(via) => {
            assert(via.dotted() == arc.neighbour_nic_addr@);
            installer.set_arc_endpoint(qspn_arc, via, Interface::name(arc.my_dev.as_str()));
        },
        None => {},
    }
}

/// A link's cost changed: the arc to tell the routing protocol of, and its cost. Nothing is to be
/// told of a link that is unknown, not taken up, or not measured.
pub fn on_arc_cost_changed(registry: &LinkRegistry, arc: &NeighborArc) -> (r: Option<(ArcId, Cost)>)
    ensures
        r == (if registry.links().contains_key(arc.neighbour_mac@) {
            match (registry.links()[arc.neighbour_mac@].qspn_arc, arc.cost) {
                (Some(qspn_arc), Some(cost)) => Some((qspn_arc, cost)),
                _ => None,
            }
        } else {
            None
        }),
{
    let link = match registry.link_for_dev_and_mac(arc.neighbour_mac.as_str()) {
        Some(link) => link,
        None => {
            return None;
        },
    };
    match (registry.qspn_arc_of(link), arc.cost) {
        (Some(qspn_arc), Some(cost)) => Some((qspn_arc, cost)),
        _ => None,
    }
}

/// What to do for a link that went down.
#[derive(Debug, Clone, Copy, PartialEq, Eq, Structural)]
pub struct ArcRemoved {
    /// The link.
    pub link: LinkId,
    /// The routing protocol's arc, which it is to drop.
    pub qspn_arc: Option<ArcId>,
}

/// A link went down: it is forgotten here, with its gateway and its connection. Nothing happens for
/// an unknown one.
pub fn on_arc_removed<C>(
    registry: &mut LinkRegistry,
    installer: &mut RouteInstaller,
    links: &mut PeerLinks<C>,
    mac: &str,
) -> (r: Option<ArcRemoved>)
    ensures
        final(registry).links() == old(registry).links().remove(mac@),
        final(registry).next_id() == old(registry).next_id(),
        final(registry).retries() == old(registry).retries(),
        final(links).dial_port() == old(links).dial_port(),
        r is Some == old(registry).links().contains_key(mac@),
        r is None ==> final(installer)@ == old(installer)@ && final(links)@ == old(links)@,
        r is Some ==> {
            let entry = old(registry).links()[mac@];
            &&& r->Some_0 == (ArcRemoved { link: entry.id, qspn_arc: entry.qspn_arc })
            &&& final(links)@ == old(links)@.remove(entry.id)
            &&& final(installer)@ == match entry.qspn_arc {
                Some(arc) => InstallerView {
                    endpoints: old(installer)@.endpoints.remove(arc),
                    ..old(installer)@
                },
                None => old(installer)@,
            }
        },
{
    match registry.remove(mac) {
        Some(entry) => {
            match entry.qspn_arc {
                Some(arc) => {
                    installer.clear_arc_endpoint(arc);
                },
                None => {},
            }
            links.remove(entry.id);
            Some(ArcRemoved { link: entry.id, qspn_arc: entry.qspn_arc })
        },
        None => None,
    }
}

/// A link that goes down leaves nothing of what its coming up noted: neither the link, nor its
/// gateway.
pub proof fn removal_undoes_arrival(
    links: Map<Seq<char>, EntryView>,
    installer: InstallerView,
    mac: Seq<char>,
    entry: EntryView,
    arc: ArcId,
    address: Seq<char>,
)
    requires
        !links.contains_key(mac),
        forall|m: Seq<char>| #[trigger] links.contains_key(m) ==> links[m].id != entry.id,
        !installer.endpoints.contains_key(arc),
    ensures
        with_arc(links.insert(mac, entry), entry.id, arc).remove(mac) == links,
        ({
            let with = with_endpoint(installer, arc, address, entry.dev);
            InstallerView { endpoints: with.endpoints.remove(arc), ..with }
        }) == installer,
{
    let with = with_endpoint(installer, arc, address, entry.dev);
    assert(with_arc(links.insert(mac, entry), entry.id, arc).remove(mac) =~= links);
    assert(with.endpoints.remove(arc) =~= installer.endpoints);
}

/// What the routing protocol tells.
#[derive(Debug, Clone, Copy, PartialEq, Eq, Structural)]
pub enum QspnEvent {
    /// It has settled.
    BootstrapComplete,
    /// A destination appeared.
    DestinationAdded,
    /// A destination disappeared.
    DestinationRemoved,
    /// A path appeared.
    PathAdded,
    /// A path changed.
    PathChanged,
    /// A path disappeared.
    PathRemoved,
    /// A g-node split.
    GnodeSplitted,
    /// Somebody is there.
    PresenceNotified,
    /// An arc is gone.
    ArcRemoved,
    /// A fingerprint changed.
    ChangedFingerprint,
    /// A size changed.
    ChangedNodesInside,
}

/// The event touches the known destinations or paths.
pub open spec fn touches_routes(event: QspnEvent) -> bool {
    event is DestinationAdded || event is DestinationRemoved || event is PathAdded
        || event is PathChanged || event is PathRemoved
}

/// Takes note of what the routing protocol tells, and says whether the routes are to be reconciled.
pub fn on_qspn_event(net: &mut NetworkInfo, event: QspnEvent) -> (r: bool)
    ensures
        r == touches_routes(event),
        r <==> event is DestinationAdded || event is DestinationRemoved || event is PathAdded
            || event is PathChanged || event is PathRemoved,
        event is BootstrapComplete ==> final(net)@ == (crate::node::adapters::NetworkView {
            bootstrapped: true,
            ..old(net)@
        }),
        !(event is BootstrapComplete) ==> final(net)@ == old(net)@,
{
    match event {
        QspnEvent::BootstrapComplete => {
            net.set_bootstrapped();
            false
        },
        QspnEvent::DestinationAdded
        | QspnEvent::DestinationRemoved
        | QspnEvent::PathAdded
        | QspnEvent::PathChanged
        | QspnEvent::PathRemoved => true,
        _ => false,
    }
}

/// Each event after which the known destinations or the paths to them are others leads to a
/// reconciliation, and no event else does.
pub proof fn every_change_of_routes_is_reconciled(event: QspnEvent)
    ensures
        event is DestinationAdded || event is DestinationRemoved || event is PathAdded
            || event is PathChanged || event is PathRemoved ==> touches_routes(event),
        event is BootstrapComplete || event is GnodeSplitted || event is PresenceNotified
            || event is ArcRemoved || event is ChangedFingerprint || event is ChangedNodesInside
            ==> !touches_routes(event),
{
}

/// One of the streams that the steady state listens to.
#[derive(Debug, Clone, Copy, PartialEq, Eq, Structural)]
pub enum Stream {
    /// The neighbourhood's.
    Neighborhood,
    /// The routing protocol's.
    Qspn,
    /// Hooking's.
    Hooking,
}

/// What came out of a stream.
#[derive(Debug, Clone, Copy, PartialEq, Eq, Structural)]
pub enum Received {
    /// An event.
    Event,
    /// Some events were missed.
    Lagged,
    /// It has ended.
    Closed,
}

/// What to do about it.
#[derive(Debug, Clone, Copy, PartialEq, Eq, Structural)]
pub enum Reaction {
    /// Handle the event.
    Handle,
    /// Reconcile the routes with the whole snapshot.
    Reconcile,
    /// Go on.
    Continue,
    /// Leave the steady state.
    Stop,
}

/// What the steady state does about what came out of a stream.
pub open spec fn reaction(stream: Stream, received: Received) -> Reaction {
    match received {
        Received::Event => Reaction::Handle,
        Received::Closed => Reaction::Stop,
        Received::Lagged => if stream is Qspn {
            Reaction::Reconcile
        } else {
            Reaction::Continue
        },
    }
}

/// No event is passed over, no ended stream is listened to any longer, and what was missed of the
/// routing protocol, and of it alone, is made up for by reconciling with the whole snapshot.
pub proof fn nothing_told_is_lost(stream: Stream, received: Received)
    ensures
        reaction(stream, received) is Handle <==> received is Event,
        reaction(stream, received) is Stop <==> received is Closed,
        reaction(stream, received) is Reconcile <==> received is Lagged && stream is Qspn,
        reaction(stream, received) is Continue <==> received is Lagged && !(stream is Qspn),
{
}

/// What the steady state does: an ended stream stops it, and missed events matter only where they
/// are the routing protocol's, of which a snapshot tells all.
pub fn on_stream(stream: Stream, received: Received) -> (r: Reaction)
    ensures
        r == reaction(stream, received),
        r == match received {
            Received::Event => Reaction::Handle,
            Received::Closed => Reaction::Stop,
            Received::Lagged => if stream is Qspn {
                Reaction::Reconcile
            } else {
                Reaction::Continue
            },
        },
{
    match received {
        Received::Event => Reaction::Handle,
        Received::Closed => Reaction::Stop,
        Received::Lagged => match stream {
            Stream::Qspn => Reaction::Reconcile,
            _ => Reaction::Continue,
        },
    }
}

/// What the node knows of its links and gateways.
pub struct LinkState {
    /// The links.
    pub links: Map<Seq<char>, EntryView>,
    /// The number of the next link.
    pub next_id: int,
    /// The installer.
    pub installer: InstallerView,
}

/// The state once the link of an arc is known.
pub open spec fn known_link(state: LinkState, arc: NeighborArc) -> (LinkState, LinkId) {
    let (links, next_id, link) = with_link(
        state.links,
        state.next_id,
        arc.neighbour_mac@,
        arc.my_dev@,
        arc.neighbour_id@,
    );
    (LinkState { links, next_id, ..state }, link)
}

/// The state once the arcs are attached anew: one that is not measured is passed over, each other
/// has a link, and one that the routing protocol took up has its arc and gateway noted.
pub open spec fn reattached(
    state: LinkState,
    arcs: Seq<NeighborArc>,
    taken: Seq<Option<ArcId>>,
) -> LinkState
    decreases arcs.len(),
{
    if arcs.len() == 0 {
        state
    } else {
        let before = reattached(state, arcs.drop_last(), taken.drop_last());
        let arc = arcs.last();
        if arc.cost is None {
            before
        } else {
            let (known, link) = known_link(before, arc);
            match taken.last() {
                None => known,
                Some(qspn_arc) => LinkState {
                    links: with_arc(known.links, link, qspn_arc),
                    installer: with_endpoint(
                        known.installer,
                        qspn_arc,
                        arc.neighbour_nic_addr@,
                        arc.my_dev@,
                    ),
                    ..known
                },
            }
        }
    }
}

/// Some measured arc was taken up.
pub open spec fn some_taken(arcs: Seq<NeighborArc>, taken: Seq<Option<ArcId>>) -> bool {
    exists|i: int| 0 <= i < arcs.len() && (#[trigger] arcs[i]).cost is Some && taken[i] is Some
}

/// No two links share a number, and the next number is above all of them.
pub open spec fn numbers_are_apart(state: LinkState) -> bool {
    &&& forall|a: Seq<char>, b: Seq<char>| #[trigger]
        state.links.contains_key(a) && #[trigger] state.links.contains_key(b) && state.links[a].id
            == state.links[b].id ==> a == b
    &&& forall|a: Seq<char>| #[trigger]
        state.links.contains_key(a) ==> state.links[a].id.0 < state.next_id
    &&& 0 <= state.next_id
}

proof fn reattaching_keeps_numbers_apart(
    state: LinkState,
    arcs: Seq<NeighborArc>,
    taken: Seq<Option<ArcId>>,
)
    requires
        arcs.len() == taken.len(),
        numbers_are_apart(state),
        state.next_id + arcs.len() <= u64::MAX,
    ensures
        numbers_are_apart(reattached(state, arcs, taken)),
        reattached(state, arcs, taken).next_id <= state.next_id + arcs.len(),
    decreases arcs.len(),
{
    if arcs.len() > 0 {
        reattaching_keeps_numbers_apart(state, arcs.drop_last(), taken.drop_last());
        let before = reattached(state, arcs.drop_last(), taken.drop_last());
        let after = reattached(state, arcs, taken);
        let arc = arcs.last();
        if arc.cost is Some {
            let (known, link) = known_link(before, arc);
            assert(numbers_are_apart(known));
            assert forall|a: Seq<char>| #[trigger] after.links.contains_key(a) implies
                known.links.contains_key(a) && after.links[a].id == known.links[a].id by {}
            assert(numbers_are_apart(after));
        }
    }
}

/// Once the arcs are attached anew, every measured one has a link, under the hardware address of its
/// neighbour. Noted for it is what the routing protocol last took it up as, and the far end is the
/// gateway of that arc, where its address can be read and no later arc was taken up as the same.
pub proof fn arcs_taken_up_are_known_anew(
    state: LinkState,
    arcs: Seq<NeighborArc>,
    taken: Seq<Option<ArcId>>,
    i: int,
    via: Ipv4Addr,
)
    requires
        arcs.len() == taken.len(),
        numbers_are_apart(state),
        state.next_id + arcs.len() <= u64::MAX,
        0 <= i < arcs.len(),
        arcs[i].cost is Some,
    ensures
        ({
            let after = reattached(state, arcs, taken);
            let mac = arcs[i].neighbour_mac@;
            &&& after.links.contains_key(mac)
            &&& taken[i] is Some && (forall|j: int|
                i < j < arcs.len() && (#[trigger] arcs[j]).cost is Some
                    && arcs[j].neighbour_mac@ == mac ==> taken[j] is None)
                ==> after.links[mac].qspn_arc == taken[i]
            &&& taken[i] is Some && via.dotted() == arcs[i].neighbour_nic_addr@ && (forall|j: int|
                i < j < arcs.len() && (#[trigger] arcs[j]).cost is Some ==> taken[j] != taken[i])
                ==> after.installer.endpoints.contains_key(taken[i]->Some_0)
                && after.installer.endpoints[taken[i]->Some_0] == (EndpointView {
                via,
                dev: arcs[i].my_dev@,
            })
        }),
    decreases arcs.len(),
{
    let front = arcs.drop_last();
    let fronts = taken.drop_last();
    let n = arcs.len() - 1;
    let before = reattached(state, front, fronts);
    let after = reattached(state, arcs, taken);
    reattaching_keeps_numbers_apart(state, front, fronts);
    let mac = arcs[i].neighbour_mac@;
    let arc = arcs.last();
    let (known, link) = known_link(before, arc);
    if i < n {
        arcs_taken_up_are_known_anew(state, front, fronts, i, via);
        assert(front[i] == arcs[i] && fronts[i] == taken[i]);
        if forall|j: int| i < j < arcs.len() && (#[trigger] arcs[j]).cost is Some
            && arcs[j].neighbour_mac@ == mac ==> taken[j] is None {
            assert forall|j: int| i < j < front.len() && (#[trigger] front[j]).cost is Some
                && front[j].neighbour_mac@ == mac implies fronts[j] is None by {
                assert(front[j] == arcs[j]);
            }
            assert(arcs[n].cost is Some && arcs[n].neighbour_mac@ == mac ==> taken[n] is None);
        }
        if forall|j: int| i < j < arcs.len() && (#[trigger] arcs[j]).cost is Some ==> taken[j]
            != taken[i] {
            assert forall|j: int| i < j < front.len() && (#[trigger] front[j]).cost is Some implies
                fronts[j] != fronts[i] by {
                assert(front[j] == arcs[j]);
            }
            assert(arcs[n].cost is Some ==> taken[n] != taken[i]);
        }
        if arc.cost is Some && taken.last() is Some {
            assert(before.links.contains_key(mac));
            assert(known.links.contains_key(mac));
            assert(known.links[mac] == before.links[mac]);
            assert(known.links.contains_key(arc.neighbour_mac@));
            assert(known.links[arc.neighbour_mac@].id == link);
        }
    } else {
        assert(arc == arcs[i]);
        assert(known.links.contains_key(mac));
        assert(known.links[mac].id == link);
        if taken[i] is Some && via.dotted() == arcs[i].neighbour_nic_addr@ {
            let chosen = choose|a: Ipv4Addr| #[trigger] a.dotted() == arcs[i].neighbour_nic_addr@;
            crate::net::dotted_tells_apart(chosen, via);
        }
    }
}

/// Attaching arcs anew changes nothing for a link that none of them that is measured leads over.
pub proof fn other_links_stay_as_they_were(
    state: LinkState,
    arcs: Seq<NeighborArc>,
    taken: Seq<Option<ArcId>>,
    mac: Seq<char>,
)
    requires
        arcs.len() == taken.len(),
        numbers_are_apart(state),
        state.next_id + arcs.len() <= u64::MAX,
        forall|j: int|
            0 <= j < arcs.len() && (#[trigger] arcs[j]).cost is Some ==> arcs[j].neighbour_mac@
                != mac,
    ensures
        ({
            let after = reattached(state, arcs, taken);
            &&& after.links.contains_key(mac) == state.links.contains_key(mac)
            &&& state.links.contains_key(mac) ==> after.links[mac] == state.links[mac]
        }),
    decreases arcs.len(),
{
    if arcs.len() > 0 {
        let front = arcs.drop_last();
        let fronts = taken.drop_last();
        let before = reattached(state, front, fronts);
        assert forall|j: int| 0 <= j < front.len() && (#[trigger] front[j]).cost is Some implies
            front[j].neighbour_mac@ != mac by {
            assert(front[j] == arcs[j]);
        }
        other_links_stay_as_they_were(state, front, fronts, mac);
        reattaching_keeps_numbers_apart(state, front, fronts);
        let arc = arcs.last();
        assert(arcs[arcs.len() - 1] == arc);
        if arc.cost is Some {
            let (known, link) = known_link(before, arc);
            assert(known.links.contains_key(arc.neighbour_mac@));
            assert(known.links[arc.neighbour_mac@].id == link);
            if before.links.contains_key(mac) {
                assert(known.links[mac] == before.links[mac]);
                assert(known.links[mac].id != link);
            }
        }
    }
}

/// The services are announced anew exactly unless the routing protocol took up none of the measured
/// arcs.
pub proof fn services_are_announced_where_an_arc_was_taken_up(
    arcs: Seq<NeighborArc>,
    taken: Seq<Option<ArcId>>,
)
    ensures
        !some_taken(arcs, taken) <==> forall|i: int|
            0 <= i < arcs.len() ==> (#[trigger] arcs[i]).cost is None || taken[i] is None,
{
}

/// Attaches the known arcs to a routing protocol that has just started, given which of them it took
/// up and as what. Says whether it took up any: then the node's services are to be announced anew.
pub fn reattach_known_arcs(
    registry: &mut LinkRegistry,
    installer: &mut RouteInstaller,
    arcs: &Vec<NeighborArc>,
    taken: &Vec<Option<ArcId>>,
) -> (r: bool)
    requires
        taken@.len() == arcs@.len(),
        old(registry).next_id() + arcs@.len() <= u64::MAX,
    ensures
        r == some_taken(arcs@, taken@),
        final(registry).retries() == old(registry).retries(),
        ({
            let after = reattached(
                LinkState {
                    links: old(registry).links(),
                    next_id: old(registry).next_id() as int,
                    installer: old(installer)@,
                },
                arcs@,
                taken@,
            );
            &&& final(registry).links() == after.links
            &&& final(registry).next_id() == after.next_id
            &&& final(installer)@ == after.installer
        }),
{
    let ghost start = LinkState {
        links: registry.links(),
        next_id: registry.next_id() as int,
        installer: installer@,
    };
    let mut any = false;
    let mut i: usize = 0;
    assert(arcs@.take(0) =~= Seq::empty());
    while i < arcs.len()
        invariant
            i <= arcs@.len(),
            taken@.len() == arcs@.len(),
            ({
                let now = reattached(start, arcs@.take(i as int), taken@.take(i as int));
                &&& registry.links() == now.links
                &&& registry.next_id() == now.next_id
                &&& installer@ == now.installer
            }),
            registry.next_id() <= start.next_id + i,
            registry.retries() == old(registry).retries(),
            start.next_id + arcs@.len() <= u64::MAX,
            any == some_taken(arcs@.take(i as int), taken@.take(i as int)),
        decreases arcs@.len() - i,
    {
        let arc = &arcs[i];
        proof {
            assert(arcs@.take(i + 1).drop_last() =~= arcs@.take(i as int));
            assert(taken@.take(i + 1).drop_last() =~= taken@.take(i as int));
            assert(arcs@.take(i + 1).last() == *arc);
            assert(taken@.take(i + 1).last() == taken@[i as int]);
        }
        let ghost had = any;
        if arc.cost.is_some() {
            let link = registry.link_for_neighbour(
                arc.neighbour_id,
                arc.neighbour_mac.as_str(),
                arc.my_dev.as_str(),
            );
            match taken[i] {
                Some(qspn_arc) => {
                    on_arc_attached(registry, installer, arc, link, qspn_arc);
                    any = true;
                },
                None => {},
            }
        }
        proof {
            let a = arcs@.take(i + 1);
            let t = taken@.take(i + 1);
            if had {
                let k = choose|k: int|
                    0 <= k < i && (#[trigger] arcs@.take(i as int)[k]).cost is Some && taken@.take(
                        i as int,
                    )[k] is Some;
                assert(a[k].cost is Some && t[k] is Some);
            }
            if any && !had {
                assert(a[i as int].cost is Some && t[i as int] is Some);
            }
            if some_taken(a, t) {
                let k = choose|k: int|
                    0 <= k < a.len() && (#[trigger] a[k]).cost is Some && t[k] is Some;
                if k < i {
                    assert(arcs@.take(i as int)[k].cost is Some);
                }
            }
        }
        i += 1;
    }
    assert(arcs@.take(arcs@.len() as int) =~= arcs@);
    assert(taken@.take(taken@.len() as int) =~= taken@);
    any
}

} // verus!
