//! Tagged byte strings, and the ids that travel in them.
use vstd::prelude::*;
use vstd::string::*;
use crate::text::same_text;

verus! {

/// A byte string with a tag that says what it holds.
#[derive(Debug, PartialEq, Eq)]
pub struct TypedValue {
    /// What the payload holds.
    pub type_tag: String,
    /// The payload.
    pub payload: Vec<u8>,
}

/// What a [`TypedValue`] says.
pub struct TypedView {
    /// The tag.
    pub tag: Seq<char>,
    /// The payload.
    pub payload: Seq<u8>,
}

impl TypedValue {
    /// What it says.
    pub open spec fn view(&self) -> TypedView {
        TypedView { tag: self.type_tag@, payload: self.payload@ }
    }

    /// The value of this tag and payload.
    pub fn new(type_tag: &str, payload: Vec<u8>) -> (r: TypedValue)
        ensures
            r@ == (TypedView { tag: type_tag@, payload: payload@ }),
    {
        TypedValue { type_tag: type_tag.to_owned(), payload }
    }
}

/// The lowest `width` bytes of `n`, highest first.
pub open spec fn be_bytes(n: nat, width: nat) -> Seq<u8>
    decreases width,
{
    if width == 0 {
        Seq::empty()
    } else {
        be_bytes(n / 256, (width - 1) as nat).push((n % 256) as u8)
    }
}

/// The number that these bytes spell, highest first.
pub open spec fn be_value(bytes: Seq<u8>) -> nat
    decreases bytes.len(),
{
    if bytes.len() == 0 {
        0
    } else {
        be_value(bytes.drop_last()) * 256 + bytes.last() as nat
    }
}

/// One more than the greatest number that `width` bytes spell.
pub open spec fn byte_range(width: nat) -> nat
    decreases width,
{
    if width == 0 {
        1
    } else {
        256 * byte_range((width - 1) as nat)
    }
}

/// A number is read back from its bytes, where it fits in them.
pub proof fn bytes_read_back(n: nat, width: nat)
    requires
        n < byte_range(width),
    ensures
        be_bytes(n, width).len() == width,
        be_value(be_bytes(n, width)) == n,
    decreases width,
{
    if width > 0 {
        bytes_read_back(n / 256, (width - 1) as nat);
        assert(be_bytes(n, width).drop_last() =~= be_bytes(n / 256, (width - 1) as nat));
    }
}

/// What bytes spell fits in as many bytes.
pub proof fn value_fits(bytes: Seq<u8>)
    ensures
        be_value(bytes) < byte_range(bytes.len()),
    decreases bytes.len(),
{
    if bytes.len() > 0 {
        value_fits(bytes.drop_last());
    }
}

/// The bytes of a number stand highest first: byte `i` counts the multiples of as many bytes as
/// follow it.
pub proof fn the_highest_byte_stands_first(n: nat, width: nat, i: int)
    requires
        0 <= i < width,
    ensures
        be_bytes(n, width).len() == width,
        be_bytes(n, width)[i] as int == n as int / byte_range((width - 1 - i) as nat) as int % 256,
    decreases width,
{
    let rest = (width - 1) as nat;
    assert(be_bytes(n, width) == be_bytes(n / 256, rest).push((n % 256) as u8));
    if i < rest {
        the_highest_byte_stands_first(n / 256, rest, i);
        let b = byte_range((rest - 1 - i) as nat) as int;
        ranges_are_positive((rest - 1 - i) as nat);
        vstd::arithmetic::div_mod::lemma_div_denominator(n as int, 256, b);
        assert((width - 1 - i) as nat - 1 == rest - 1 - i);
        assert(byte_range((width - 1 - i) as nat) == 256 * b);
        assert(be_bytes(n, width)[i] == be_bytes(n / 256, rest)[i]);
    } else {
        if rest > 0 {
            the_highest_byte_stands_first(n / 256, rest, 0);
        } else {
            assert(be_bytes(n / 256, rest) =~= Seq::empty());
        }
        assert(be_bytes(n, width)[i] == (n % 256) as u8);
        assert(byte_range(0) == 1);
        assert((width - 1 - i) as nat == 0);
        assert(n as int / 1 == n);
    }
}

proof fn ranges_are_positive(width: nat)
    ensures
        byte_range(width) > 0,
    decreases width,
{
    if width > 0 {
        ranges_are_positive((width - 1) as nat);
    }
}

/// Bytes are those of the number that they spell.
pub proof fn bytes_are_those_of_their_number(bytes: Seq<u8>)
    ensures
        be_bytes(be_value(bytes), bytes.len()) == bytes,
    decreases bytes.len(),
{
    if bytes.len() > 0 {
        let front = bytes.drop_last();
        bytes_are_those_of_their_number(front);
        let n = be_value(bytes);
        assert(n / 256 == be_value(front));
        assert(n % 256 == bytes.last() as nat);
        assert(be_bytes(n, bytes.len()) =~= front.push(bytes.last()));
        assert(front.push(bytes.last()) =~= bytes);
    } else {
        assert(be_bytes(be_value(bytes), 0) =~= bytes);
    }
}

/// The lowest `width` bytes of `n`, highest first.
pub fn to_be_bytes(n: u64, width: usize) -> (r: Vec<u8>)
    ensures
        r@ == be_bytes(n as nat, width as nat),
    decreases width,
{
    if width == 0 {
        return Vec::new();
    }
    let mut r = to_be_bytes(n / 256, width - 1);
    r.push((n % 256) as u8);
    r
}

/// The number that these bytes spell, highest first.
pub fn from_be_bytes(bytes: &Vec<u8>) -> (r: u64)
    requires
        bytes@.len() <= 8,
    ensures
        r == be_value(bytes@),
{
    let mut r: u64 = 0;
    let mut i: usize = 0;
    while i < bytes.len()
        invariant
            i <= bytes@.len() <= 8,
            r == be_value(bytes@.take(i as int)),
        decreases bytes@.len() - i,
    {
        proof {
            let grown = bytes@.take(i + 1);
            assert(grown.drop_last() =~= bytes@.take(i as int));
            value_fits(bytes@.take(i as int));
            reveal_with_fuel(byte_range, 9);
            assert(byte_range(i as nat) <= byte_range(7));
        }
        r = r * 256 + bytes[i] as u64;
        i += 1;
    }
    assert(bytes@.take(bytes@.len() as int) =~= bytes@);
    r
}

/// A node's own id: a positive number that it keeps as long as it runs.
#[derive(Debug, Clone, Copy, PartialEq, Eq, Structural)]
pub struct NodeId {
    raw: i32,
}

impl NodeId {
    #[verifier::type_invariant]
    spec fn is_positive(self) -> bool {
        self.raw > 0
    }

    /// The number.
    pub closed spec fn view(&self) -> i32 {
        self.raw
    }

    /// The id of this number, which must be positive.
    pub fn from_raw(raw: i32) -> (r: Option<NodeId>)
        ensures
            r is Some <==> raw > 0,
            r is Some ==> r->Some_0@ == raw,
    {
        if raw > 0 {
            Some(NodeId { raw })
        } else {
            None
        }
    }

    /// The number.
    pub fn get(&self) -> (r: i32)
        ensures
            r == self@,
            r > 0,
    {
        proof {
            use_type_invariant(self);
        }
        self.raw
    }

    /// Whether both are one id.
    pub fn same(&self, other: &NodeId) -> (r: bool)
        ensures
            r == (self@ == other@),
    {
        self.raw == other.raw
    }
}

/// The id of an identity that a node hosts.
#[derive(Debug, Clone, Copy, PartialEq, Eq, Structural)]
pub struct IdentityId(pub u64);

/// The value in which a node id of this number travels.
pub open spec fn caller_value(raw: i32) -> TypedView {
    TypedView { tag: "ntkd.NeighbourId"@, payload: be_bytes(raw as nat, 4) }
}

/// The number of the node id that a value holds: four bytes under the right tag that spell a
/// positive number.
pub open spec fn caller_in(value: TypedView) -> Option<i32> {
    if value.tag == "ntkd.NeighbourId"@ && value.payload.len() == 4 && 0 < be_value(value.payload)
        <= i32::MAX {
        Some(be_value(value.payload) as i32)
    } else {
        None
    }
}

/// The value in which the identity id `raw` travels.
pub open spec fn identity_value(raw: u64) -> TypedView {
    TypedView { tag: "ntkd.IdentityId"@, payload: be_bytes(raw as nat, 8) }
}

/// The number of the identity id that a value holds: eight bytes under the right tag.
pub open spec fn identity_in(value: TypedView) -> Option<u64> {
    if value.tag == "ntkd.IdentityId"@ && value.payload.len() == 8 {
        Some(be_value(value.payload) as u64)
    } else {
        None
    }
}

/// The value in which this node's id travels.
pub fn encode_caller_id(id: NodeId) -> (r: TypedValue)
    ensures
        r@ == caller_value(id@),
{
    TypedValue::new("ntkd.NeighbourId", to_be_bytes(id.get() as u64, 4))
}

/// The node id that a value holds, if it holds one.
pub fn decode_caller_id(tv: &TypedValue) -> (r: Option<NodeId>)
    ensures
        r is Some == caller_in(tv@) is Some,
        r is Some ==> r->Some_0@ == caller_in(tv@)->Some_0,
{
    if !same_text(tv.type_tag.as_str(), "ntkd.NeighbourId") || tv.payload.len() != 4 {
        return None;
    }
    let raw: u64 = from_be_bytes(&tv.payload);
    if raw > 0x7fff_ffff {
        return None;
    }
    NodeId::from_raw(raw as i32)
}

/// The value in which an identity's id travels.
pub fn encode_identity_id(id: IdentityId) -> (r: TypedValue)
    ensures
        r@ == identity_value(id.0),
{
    TypedValue::new("ntkd.IdentityId", to_be_bytes(id.0, 8))
}

/// The identity id that a value holds, if it holds one.
pub fn decode_identity_id(tv: &TypedValue) -> (r: Option<IdentityId>)
    ensures
        r is Some == identity_in(tv@) is Some,
        r is Some ==> r->Some_0.0 == identity_in(tv@)->Some_0,
{
    if !same_text(tv.type_tag.as_str(), "ntkd.IdentityId") || tv.payload.len() != 8 {
        return None;
    }
    Some(IdentityId(from_be_bytes(&tv.payload)))
}

/// A node id is read back from the value it travels in.
pub proof fn caller_ids_travel(raw: i32)
    requires
        raw > 0,
    ensures
        caller_in(caller_value(raw)) == Some(raw),
{
    reveal_with_fuel(byte_range, 5);
    bytes_read_back(raw as nat, 4);
}

/// An identity id is read back from the value it travels in.
pub proof fn identity_ids_travel(raw: u64)
    ensures
        identity_in(identity_value(raw)) == Some(raw),
{
    reveal_with_fuel(byte_range, 9);
    bytes_read_back(raw as nat, 8);
}

/// A value holds an id exactly if it is the one in which that id travels.
pub proof fn a_value_holds_the_id_that_it_carries(value: TypedView)
    ensures
        caller_in(value) is Some <==> exists|raw: i32|
            raw > 0 && value == #[trigger] caller_value(raw),
        caller_in(value) is Some ==> value == caller_value(caller_in(value)->Some_0),
        identity_in(value) is Some <==> exists|raw: u64| value == #[trigger] identity_value(raw),
        identity_in(value) is Some ==> value == identity_value(identity_in(value)->Some_0),
{
    bytes_are_those_of_their_number(value.payload);
    value_fits(value.payload);
    reveal_with_fuel(byte_range, 9);
    if caller_in(value) is Some {
        assert(value == caller_value(caller_in(value)->Some_0));
    }
    if exists|raw: i32| raw > 0 && value == #[trigger] caller_value(raw) {
        let raw = choose|raw: i32| raw > 0 && value == #[trigger] caller_value(raw);
        caller_ids_travel(raw);
    }
    if identity_in(value) is Some {
        assert(value == identity_value(identity_in(value)->Some_0));
    }
    if exists|raw: u64| value == #[trigger] identity_value(raw) {
        let raw = choose|raw: u64| value == #[trigger] identity_value(raw);
        identity_ids_travel(raw);
    }
}

/// The two kinds of id are never taken for each other.
pub proof fn ids_are_not_confused(value: TypedView)
    ensures
        caller_in(value) is None || identity_in(value) is None,
{
    reveal_strlit("ntkd.NeighbourId");
    reveal_strlit("ntkd.IdentityId");
    assert("ntkd.NeighbourId"@[5] != "ntkd.IdentityId"@[5]);
}

} // verus!
