//! Addresses, networks and the routing objects that a kernel holds.
use vstd::prelude::*;
use vstd::arithmetic::power2::*;
use vstd::bits::*;
use vstd::string::*;
use crate::text::{
    decimal, decimal_is_short, decimal_reads_back, decimal_text, decimal_value, find_char, index_of,
    index_of_is_first, is_digit,
};

verus! {

/// An IPv4 address as the number that its four octets spell.
#[derive(Debug, Clone, Copy, PartialEq, Eq, Structural)]
pub struct Ipv4Addr {
    /// The address, first octet highest.
    pub bits: u32,
}

/// The address with these four octets.
pub open spec fn address_of(a: u8, b: u8, c: u8, d: u8) -> Ipv4Addr {
    Ipv4Addr { bits: (((a as int * 256 + b as int) * 256 + c as int) * 256 + d as int) as u32 }
}

impl Ipv4Addr {
    /// The octet `i`, counted from the front.
    pub open spec fn octet(&self, i: int) -> int {
        let n = self.bits as int;
        if i == 0 {
            n / 256 / 256 / 256
        } else if i == 1 {
            n / 256 / 256 % 256
        } else if i == 2 {
            n / 256 % 256
        } else {
            n % 256
        }
    }

    /// The dotted form of the address.
    pub open spec fn dotted(&self) -> Seq<char> {
        dotted_quad(self.octet(0), self.octet(1), self.octet(2), self.octet(3))
    }

    /// The address with these four octets.
    pub fn new(a: u8, b: u8, c: u8, d: u8) -> (r: Ipv4Addr)
        ensures
            r == address_of(a, b, c, d),
            r.octet(0) == a,
            r.octet(1) == b,
            r.octet(2) == c,
            r.octet(3) == d,
    {
        let upper: u32 = (a as u32 * 256 + b as u32) * 256 + c as u32;
        let bits: u32 = upper * 256 + d as u32;
        assert(bits / 256 == upper);
        assert(upper / 256 == a as int * 256 + b as int);
        Ipv4Addr { bits }
    }

    /// The four octets.
    pub fn octets(&self) -> (r: [u8; 4])
        ensures
            forall|i: int| 0 <= i < 4 ==> #[trigger] r@[i] == self.octet(i),
            *self == address_of(r@[0], r@[1], r@[2], r@[3]),
    {
        let a: u8 = (self.bits / 256 / 256 / 256) as u8;
        let b: u8 = (self.bits / 256 / 256 % 256) as u8;
        let c: u8 = (self.bits / 256 % 256) as u8;
        let d: u8 = (self.bits % 256) as u8;
        proof {
            octets_are_bytes(*self);
        }
        [a, b, c, d]
    }

    /// The dotted form of the address.
    pub fn text(&self) -> (r: String)
        ensures
            r@ == self.dotted(),
    {
        let octets = self.octets();
        let mut r = decimal_text(octets[0] as u64);
        r.append(".");
        r.append(decimal_text(octets[1] as u64).as_str());
        r.append(".");
        r.append(decimal_text(octets[2] as u64).as_str());
        r.append(".");
        r.append(decimal_text(octets[3] as u64).as_str());
        r
    }

    /// Reads a dotted address. Only the form that [`Ipv4Addr::text`] writes is one: four decimal
    /// octets, none with a leading zero.
    pub fn parse(s: &str) -> (r: Option<Ipv4Addr>)
        ensures
            r is Some ==> s@ == r->Some_0.dotted(),
            forall|a: Ipv4Addr| s@ == #[trigger] a.dotted() ==> r == Some(a),
    {
        let n: usize = s.unicode_len();
        let i: usize = find_char(s, '.');
        proof {
            assert forall|a: Ipv4Addr| s@ == #[trigger] a.dotted() implies splits(
                s@,
                decimal(a.octet(0) as nat),
                decimal(a.octet(1) as nat),
                decimal(a.octet(2) as nat),
                decimal(a.octet(3) as nat),
            ) by {
                quad_splits(a.octet(0), a.octet(1), a.octet(2), a.octet(3));
            }
        }
        if i >= n {
            return None;
        }
        let first = s.substring_char(0, i);
        let rest = s.substring_char(i + 1, n);
        let m: usize = rest.unicode_len();
        let j: usize = find_char(rest, '.');
        if j >= m {
            return None;
        }
        let second = rest.substring_char(0, j);
        let tail = rest.substring_char(j + 1, m);
        let l: usize = tail.unicode_len();
        let k: usize = find_char(tail, '.');
        if k >= l {
            return None;
        }
        let third = tail.substring_char(0, k);
        let fourth = tail.substring_char(k + 1, l);
        let ghost falls = splits(s@, first@, second@, third@, fourth@);
        assert(falls);
        let octets = (
            parse_octet(first),
            parse_octet(second),
            parse_octet(third),
            parse_octet(fourth),
        );
        match octets {
            (Some(a), Some(b), Some(c), Some(d)) => {
                let r = Ipv4Addr::new(a, b, c, d);
                proof {
                    parts_join(s@, first@, second@, third@, fourth@);
                    assert(s@ == r.dotted());
                    assert forall|x: Ipv4Addr| s@ == #[trigger] x.dotted() implies x == r by {
                        dotted_tells_apart(x, r);
                    }
                }
                Some(r)
            },
            _ => {
                proof {
                    assert forall|a: Ipv4Addr| s@ == #[trigger] a.dotted() implies false by {
                        octets_are_bytes(a);
                        assert(first@ == decimal(a.octet(0) as u8 as nat));
                        assert(second@ == decimal(a.octet(1) as u8 as nat));
                        assert(third@ == decimal(a.octet(2) as u8 as nat));
                        assert(fourth@ == decimal(a.octet(3) as u8 as nat));
                    }
                }
                None
            },
        }
    }
}

/// Four numbers with dots between them.
pub open spec fn dotted_quad(a: int, b: int, c: int, d: int) -> Seq<char> {
    decimal(a as nat) + "."@ + decimal(b as nat) + "."@ + decimal(c as nat) + "."@ + decimal(
        d as nat,
    )
}

/// The octets of an address are bytes, and spell it.
pub proof fn octets_are_bytes(a: Ipv4Addr)
    ensures
        0 <= a.octet(0) < 256,
        0 <= a.octet(1) < 256,
        0 <= a.octet(2) < 256,
        0 <= a.octet(3) < 256,
        a == address_of(
            a.octet(0) as u8,
            a.octet(1) as u8,
            a.octet(2) as u8,
            a.octet(3) as u8,
        ),
{
    let n = a.bits as int;
    let upper = n / 256;
    let top = upper / 256;
    assert(n == upper * 256 + n % 256);
    assert(upper == top * 256 + upper % 256);
    assert(top == top / 256 * 256 + top % 256);
}

/// `text` falls into these four parts at its dots.
spec fn splits(text: Seq<char>, a: Seq<char>, b: Seq<char>, c: Seq<char>, d: Seq<char>) -> bool {
    let i = index_of(text, '.');
    let rest = text.subrange(i + 1, text.len() as int);
    let j = index_of(rest, '.');
    let tail = rest.subrange(j + 1, rest.len() as int);
    let k = index_of(tail, '.');
    &&& i < text.len()
    &&& j < rest.len()
    &&& k < tail.len()
    &&& text.subrange(0, i) == a
    &&& rest.subrange(0, j) == b
    &&& tail.subrange(0, k) == c
    &&& tail.subrange(k + 1, tail.len() as int) == d
}

proof fn splits_at_dot(head: Seq<char>, tail: Seq<char>)
    requires
        forall|i: int| 0 <= i < head.len() ==> is_digit(#[trigger] head[i]),
    ensures
        ({
            let s = head + "."@ + tail;
            &&& index_of(s, '.') == head.len()
            &&& head.len() < s.len()
            &&& s.subrange(0, head.len() as int) == head
            &&& s.subrange(head.len() as int + 1, s.len() as int) == tail
        }),
{
    reveal_strlit(".");
    let s = head + "."@ + tail;
    assert("."@ =~= seq!['.']);
    index_of_is_first(s, '.');
    assert(s[head.len() as int] == '.');
    let i = index_of(s, '.');
    if i < head.len() {
        assert(s[i] == head[i]);
    }
    if i > head.len() {
        assert(s[head.len() as int] != '.');
    }
    assert(s.subrange(0, head.len() as int) =~= head);
    assert(s.subrange(head.len() as int + 1, s.len() as int) =~= tail);
}

proof fn joins_at_dot(s: Seq<char>)
    requires
        index_of(s, '.') < s.len(),
    ensures
        s == s.subrange(0, index_of(s, '.')) + "."@ + s.subrange(
            index_of(s, '.') + 1,
            s.len() as int,
        ),
{
    reveal_strlit(".");
    assert("."@ =~= seq!['.']);
    index_of_is_first(s, '.');
    assert(s =~= s.subrange(0, index_of(s, '.')) + "."@ + s.subrange(
        index_of(s, '.') + 1,
        s.len() as int,
    ));
}

proof fn regroup(a: Seq<char>, b: Seq<char>, c: Seq<char>, d: Seq<char>, dot: Seq<char>)
    ensures
        a + dot + (b + dot + (c + dot + d)) == a + dot + b + dot + c + dot + d,
{
    assert(a + dot + (b + dot + (c + dot + d)) =~= a + dot + b + dot + c + dot + d);
}

proof fn parts_join(text: Seq<char>, a: Seq<char>, b: Seq<char>, c: Seq<char>, d: Seq<char>)
    requires
        splits(text, a, b, c, d),
    ensures
        text == a + "."@ + b + "."@ + c + "."@ + d,
{
    let rest = text.subrange(index_of(text, '.') + 1, text.len() as int);
    let tail = rest.subrange(index_of(rest, '.') + 1, rest.len() as int);
    joins_at_dot(text);
    joins_at_dot(rest);
    joins_at_dot(tail);
    regroup(a, b, c, d, "."@);
}

proof fn quad_splits(a: int, b: int, c: int, d: int)
    ensures
        splits(
            dotted_quad(a, b, c, d),
            decimal(a as nat),
            decimal(b as nat),
            decimal(c as nat),
            decimal(d as nat),
        ),
{
    let d0 = decimal(a as nat);
    let d1 = decimal(b as nat);
    let d2 = decimal(c as nat);
    let d3 = decimal(d as nat);
    decimal_reads_back(a as nat);
    decimal_reads_back(b as nat);
    decimal_reads_back(c as nat);
    let tail = d2 + "."@ + d3;
    let rest = d1 + "."@ + tail;
    splits_at_dot(d0, rest);
    splits_at_dot(d1, tail);
    splits_at_dot(d2, d3);
    regroup(d0, d1, d2, d3, "."@);
}

/// Two addresses with one dotted form are one address.
pub proof fn dotted_tells_apart(x: Ipv4Addr, y: Ipv4Addr)
    requires
        x.dotted() == y.dotted(),
    ensures
        x == y,
{
    quad_splits(x.octet(0), x.octet(1), x.octet(2), x.octet(3));
    quad_splits(y.octet(0), y.octet(1), y.octet(2), y.octet(3));
    octets_are_bytes(x);
    octets_are_bytes(y);
    assert forall|i: int| 0 <= i < 4 implies x.octet(i) == y.octet(i) by {
        decimal_reads_back(x.octet(i) as nat);
        decimal_reads_back(y.octet(i) as nat);
        assert(i == 0 || i == 1 || i == 2 || i == 3);
    }
    assert(x.octet(0) == y.octet(0));
    assert(x.octet(1) == y.octet(1));
    assert(x.octet(2) == y.octet(2));
    assert(x.octet(3) == y.octet(3));
}

/// Reads one octet: its decimal numeral and nothing else.
fn parse_octet(s: &str) -> (r: Option<u8>)
    ensures
        r is Some ==> s@ == decimal(r->Some_0 as nat),
        forall|b: u8| s@ == #[trigger] decimal(b as nat) ==> r == Some(b),
{
    let n: usize = s.unicode_len();
    proof {
        assert forall|b: u8| s@ == #[trigger] decimal(b as nat) implies s@.len() <= 3
            && decimal_value(s@) == b && (forall|i: int|
            0 <= i < s@.len() ==> is_digit(#[trigger] s@[i])) by {
            decimal_reads_back(b as nat);
            decimal_is_short(b as nat);
        }
    }
    if n == 0 || n > 3 {
        return None;
    }
    let mut value: u64 = 0;
    let mut i: usize = 0;
    while i < n
        invariant
            n == s@.len(),
            n <= 3,
            i <= n,
            value == decimal_value(s@.take(i as int)),
            i == 0 ==> value == 0,
            i == 1 ==> value <= 9,
            i == 2 ==> value <= 99,
            i == 3 ==> value <= 999,
            forall|b: u8| s@ == #[trigger] decimal(b as nat) ==> (forall|i: int|
                0 <= i < s@.len() ==> is_digit(#[trigger] s@[i])),
        decreases n - i,
    {
        let c = s.get_char(i);
        if c < '0' || c > '9' {
            assert(!is_digit(s@[i as int]));
            return None;
        }
        let d: u32 = c as u32 - '0' as u32;
        value = value * 10 + d as u64;
        assert(s@.take(i + 1).drop_last() =~= s@.take(i as int));
        assert(s@.take(i + 1).last() == c);
        i += 1;
    }
    assert(s@.take(n as int) =~= s@);
    if value > 255 {
        return None;
    }
    if decimal_text(value) == s.to_owned() {
        Some(value as u8)
    } else {
        None
    }
}

/// An IPv4 network: an address and how many of its leading bits name the network.
#[derive(Debug, Clone, Copy, PartialEq, Eq, Structural)]
pub struct Ipv4Net {
    /// The address.
    pub address: Ipv4Addr,
    /// The number of leading bits.
    pub prefix_len: u8,
}

impl Ipv4Net {
    /// `addr` agrees with this network in its leading bits.
    pub open spec fn holds(&self, addr: Ipv4Addr) -> bool {
        &&& self.prefix_len <= 32
        &&& self.address.bits as nat / pow2((32 - self.prefix_len) as nat) == addr.bits as nat
            / pow2((32 - self.prefix_len) as nat)
    }

    /// The printed form, `address/prefix`.
    pub open spec fn printed(&self) -> Seq<char> {
        self.address.dotted() + "/"@ + decimal(self.prefix_len as nat)
    }

    /// The network that is one address.
    pub fn host(address: Ipv4Addr) -> (r: Ipv4Net)
        ensures
            r == (Ipv4Net { address, prefix_len: 32 }),
    {
        Ipv4Net { address, prefix_len: 32 }
    }

    /// Whether `addr` lies in this network.
    pub fn contains(&self, addr: Ipv4Addr) -> (r: bool)
        ensures
            r == self.holds(addr),
    {
        if self.prefix_len > 32 {
            return false;
        }
        let shift: u64 = (32 - self.prefix_len) as u64;
        let own: u64 = self.address.bits as u64;
        let other: u64 = addr.bits as u64;
        proof {
            lemma_u64_shr_is_div(own, shift);
            lemma_u64_shr_is_div(other, shift);
        }
        own >> shift == other >> shift
    }

    /// The printed form, `address/prefix`.
    pub fn text(&self) -> (r: String)
        ensures
            r@ == self.printed(),
    {
        let mut r = self.address.text();
        r.append("/");
        r.append(decimal_text(self.prefix_len as u64).as_str());
        r
    }
}

/// A network holds a block of addresses in a row: as many as the bits that its prefix leaves open
/// tell apart, from its own address on with those bits zero.
pub proof fn a_network_is_a_block_of_addresses(net: Ipv4Net, addr: Ipv4Addr)
    requires
        net.prefix_len <= 32,
    ensures
        ({
            let size = pow2((32 - net.prefix_len) as nat) as int;
            let first = net.address.bits as int - net.address.bits as int % size;
            net.holds(addr) <==> first <= addr.bits < first + size
        }),
{
    let size = pow2((32 - net.prefix_len) as nat) as int;
    lemma_pow2_pos((32 - net.prefix_len) as nat);
    let a = net.address.bits as int;
    let b = addr.bits as int;
    vstd::arithmetic::div_mod::lemma_fundamental_div_mod(a, size);
    vstd::arithmetic::div_mod::lemma_fundamental_div_mod(b, size);
    vstd::arithmetic::div_mod::lemma_mod_bound(a, size);
    vstd::arithmetic::div_mod::lemma_mod_bound(b, size);
    let p = a / size;
    let q = b / size;
    assert(size * p <= b < size * p + size ==> p == q) by (nonlinear_arith)
        requires
            size > 0,
            b == size * q + b % size,
            0 <= b % size < size,
    ;
    assert(p == q ==> size * p == size * q);
}

/// A prefix longer than an address names no network.
pub proof fn a_prefix_fits_in_an_address(net: Ipv4Net, addr: Ipv4Addr)
    requires
        net.prefix_len > 32,
    ensures
        !net.holds(addr),
{
}

/// A network interface, known by its name.
#[derive(Debug, PartialEq, Eq)]
pub struct Interface {
    /// The name.
    pub name: String,
}

impl Interface {
    /// The name.
    pub open spec fn view(&self) -> Seq<char> {
        self.name@
    }

    /// The interface of this name.
    pub fn name(name: &str) -> (r: Interface)
        ensures
            r@ == name@,
    {
        Interface { name: name.to_owned() }
    }

    /// Whether both are the same interface.
    pub fn same(&self, other: &Interface) -> (r: bool)
        ensures
            r == (self@ == other@),
    {
        self.name == other.name
    }
}

impl Clone for Interface {
    fn clone(&self) -> (r: Self)
        ensures
            r == *self,
    {
        Interface { name: self.name.clone() }
    }
}

/// One of several gateways of a route.
#[derive(Debug, PartialEq, Eq)]
pub struct Nexthop {
    /// The gateway.
    pub via: Ipv4Addr,
    /// The interface it is reached on.
    pub dev: Interface,
    /// The stored share; the kernel sends `weight + 1` parts this way.
    pub weight: u8,
}

/// What a [`Nexthop`] says.
pub struct NexthopView {
    /// The gateway.
    pub via: Ipv4Addr,
    /// The interface's name.
    pub dev: Seq<char>,
    /// The stored share.
    pub weight: u8,
}

impl Nexthop {
    /// What it says.
    pub open spec fn view(&self) -> NexthopView {
        NexthopView { via: self.via, dev: self.dev@, weight: self.weight }
    }

    /// Whether both say the same.
    pub fn same(&self, other: &Nexthop) -> (r: bool)
        ensures
            r == (self@ == other@),
    {
        self.via == other.via && self.dev.same(&other.dev) && self.weight == other.weight
    }
}

impl Clone for Nexthop {
    fn clone(&self) -> (r: Self)
        ensures
            r == *self,
    {
        Nexthop { via: self.via, dev: self.dev.clone(), weight: self.weight }
    }
}

/// Where a route leads.
#[derive(Debug, PartialEq, Eq)]
pub enum RouteTarget {
    /// Nowhere: the destination is known and cannot be reached.
    Unreachable,
    /// Straight out of an interface.
    OnLink {
        /// The interface.
        dev: Interface,
    },
    /// Through one gateway.
    Gateway {
        /// The gateway.
        via: Ipv4Addr,
        /// The interface it is reached on.
        dev: Interface,
        /// The source address to prefer.
        src: Option<Ipv4Addr>,
    },
    /// Through several gateways.
    Multipath(Vec<Nexthop>),
}

/// What a [`RouteTarget`] says.
pub enum TargetView {
    /// Nowhere.
    Unreachable,
    /// Straight out of the named interface.
    OnLink {
        /// The interface's name.
        dev: Seq<char>,
    },
    /// Through one gateway.
    Gateway {
        /// The gateway.
        via: Ipv4Addr,
        /// The interface's name.
        dev: Seq<char>,
        /// The source address to prefer.
        src: Option<Ipv4Addr>,
    },
    /// Through several gateways.
    Multipath(Seq<NexthopView>),
}

/// What a list of gateways says.
pub open spec fn nexthop_views(v: Seq<Nexthop>) -> Seq<NexthopView> {
    v.map_values(|n: Nexthop| n@)
}

impl RouteTarget {
    /// What it says.
    pub open spec fn view(&self) -> TargetView {
        match *self {
            RouteTarget::Unreachable => TargetView::Unreachable,
            RouteTarget::OnLink { dev } => TargetView::OnLink { dev: dev@ },
            RouteTarget::Gateway { via, dev, src } => TargetView::Gateway { via, dev: dev@, src },
            RouteTarget::Multipath(nexthops) => TargetView::Multipath(nexthop_views(nexthops@)),
        }
    }

    /// Whether both say the same.
    pub fn same(&self, other: &RouteTarget) -> (r: bool)
        ensures
            r == (self@ == other@),
    {
        match (self, other) {
            (RouteTarget::Unreachable, RouteTarget::Unreachable) => true,
            (RouteTarget::OnLink { dev: a }, RouteTarget::OnLink { dev: b }) => a.same(b),
            (
                RouteTarget::Gateway { via: a, dev: b, src: c },
                RouteTarget::Gateway { via: d, dev: e, src: f },
            ) => *a == *d && b.same(e) && same_source(c, f),
            (RouteTarget::Multipath(a), RouteTarget::Multipath(b)) => same_nexthops(a, b),
            _ => false,
        }
    }
}

fn same_source(a: &Option<Ipv4Addr>, b: &Option<Ipv4Addr>) -> (r: bool)
    ensures
        r == (*a == *b),
{
    match (a, b) {
        (Some(x), Some(y)) => *x == *y,
        (None, None) => true,
        _ => false,
    }
}

fn same_nexthops(a: &Vec<Nexthop>, b: &Vec<Nexthop>) -> (r: bool)
    ensures
        r == (nexthop_views(a@) == nexthop_views(b@)),
{
    let ghost va = nexthop_views(a@);
    let ghost vb = nexthop_views(b@);
    if a.len() != b.len() {
        assert(va.len() != vb.len());
        return false;
    }
    let mut i: usize = 0;
    while i < a.len()
        invariant
            i <= a@.len(),
            a@.len() == b@.len(),
            va == nexthop_views(a@),
            vb == nexthop_views(b@),
            forall|j: int| 0 <= j < i ==> va[j] == vb[j],
        decreases a@.len() - i,
    {
        if !a[i].same(&b[i]) {
            assert(va[i as int] != vb[i as int]);
            return false;
        }
        i += 1;
    }
    assert(va =~= vb);
    true
}

fn copy_nexthops(a: &Vec<Nexthop>) -> (r: Vec<Nexthop>)
    ensures
        r@ == a@,
{
    let mut r: Vec<Nexthop> = Vec::new();
    let mut i: usize = 0;
    while i < a.len()
        invariant
            i <= a@.len(),
            r@ == a@.take(i as int),
        decreases a@.len() - i,
    {
        r.push(a[i].clone());
        assert(a@.take(i + 1) =~= a@.take(i as int).push(a@[i as int]));
        i += 1;
    }
    assert(a@.take(a@.len() as int) =~= a@);
    r
}

impl Clone for RouteTarget {
    fn clone(&self) -> (r: Self)
        ensures
            r@ == self@,
    {
        match self {
            RouteTarget::Unreachable => RouteTarget::Unreachable,
            RouteTarget::OnLink { dev } => RouteTarget::OnLink { dev: dev.clone() },
            RouteTarget::Gateway { via, dev, src } => RouteTarget::Gateway {
                via: *via,
                dev: dev.clone(),
                src: *src,
            },
            RouteTarget::Multipath(nexthops) => RouteTarget::Multipath(copy_nexthops(nexthops)),
        }
    }
}

/// A route as the kernel holds it.
#[derive(Debug, PartialEq, Eq)]
pub struct RouteSpec {
    /// Where to.
    pub destination: Ipv4Net,
    /// In which table.
    pub table: u32,
    /// By which way.
    pub target: RouteTarget,
}

/// What a [`RouteSpec`] says.
pub struct RouteView {
    /// Where to.
    pub destination: Ipv4Net,
    /// In which table.
    pub table: u32,
    /// By which way.
    pub target: TargetView,
}

impl RouteSpec {
    /// What it says.
    pub open spec fn view(&self) -> RouteView {
        RouteView { destination: self.destination, table: self.table, target: self.target@ }
    }

    /// Whether both say the same.
    pub fn same(&self, other: &RouteSpec) -> (r: bool)
        ensures
            r == (self@ == other@),
    {
        self.destination == other.destination && self.table == other.table && self.target.same(
            &other.target,
        )
    }

    /// The key under which the kernel finds the route.
    pub fn key(&self) -> (r: RouteKey)
        ensures
            r == self@.key(),
    {
        RouteKey { destination: self.destination, table: self.table }
    }
}

impl RouteView {
    /// The key under which the kernel finds the route.
    pub open spec fn key(self) -> RouteKey {
        RouteKey { destination: self.destination, table: self.table }
    }
}

impl Clone for RouteSpec {
    fn clone(&self) -> (r: Self)
        ensures
            r@ == self@,
    {
        RouteSpec {
            destination: self.destination,
            table: self.table,
            target: self.target.clone(),
        }
    }
}

/// What names a route in the kernel.
#[derive(Debug, Clone, Copy, PartialEq, Eq, Structural)]
pub struct RouteKey {
    /// Where to.
    pub destination: Ipv4Net,
    /// In which table.
    pub table: u32,
}

/// Which packets a rule speaks of.
#[derive(Debug, Clone, Copy, PartialEq, Eq, Structural)]
pub enum RuleSelector {
    /// All of them.
    Any,
}

/// A rule that sends packets to a routing table.
#[derive(Debug, Clone, Copy, PartialEq, Eq, Structural)]
pub struct RuleSpec {
    /// The table.
    pub table: u32,
    /// The rule's place among the rules.
    pub priority: u32,
    /// The packets it speaks of.
    pub selector: RuleSelector,
}

} // verus!
