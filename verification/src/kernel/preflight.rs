//! The checks before the daemon starts: what the kernel can do, and which interfaces and addresses
//! the host has.
use vstd::prelude::*;
use vstd::string::*;
use crate::net::{Ipv4Addr, Ipv4Net};
use crate::text::{
    ascending_texts, debug_form, debug_text, decimal, decimal_text, holds_text, join, joined,
    sorted_distinct, texts,
};

verus! {

/// What the kernel can do.
#[derive(Debug, Clone, Copy, PartialEq, Eq, Structural)]
pub struct KernelCapabilities {
    /// Several routing tables.
    pub multiple_routing_tables: bool,
    /// Routes with several gateways.
    pub multipath_routes: bool,
}

/// What the kernel lacks.
#[derive(Debug, Clone, Copy, PartialEq, Eq, Structural)]
pub struct UnsupportedKernel {
    /// Several routing tables.
    pub missing_multiple_routing_tables: bool,
    /// Routes with several gateways.
    pub missing_multipath_routes: bool,
}

/// The kernel lacks something that the daemon needs.
#[derive(Debug, Clone, Copy, PartialEq, Eq, Structural)]
pub struct PreflightError(pub UnsupportedKernel);

/// The kernel's capabilities, or what it lacks.
pub fn check(capabilities: KernelCapabilities) -> (r: Result<KernelCapabilities, PreflightError>)
    ensures
        r is Ok <==> capabilities.multiple_routing_tables && capabilities.multipath_routes,
        r is Ok ==> r->Ok_0 == capabilities,
        r is Err ==> r->Err_0 == PreflightError(
            (UnsupportedKernel {
                missing_multiple_routing_tables: !capabilities.multiple_routing_tables,
                missing_multipath_routes: !capabilities.multipath_routes,
            }),
        ),
{
    if capabilities.multiple_routing_tables && capabilities.multipath_routes {
        Ok(capabilities)
    } else {
        Err(
            PreflightError(
                UnsupportedKernel {
                    missing_multiple_routing_tables: !capabilities.multiple_routing_tables,
                    missing_multipath_routes: !capabilities.multipath_routes,
                },
            ),
        )
    }
}

/// The parts of a message about what is missing, one for each thing.
pub open spec fn parts(first: bool, a: Seq<char>, second: bool, b: Seq<char>) -> Seq<Seq<char>> {
    (if first {
        seq![a]
    } else {
        Seq::empty()
    }) + (if second {
        seq![b]
    } else {
        Seq::empty()
    })
}

/// Each thing that is missing has its part in the message, in their order, and nothing else has.
pub proof fn each_missing_thing_is_named(first: bool, a: Seq<char>, second: bool, b: Seq<char>)
    ensures
        parts(first, a, second, b).len() == (if first {
            1int
        } else {
            0
        }) + (if second {
            1int
        } else {
            0
        }),
        first ==> parts(first, a, second, b).first() == a,
        second ==> parts(first, a, second, b).last() == b,
{
}

fn join_parts(first: bool, a: &str, second: bool, b: &str, separator: &str) -> (r: String)
    ensures
        r@ == joined(parts(first, a@, second, b@), separator@),
{
    let mut list: Vec<String> = Vec::new();
    if first {
        list.push(a.to_owned());
    }
    if second {
        list.push(b.to_owned());
    }
    assert(texts(list@) =~= parts(first, a@, second, b@));
    join(&list, separator)
}

impl PreflightError {
    /// What an operator must enable, by the names that a kernel's configuration has for it.
    pub open spec fn remedy_text(&self) -> Seq<char> {
        joined(
            parts(
                self.0.missing_multiple_routing_tables,
                "CONFIG_IP_MULTIPLE_TABLES in the running kernel (rebuild/reboot into a kernel built with it; most distro kernels already enable it)"@,
                self.0.missing_multipath_routes,
                "IP_ROUTE_MULTIPATH support (CONFIG_IP_ROUTE_MULTIPATH at build time; if already built in, check `sysctl net.ipv4.fib_multipath_hash_policy` exists)"@,
            ),
            " and "@,
        )
    }

    /// The message for an operator.
    pub open spec fn printed(&self) -> Seq<char> {
        "the running kernel does not support "@ + joined(
            parts(
                self.0.missing_multiple_routing_tables,
                "multiple routing tables"@,
                self.0.missing_multipath_routes,
                "multipath routes"@,
            ),
            " or "@,
        ) + "; enable "@ + self.remedy_text()
    }

    /// What an operator must enable, by the names that a kernel's configuration has for it.
    pub fn remedy(&self) -> (r: String)
        ensures
            r@ == self.remedy_text(),
    {
        join_parts(
            self.0.missing_multiple_routing_tables,
            "CONFIG_IP_MULTIPLE_TABLES in the running kernel (rebuild/reboot into a kernel built with it; most distro kernels already enable it)",
            self.0.missing_multipath_routes,
            "IP_ROUTE_MULTIPATH support (CONFIG_IP_ROUTE_MULTIPATH at build time; if already built in, check `sysctl net.ipv4.fib_multipath_hash_policy` exists)",
            " and ",
        )
    }

    /// The message for an operator.
    pub fn message(&self) -> (r: String)
        ensures
            r@ == self.printed(),
    {
        let mut r = String::from_str("the running kernel does not support ");
        r.append(
            join_parts(
                self.0.missing_multiple_routing_tables,
                "multiple routing tables",
                self.0.missing_multipath_routes,
                "multipath routes",
                " or ",
            ).as_str(),
        );
        r.append("; enable ");
        r.append(self.remedy().as_str());
        r
    }
}

/// The configured interfaces could not be found.
#[derive(Debug, PartialEq, Eq)]
pub enum MissingNics {
    /// The host's interfaces could not be listed.
    Query(String),
    /// Some do not exist.
    NotFound {
        /// The configured ones that do not exist, in order and once each.
        missing: Vec<String>,
        /// Those that do, in order and once each.
        available: Vec<String>,
    },
}

/// The quoted forms of the texts.
pub open spec fn quoted(s: Seq<Seq<char>>) -> Seq<Seq<char>> {
    s.map_values(|t: Seq<char>| debug_form(t))
}

impl MissingNics {
    /// The message for an operator.
    pub open spec fn printed(&self) -> Seq<char> {
        match *self {
            MissingNics::Query(reason) => "failed to list kernel interfaces: "@ + reason@,
            MissingNics::NotFound { missing, available } => "configured "@ + (if missing@.len()
                == 1 {
                "interface"@
            } else {
                "interfaces"@
            }) + " "@ + joined(quoted(texts(missing@)), ", "@) + " "@ + (if missing@.len() == 1 {
                "does"@
            } else {
                "do"@
            }) + " not exist; available interfaces: "@ + joined(texts(available@), ", "@)
                + " — fix `nics` in the ntkd config"@,
        }
    }

    /// The message for an operator.
    pub fn message(&self) -> (r: String)
        ensures
            r@ == self.printed(),
    {
        match self {
            MissingNics::Query(reason) => {
                let mut r = String::from_str("failed to list kernel interfaces: ");
                r.append(reason.as_str());
                r
            },
            MissingNics::NotFound { missing, available } => {
                let mut list: Vec<String> = Vec::new();
                let mut i: usize = 0;
                while i < missing.len()
                    invariant
                        i <= missing@.len(),
                        list@.len() == i,
                        forall|j: int|
                            0 <= j < i ==> (#[trigger] list@[j])@ == debug_form(missing@[j]@),
                    decreases missing@.len() - i,
                {
                    list.push(debug_text(missing[i].as_str()));
                    i += 1;
                }
                assert(texts(list@) =~= quoted(texts(missing@)));
                let one = missing.len() == 1;
                let mut r = String::from_str("configured ");
                r.append(
                    if one {
                        "interface"
                    } else {
                        "interfaces"
                    },
                );
                r.append(" ");
                r.append(join(&list, ", ").as_str());
                r.append(" ");
                r.append(
                    if one {
                        "does"
                    } else {
                        "do"
                    },
                );
                r.append(" not exist; available interfaces: ");
                r.append(join(available, ", ").as_str());
                r.append(" — fix `nics` in the ntkd config");
                r
            },
        }
    }
}

/// The configured interfaces that the host does not have.
pub open spec fn absent(nics: Seq<Seq<char>>, links: Seq<Seq<char>>) -> Set<Seq<char>> {
    Set::new(|t: Seq<char>| nics.contains(t) && !links.contains(t))
}

/// Whether every configured interface exists, given the names of the host's interfaces (or why they
/// could not be listed). Nothing is asked of the host where none is configured.
pub fn check_nics(links: Result<Vec<String>, String>, nics: &Vec<String>) -> (r: Result<
    (),
    MissingNics,
>)
    ensures
        nics@.len() == 0 ==> r is Ok,
        nics@.len() > 0 && links is Err ==> r is Err && r->Err_0 is Query && r->Err_0->Query_0@
            == links->Err_0@,
        nics@.len() > 0 && links is Ok ==> {
            let gone = absent(texts(nics@), texts(links->Ok_0@));
            &&& r is Ok <==> gone == Set::<Seq<char>>::empty()
            &&& r is Err ==> r->Err_0 is NotFound && ({
                let missing = texts(r->Err_0->missing@);
                let available = texts(r->Err_0->available@);
                &&& ascending_texts(missing)
                &&& missing.to_set() == gone
                &&& ascending_texts(available)
                &&& available.to_set() == texts(links->Ok_0@).to_set()
            })
        },
{
    if nics.len() == 0 {
        return Ok(());
    }
    let links = match links {
        Ok(links) => links,
        Err(reason) => {
            return Err(MissingNics::Query(reason));
        },
    };
    let available = sorted_distinct(&links);
    let mut gone: Vec<String> = Vec::new();
    let ghost wanted = texts(nics@);
    let ghost present = texts(links@);
    let mut i: usize = 0;
    while i < nics.len()
        invariant
            i <= nics@.len(),
            wanted == texts(nics@),
            present == texts(links@),
            texts(available@).to_set() == present.to_set(),
            forall|t: Seq<char>| #[trigger]
                texts(gone@).contains(t) <==> wanted.take(i as int).contains(t) && !present.contains(t),
        decreases nics@.len() - i,
    {
        let ghost before = texts(gone@);
        proof {
            let t = nics@[i as int]@;
            assert(texts(available@).contains(t) == texts(available@).to_set().contains(t));
            assert(present.contains(t) == present.to_set().contains(t));
        }
        let found = holds_text(&available, &nics[i]);
        if !found {
            gone.push(nics[i].clone());
        }
        proof {
            let t = nics@[i as int]@;
            let taken = wanted.take(i as int);
            let grown = wanted.take(i + 1);
            assert(grown =~= taken.push(t));
            if !found {
                assert(texts(gone@) =~= before.push(t));
            }
            assert forall|x: Seq<char>| #[trigger] texts(gone@).contains(x) <==> grown.contains(x)
                && !present.contains(x) by {
                pushed_contains(taken, t, x);
                if !found {
                    pushed_contains(before, t, x);
                }
            }
        }
        i += 1;
    }
    assert(wanted.take(wanted.len() as int) =~= wanted);
    let missing = sorted_distinct(&gone);
    proof {
        assert(texts(gone@).to_set() =~= absent(wanted, present));
        if missing@.len() == 0 {
            assert(texts(missing@).to_set() =~= Set::empty());
        } else {
            assert(texts(missing@).contains(texts(missing@)[0]));
            assert(texts(missing@).to_set().contains(texts(missing@)[0]));
        }
    }
    if missing.len() == 0 {
        Ok(())
    } else {
        Err(MissingNics::NotFound { missing, available })
    }
}

proof fn pushed_contains(s: Seq<Seq<char>>, t: Seq<char>, x: Seq<char>)
    ensures
        s.push(t).contains(x) <==> s.contains(x) || x == t,
{
    if s.contains(x) {
        let i = choose|i: int| 0 <= i < s.len() && s[i] == x;
        assert(s.push(t)[i] == x);
    }
    assert(s.push(t)[s.len() as int] == t);
    if s.push(t).contains(x) && x != t {
        let i = choose|i: int| 0 <= i < s.push(t).len() && s.push(t)[i] == x;
        assert(s[i] == x);
    }
}

/// All the addresses that Netsukuku hands out: `10.0.0.0/8`.
pub fn netsukuku_address_space() -> (r: Ipv4Net)
    ensures
        r == (Ipv4Net { address: Ipv4Addr { bits: 0xa00_0000 }, prefix_len: 8 }),
{
    Ipv4Net { address: Ipv4Addr { bits: 0xa00_0000 }, prefix_len: 8 }
}

/// An address of the host, on the interface of this number.
#[derive(Debug, Clone, Copy, PartialEq, Eq, Structural)]
pub struct AddressEntry {
    /// The address and its network.
    pub network: Ipv4Net,
    /// The interface's number.
    pub interface_index: u32,
}

impl AddressEntry {
    /// How a warning names it.
    pub open spec fn printed(&self) -> Seq<char> {
        self.network.printed() + " (ifindex "@ + decimal(self.interface_index as nat) + ")"@
    }
}

/// The names of the addresses inside Netsukuku's space, in their order.
pub open spec fn conflicts(entries: Seq<AddressEntry>) -> Seq<Seq<char>>
    decreases entries.len(),
{
    if entries.len() == 0 {
        Seq::empty()
    } else {
        let before = conflicts(entries.drop_last());
        let entry = entries.last();
        if (Ipv4Net { address: Ipv4Addr { bits: 0xa00_0000 }, prefix_len: 8 }).holds(
            entry.network.address,
        ) {
            before.push(entry.printed())
        } else {
            before
        }
    }
}

/// The addresses that a warning names are those whose first octet is ten, each as often as the host
/// has it, and in their order.
pub proof fn just_the_addresses_in_the_space_conflict(entries: Seq<AddressEntry>) -> (from: Seq<int>)
    ensures
        conflicts(entries).len() == from.len(),
        forall|k: int|
            0 <= k < from.len() ==> 0 <= #[trigger] from[k] < entries.len()
                && entries[from[k]].network.address.octet(0) == 10 && conflicts(entries)[k]
                == entries[from[k]].printed(),
        forall|j: int, k: int| 0 <= j < k < from.len() ==> from[j] < from[k],
        forall|i: int|
            0 <= i < entries.len() && (#[trigger] entries[i]).network.address.octet(0) == 10
                ==> from.contains(i),
    decreases entries.len(),
{
    if entries.len() == 0 {
        Seq::empty()
    } else {
        let n = entries.len() - 1;
        let front = entries.drop_last();
        let before = just_the_addresses_in_the_space_conflict(front);
        let address = entries.last().network.address;
        vstd::arithmetic::power2::lemma2_to64();
        let n_bits = address.bits as int;
        assert(n_bits / 256 / 256 / 256 == n_bits / 0x100_0000);
        assert((32 - 8u8) as nat == 24);
        assert(vstd::arithmetic::power2::pow2(24) == 0x100_0000);
        assert(0xa00_0000u32 as nat / 0x100_0000 == 10);
        assert((Ipv4Net { address: Ipv4Addr { bits: 0xa00_0000 }, prefix_len: 8 }).holds(address)
            <==> address.octet(0) == 10);
        let from = if address.octet(0) == 10 {
            before.push(n)
        } else {
            before
        };
        assert forall|k: int| 0 <= k < from.len() implies 0 <= #[trigger] from[k] < entries.len()
            && entries[from[k]].network.address.octet(0) == 10 && conflicts(entries)[k]
            == entries[from[k]].printed() by {
            if k < before.len() {
                assert(before[k] == from[k]);
                assert(front[from[k]] == entries[from[k]]);
            }
        }
        assert forall|i: int| 0 <= i < entries.len() && (
        #[trigger] entries[i]).network.address.octet(0) == 10 implies from.contains(i) by {
            if i < n {
                assert(front[i] == entries[i]);
                assert(before.contains(i));
                let k = choose|k: int| 0 <= k < before.len() && before[k] == i;
                assert(from[k] == i);
            } else {
                assert(from[before.len() as int] == n);
            }
        }
        from
    }
}

/// An interface is missing exactly if it is configured and the host has none of its name.
pub proof fn configured_interfaces_are_there_or_missing(
    nics: Seq<Seq<char>>,
    links: Seq<Seq<char>>,
    i: int,
    name: Seq<char>,
)
    requires
        0 <= i < nics.len(),
    ensures
        absent(nics, links).contains(nics[i]) <==> forall|k: int|
            0 <= k < links.len() ==> #[trigger] links[k] != nics[i],
        absent(nics, links).contains(name) ==> exists|k: int|
            0 <= k < nics.len() && #[trigger] nics[k] == name,
{
}

/// The list of the host's addresses inside Netsukuku's space, for a warning; nothing where there is
/// none.
pub fn warn_address_space_conflicts(entries: &Vec<AddressEntry>) -> (r: Option<String>)
    ensures
        r is Some <==> conflicts(entries@).len() > 0,
        r is Some ==> r->Some_0@ == joined(conflicts(entries@), ", "@),
{
    let space = netsukuku_address_space();
    let mut list: Vec<String> = Vec::new();
    let mut i: usize = 0;
    assert(texts(list@) =~= conflicts(entries@.take(0)));
    while i < entries.len()
        invariant
            i <= entries@.len(),
            space == (Ipv4Net { address: Ipv4Addr { bits: 0xa00_0000 }, prefix_len: 8 }),
            texts(list@) == conflicts(entries@.take(i as int)),
        decreases entries@.len() - i,
    {
        let entry = &entries[i];
        let ghost before = texts(list@);
        assert(entries@.take(i + 1).drop_last() =~= entries@.take(i as int));
        if space.contains(entry.network.address) {
            let mut name = entry.network.text();
            name.append(" (ifindex ");
            name.append(decimal_text(entry.interface_index as u64).as_str());
            name.append(")");
            list.push(name);
            assert(texts(list@) =~= before.push(entry.printed()));
        }
        i += 1;
    }
    assert(entries@.take(entries@.len() as int) =~= entries@);
    if list.len() == 0 {
        None
    } else {
        Some(join(&list, ", "))
    }
}

} // verus!
