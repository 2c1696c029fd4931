//! What a running daemon tells of itself, and what it can be asked.
use std::collections::HashMap;
use vstd::prelude::*;
use vstd::string::*;
use crate::clock::{since_epoch, whole_seconds};
use crate::kernel::addressing::{host_address, packing};
use crate::net::Ipv4Addr;
use crate::node::registry::{EntryView, LinkRegistry};
use crate::qspn::{all_entries, RouteEntry, RouteSnapshot};
use crate::space::Naddr;
use crate::text::{
    debug_form, debug_text, find_char, index_of, index_of_is_first, is_white_space, same_text, trim,
    trimmed, trimmed_back, trimmed_front, trimming_takes_the_white_space_around,
};

verus! {

/// What is told of one arc.
#[derive(Debug, PartialEq, Eq)]
pub struct ArcStatus {
    /// The neighbour's hardware address.
    pub mac: String,
    /// The interface.
    pub dev: String,
    /// How the neighbourhood sees it.
    pub state: String,
    /// What it costs, once that is measured.
    pub cost: Option<String>,
    /// Whether the routing protocol uses it.
    pub qspn_linked: bool,
    /// How far hooking has come with it.
    pub hooking_phase: Option<String>,
}

/// What an [`ArcStatus`] says.
pub struct ArcStatusView {
    /// The neighbour's hardware address.
    pub mac: Seq<char>,
    /// The interface.
    pub dev: Seq<char>,
    /// How the neighbourhood sees it.
    pub state: Seq<char>,
    /// What it costs.
    pub cost: Option<Seq<char>>,
    /// Whether the routing protocol uses it.
    pub qspn_linked: bool,
    /// How far hooking has come with it.
    pub hooking_phase: Option<Seq<char>>,
}

/// The text of an optional string.
pub open spec fn text_of(s: Option<String>) -> Option<Seq<char>> {
    match s {
        Some(s) => Some(s@),
        None => None,
    }
}

impl ArcStatus {
    /// What it says.
    pub open spec fn view(&self) -> ArcStatusView {
        ArcStatusView {
            mac: self.mac@,
            dev: self.dev@,
            state: self.state@,
            cost: text_of(self.cost),
            qspn_linked: self.qspn_linked,
            hooking_phase: text_of(self.hooking_phase),
        }
    }
}

/// What a daemon tells of itself.
#[derive(Debug, PartialEq, Eq)]
pub struct StatusReport {
    /// The main identity.
    pub main_identity: u64,
    /// How many identities there are.
    pub identity_count: usize,
    /// The arcs.
    pub arcs: Vec<ArcStatus>,
    /// How many destinations are known.
    pub route_destinations: usize,
    /// Whether routing has settled.
    pub bootstrapped: bool,
    /// Whether the identity has a place.
    pub hooked: bool,
    /// The routing table.
    pub route_table: u32,
    /// How many links there are.
    pub known_links: usize,
    /// How many participants are known, over all services.
    pub peer_participants: usize,
    /// How many places are reserved, over all levels.
    pub coordinator_reservations: usize,
    /// How many hostnames are kept here.
    pub andna_hosted_hostnames: usize,
}

/// An arc as the neighbourhood tells of it.
#[derive(Debug, PartialEq, Eq)]
pub struct ArcFacts {
    /// The neighbour's hardware address.
    pub neighbour_mac: String,
    /// The interface.
    pub my_dev: String,
    /// How the neighbourhood sees it.
    pub state: String,
    /// What it costs, once that is measured.
    pub cost: Option<String>,
}

/// What the other parts of a daemon tell.
#[derive(Debug, PartialEq, Eq)]
pub struct NodeFacts {
    /// The main identity.
    pub main_identity: u64,
    /// How many identities there are.
    pub identity_count: usize,
    /// Whether the identity has a place.
    pub hooked: bool,
    /// The routing table.
    pub route_table: u32,
    /// How many participants are known, service by service.
    pub participants: Vec<usize>,
    /// How many places are reserved, level by level.
    pub reservations: Vec<usize>,
    /// How many hostnames are kept here.
    pub hosted_hostnames: usize,
}

/// What is told of one arc: what the registry knows of it counts, and what the neighbourhood tells
/// where the registry does not know it.
pub open spec fn arc_status(
    arc: ArcFacts,
    links: Map<Seq<char>, EntryView>,
    phases: Map<u64, String>,
) -> ArcStatusView {
    let mac = arc.neighbour_mac@;
    if links.contains_key(mac) {
        let entry = links[mac];
        ArcStatusView {
            mac: entry.mac,
            dev: entry.dev,
            state: arc.state@,
            cost: text_of(arc.cost),
            qspn_linked: entry.qspn_arc is Some,
            hooking_phase: if phases.contains_key(entry.id.0) {
                Some(phases[entry.id.0]@)
            } else {
                None
            },
        }
    } else {
        ArcStatusView {
            mac,
            dev: arc.my_dev@,
            state: arc.state@,
            cost: text_of(arc.cost),
            qspn_linked: false,
            hooking_phase: None,
        }
    }
}

/// The sum of these numbers.
pub open spec fn total(numbers: Seq<usize>) -> nat
    decreases numbers.len(),
{
    if numbers.len() == 0 {
        0
    } else {
        total(numbers.drop_last()) + numbers.last() as nat
    }
}

proof fn total_grows(numbers: Seq<usize>, i: int)
    requires
        0 <= i <= numbers.len(),
    ensures
        total(numbers.take(i)) <= total(numbers),
    decreases numbers.len(),
{
    if i == numbers.len() {
        assert(numbers.take(i) =~= numbers);
    } else {
        total_grows(numbers.drop_last(), i);
        assert(numbers.drop_last().take(i) =~= numbers.take(i));
    }
}

fn sum(numbers: &Vec<usize>) -> (r: Option<usize>)
    ensures
        r is Some <==> total(numbers@) <= usize::MAX,
        r is Some ==> r->Some_0 == total(numbers@),
{
    let mut r: usize = 0;
    let mut i: usize = 0;
    while i < numbers.len()
        invariant
            i <= numbers@.len(),
            r == total(numbers@.take(i as int)),
        decreases numbers@.len() - i,
    {
        proof {
            total_grows(numbers@, i + 1);
            assert(numbers@.take(i + 1).drop_last() =~= numbers@.take(i as int));
        }
        match r.checked_add(numbers[i]) {
            Some(more) => {
                r = more;
            },
            None => {
                return None;
            },
        }
        i += 1;
    }
    assert(numbers@.take(numbers@.len() as int) =~= numbers@);
    Some(r)
}

proof fn entries_grow(levels: Seq<Vec<RouteEntry>>, i: int)
    requires
        0 <= i <= levels.len(),
    ensures
        all_entries(levels.take(i)).len() <= all_entries(levels).len(),
    decreases levels.len(),
{
    if i == levels.len() {
        assert(levels.take(i) =~= levels);
    } else {
        entries_grow(levels.drop_last(), i);
        assert(levels.drop_last().take(i) =~= levels.take(i));
    }
}

fn count_destinations(snapshot: &RouteSnapshot) -> (r: Option<usize>)
    ensures
        r is Some <==> all_entries(snapshot.levels@).len() <= usize::MAX,
        r is Some ==> r->Some_0 == all_entries(snapshot.levels@).len(),
{
    let mut r: usize = 0;
    let mut i: usize = 0;
    while i < snapshot.levels.len()
        invariant
            i <= snapshot.levels@.len(),
            r == all_entries(snapshot.levels@.take(i as int)).len(),
        decreases snapshot.levels@.len() - i,
    {
        proof {
            entries_grow(snapshot.levels@, i + 1);
            assert(snapshot.levels@.take(i + 1).drop_last() =~= snapshot.levels@.take(i as int));
        }
        match r.checked_add(snapshot.levels[i].len()) {
            Some(more) => {
                r = more;
            },
            None => {
                return None;
            },
        }
        i += 1;
    }
    assert(snapshot.levels@.take(snapshot.levels@.len() as int) =~= snapshot.levels@);
    Some(r)
}

fn optional_copy(s: &Option<String>) -> (r: Option<String>)
    ensures
        text_of(r) == text_of(*s),
{
    match s {
        Some(s) => Some(s.clone()),
        None => None,
    }
}

fn report_arc(arc: &ArcFacts, registry: &LinkRegistry, phases: &HashMap<u64, String>) -> (r:
    ArcStatus)
    ensures
        r@ == arc_status(*arc, registry.links(), phases@),
{
    let entry = match registry.link_for_dev_and_mac(arc.neighbour_mac.as_str()) {
        Some(link) => {
            assert(registry.knows(link));
            registry.entry(link)
        },
        None => None,
    };
    match entry {
        Some(entry) => {
            let hooking_phase = match phases.get(&entry.id.hooking()) {
                Some(phase) => Some(phase.clone()),
                None => None,
            };
            ArcStatus {
                mac: entry.mac,
                dev: entry.dev,
                state: arc.state.clone(),
                cost: optional_copy(&arc.cost),
                qspn_linked: entry.qspn_arc.is_some(),
                hooking_phase,
            }
        },
        None => ArcStatus {
            mac: arc.neighbour_mac.clone(),
            dev: arc.my_dev.clone(),
            state: arc.state.clone(),
            cost: optional_copy(&arc.cost),
            qspn_linked: false,
            hooking_phase: None,
        },
    }
}

/// What is told of an arc's state and cost is what the neighbourhood tells of it. It is told as
/// taken up exactly where the registry notes an arc of the routing protocol for it, and with the
/// phase that hooking has for its link; of an arc that the registry does not know, neither is told.
pub proof fn an_arc_is_told_as_it_is_known(
    arc: ArcFacts,
    links: Map<Seq<char>, EntryView>,
    phases: Map<u64, String>,
)
    ensures
        ({
            let told = arc_status(arc, links, phases);
            let mac = arc.neighbour_mac@;
            let known = links.contains_key(mac);
            let link = links[mac].id.0;
            &&& told.state == arc.state@
            &&& arc.cost is None ==> told.cost is None
            &&& arc.cost is Some ==> told.cost == Some(arc.cost->Some_0@)
            &&& told.mac == (if known { links[mac].mac } else { mac })
            &&& told.dev == (if known { links[mac].dev } else { arc.my_dev@ })
            &&& told.qspn_linked <==> known && links[mac].qspn_arc is Some
            &&& told.hooking_phase is Some <==> known && phases.contains_key(link)
            &&& told.hooking_phase is Some ==> told.hooking_phase->Some_0 == phases[link]@
        }),
{
}

/// A sum counts every number once: that of two lists in a row is the sum of both, that of one number
/// is the number, and that of none is zero.
pub proof fn a_sum_counts_every_number(a: Seq<usize>, b: Seq<usize>, n: usize)
    ensures
        total(Seq::empty()) == 0,
        total(seq![n]) == n,
        total(a + b) == total(a) + total(b),
    decreases b.len(),
{
    assert(seq![n].drop_last() =~= Seq::empty());
    assert(total(seq![n].drop_last()) == 0);
    if b.len() == 0 {
        assert(a + b =~= a);
    } else {
        a_sum_counts_every_number(a, b.drop_last(), n);
        assert((a + b).drop_last() =~= a + b.drop_last());
        assert((a + b).last() == b.last());
    }
}

/// What a daemon tells of itself, from what its parts tell; nothing where a sum does not fit.
pub fn report(
    facts: &NodeFacts,
    arcs: &Vec<ArcFacts>,
    registry: &LinkRegistry,
    phases: &HashMap<u64, String>,
    snapshot: &RouteSnapshot,
    bootstrapped: bool,
) -> (r: Option<StatusReport>)
    ensures
        r is Some <==> total(facts.participants@) <= usize::MAX && total(facts.reservations@)
            <= usize::MAX && all_entries(snapshot.levels@).len() <= usize::MAX,
        r is Some ==> {
            let told = r->Some_0;
            &&& told.main_identity == facts.main_identity
            &&& told.identity_count == facts.identity_count
            &&& told.arcs@.len() == arcs@.len()
            &&& forall|i: int|
                0 <= i < arcs@.len() ==> (#[trigger] told.arcs@[i])@ == arc_status(
                    arcs@[i],
                    registry.links(),
                    phases@,
                )
            &&& told.route_destinations == all_entries(snapshot.levels@).len()
            &&& told.bootstrapped == bootstrapped
            &&& told.hooked == facts.hooked
            &&& told.route_table == facts.route_table
            &&& told.known_links == registry.links().dom().len()
            &&& told.peer_participants == total(facts.participants@)
            &&& told.coordinator_reservations == total(facts.reservations@)
            &&& told.andna_hosted_hostnames == facts.hosted_hostnames
        },
{
    let mut told: Vec<ArcStatus> = Vec::new();
    let mut i: usize = 0;
    while i < arcs.len()
        invariant
            i <= arcs@.len(),
            told@.len() == i,
            forall|j: int|
                0 <= j < i ==> (#[trigger] told@[j])@ == arc_status(
                    arcs@[j],
                    registry.links(),
                    phases@,
                ),
        decreases arcs@.len() - i,
    {
        told.push(report_arc(&arcs[i], registry, phases));
        i += 1;
    }
    let sums = (count_destinations(snapshot), sum(&facts.participants), sum(&facts.reservations));
    match sums {
        (Some(route_destinations), Some(peer_participants), Some(coordinator_reservations)) => Some(
            StatusReport {
                main_identity: facts.main_identity,
                identity_count: facts.identity_count,
                arcs: told,
                route_destinations,
                bootstrapped,
                hooked: facts.hooked,
                route_table: facts.route_table,
                known_links: registry.len(),
                peer_participants,
                coordinator_reservations,
                andna_hosted_hostnames: facts.hosted_hostnames,
            },
        ),
        _ => None,
    }
}

/// What a daemon answers to a hostname's registration.
#[derive(Debug, PartialEq, Eq)]
pub struct AndnaRegisterReply {
    /// The hostname.
    pub hostname: String,
    /// What came of it.
    pub outcome: String,
    /// When it lapses, in seconds since the epoch.
    pub expires_unix: Option<u64>,
}

/// One of the things that a hostname stands for.
#[derive(Debug, PartialEq, Eq)]
pub struct ResolvedTarget {
    /// The thing.
    pub target: String,
    /// Its address, where it is a node.
    pub ipv4: Option<Ipv4Addr>,
}

/// What a daemon answers to a hostname's resolution.
#[derive(Debug, PartialEq, Eq)]
pub struct AndnaResolveReply {
    /// The hostname.
    pub hostname: String,
    /// What it stands for.
    pub addresses: Vec<ResolvedTarget>,
    /// How long that holds, in seconds, where it is known.
    pub ttl_secs: Option<u64>,
}

/// What a daemon answers when it cannot do what it was asked.
#[derive(Debug, PartialEq, Eq)]
pub struct ErrorReply {
    /// Why.
    pub error: String,
}

/// What came of a registration.
#[derive(Debug, Clone, Copy, PartialEq, Eq, Structural)]
pub enum RegisterOutcome {
    /// The hostname is new.
    Registered {
        /// When it lapses.
        expires_at: u64,
    },
    /// It was there already, and lapses later now.
    Renewed {
        /// When it lapses.
        expires_at: u64,
    },
}

/// Why a hostname cannot be registered, if it cannot: it is none, or there is no key to own it.
pub fn register_refusal(hostname: &Result<String, String>, andna_key_path: Option<&str>) -> (r:
    Option<String>)
    ensures
        match *hostname {
            Err(reason) => r is Some && r->Some_0@ == reason@,
            Ok(_) => if andna_key_path is None {
                r is Some && r->Some_0@
                    == "andna_key_path is not configured; ANDNA registration is refused"@
            } else {
                r is None
            },
        },
{
    match hostname {
        Err(reason) => Some(reason.clone()),
        Ok(_) => match andna_key_path {
            None => Some(
                String::from_str(
                    "andna_key_path is not configured; ANDNA registration is refused",
                ),
            ),
            Some(_) => None,
        },
    }
}

/// The answer to a registration.
pub fn register_reply(hostname: &str, outcome: RegisterOutcome) -> (r: AndnaRegisterReply)
    ensures
        r.hostname@ == hostname@,
        match outcome {
            RegisterOutcome::Registered { expires_at } => r.outcome@ == "registered"@
                && r.expires_unix == Some(expires_at),
            RegisterOutcome::Renewed { expires_at } => r.outcome@ == "renewed"@ && r.expires_unix
                == Some(expires_at),
        },
{
    match outcome {
        RegisterOutcome::Registered { expires_at } => AndnaRegisterReply {
            hostname: hostname.to_owned(),
            outcome: String::from_str("registered"),
            expires_unix: Some(expires_at),
        },
        RegisterOutcome::Renewed { expires_at } => AndnaRegisterReply {
            hostname: hostname.to_owned(),
            outcome: String::from_str("renewed"),
            expires_unix: Some(expires_at),
        },
    }
}

/// What a hostname stands for.
#[derive(Debug)]
pub enum SnsdTarget {
    /// A node.
    Address {
        /// Its place.
        naddr: Naddr,
        /// Its place in words.
        text: String,
    },
    /// Another hostname.
    Alias(String),
}

/// The thing, with its address where it is a node whose place has one.
pub open spec fn is_resolved(r: ResolvedTarget, target: SnsdTarget) -> bool {
    match target {
        SnsdTarget::Address { naddr, text } => {
            &&& r.target@ == text@
            &&& r.ipv4 == match packing(naddr.gsizes(), 0, naddr@) {
                Ok(net) => Some(net.address),
                Err(_) => None,
            }
        },
        SnsdTarget::Alias(alias) => r.target@ == alias@ && r.ipv4 is None,
    }
}

fn resolved(target: &SnsdTarget) -> (r: ResolvedTarget)
    ensures
        is_resolved(r, *target),
{
    match target {
        SnsdTarget::Address { naddr, text } => ResolvedTarget {
            target: text.clone(),
            ipv4: match host_address(naddr) {
                Ok(net) => Some(net.address),
                Err(_) => None,
            },
        },
        SnsdTarget::Alias(alias) => ResolvedTarget { target: alias.clone(), ipv4: None },
    }
}

/// Whatever a hostname stands for is told in its own words. Another hostname has no address; a node
/// has the one that its place is packed into, and none where its place has none.
pub proof fn only_nodes_have_addresses(r: ResolvedTarget, target: SnsdTarget)
    requires
        is_resolved(r, target),
    ensures
        target is Alias ==> r.target@ == target->Alias_0@ && r.ipv4 is None,
        target is Address ==> {
            let place = packing(target->naddr.gsizes(), 0, target->naddr@);
            &&& r.target@ == target->text@
            &&& r.ipv4 is Some <==> place is Ok
            &&& r.ipv4 is Some ==> r.ipv4->Some_0 == place->Ok_0.address
        },
{
}

/// The answer to a resolution.
pub fn resolve_reply(hostname: &str, targets: &Vec<SnsdTarget>) -> (r: AndnaResolveReply)
    ensures
        r.hostname@ == hostname@,
        r.addresses@.len() == targets@.len(),
        forall|i: int|
            0 <= i < targets@.len() ==> is_resolved(#[trigger] r.addresses@[i], targets@[i]),
        r.ttl_secs is None,
{
    let mut addresses: Vec<ResolvedTarget> = Vec::new();
    let mut i: usize = 0;
    while i < targets.len()
        invariant
            i <= targets@.len(),
            addresses@.len() == i,
            forall|j: int| 0 <= j < i ==> is_resolved(#[trigger] addresses@[j], targets@[j]),
        decreases targets@.len() - i,
    {
        addresses.push(resolved(&targets[i]));
        i += 1;
    }
    AndnaResolveReply { hostname: hostname.to_owned(), addresses, ttl_secs: None }
}

/// What a daemon is asked.
#[derive(Debug, PartialEq, Eq)]
pub enum Request {
    /// How it is.
    Status,
    /// To register a hostname.
    Register(String),
    /// To resolve a hostname.
    Resolve(String),
    /// Something that it does not understand.
    Unrecognized(String),
}

/// What a [`Request`] says.
pub enum AskedView {
    /// How it is.
    Status,
    /// To register a hostname.
    Register(Seq<char>),
    /// To resolve a hostname.
    Resolve(Seq<char>),
    /// Something that it does not understand.
    Unrecognized(Seq<char>),
}

impl Request {
    /// What it says.
    pub open spec fn view(&self) -> AskedView {
        match *self {
            Request::Status => AskedView::Status,
            Request::Register(h) => AskedView::Register(h@),
            Request::Resolve(h) => AskedView::Resolve(h@),
            Request::Unrecognized(line) => AskedView::Unrecognized(line@),
        }
    }
}

/// What a line asks: its first word, and the rest of it without the white space around.
pub open spec fn asked(line: Seq<char>) -> AskedView {
    let request = trimmed(line);
    let space = index_of(request, ' ');
    let command = request.take(space);
    let arg = if space < request.len() {
        trimmed(request.skip(space + 1))
    } else {
        Seq::empty()
    };
    if command == "status"@ && arg.len() == 0 {
        AskedView::Status
    } else if command == "andna-register"@ && arg.len() > 0 {
        AskedView::Register(arg)
    } else if command == "andna-resolve"@ && arg.len() > 0 {
        AskedView::Resolve(arg)
    } else {
        AskedView::Unrecognized(request)
    }
}

/// What a line asks.
pub fn parse_request(line: &str) -> (r: Request)
    ensures
        r@ == asked(line@),
{
    let request = trim(line);
    let n: usize = request.as_str().unicode_len();
    let space: usize = find_char(request.as_str(), ' ');
    let command = request.as_str().substring_char(0, space);
    let arg = if space < n {
        trim(request.as_str().substring_char(space + 1, n))
    } else {
        String::new()
    };
    proof {
        assert(command@ =~= request@.take(space as int));
        if space < n {
            assert(request@.subrange(space + 1, n as int) =~= request@.skip(space + 1));
        }
        reveal_strlit("status");
        reveal_strlit("andna-register");
        reveal_strlit("andna-resolve");
        assert("andna-register"@.len() != "andna-resolve"@.len());
    }
    let empty = arg.as_str().is_empty();
    if same_text(command, "status") && empty {
        Request::Status
    } else if same_text(command, "andna-register") && !empty {
        Request::Register(arg)
    } else if same_text(command, "andna-resolve") && !empty {
        Request::Resolve(arg)
    } else {
        Request::Unrecognized(request)
    }
}

/// The answer to a line that is not understood.
pub fn unrecognized_reply(request: &str) -> (r: ErrorReply)
    ensures
        r.error@ == "unrecognized request line: "@ + debug_form(request@),
{
    let mut error = String::from_str("unrecognized request line: ");
    error.append(debug_text(request).as_str());
    ErrorReply { error }
}

/// The line that asks how a daemon is.
pub fn status_line() -> (r: String)
    ensures
        r@ == "status\n"@,
{
    String::from_str("status\n")
}

/// The line that asks to register a hostname.
pub fn register_line(hostname: &str) -> (r: String)
    ensures
        r@ == "andna-register "@ + hostname@ + "\n"@,
{
    let mut r = String::from_str("andna-register ");
    r.append(hostname);
    r.append("\n");
    r
}

/// The line that asks to resolve a hostname.
pub fn resolve_line(hostname: &str) -> (r: String)
    ensures
        r@ == "andna-resolve "@ + hostname@ + "\n"@,
{
    let mut r = String::from_str("andna-resolve ");
    r.append(hostname);
    r.append("\n");
    r
}

proof fn front_is_no_longer(s: Seq<char>)
    ensures
        trimmed_front(s).len() <= s.len(),
    decreases s.len(),
{
    if s.len() > 0 && is_white_space(s[0]) {
        front_is_no_longer(s.drop_first());
    }
}

proof fn back_is_no_longer(s: Seq<char>)
    ensures
        trimmed_back(s).len() <= s.len(),
    decreases s.len(),
{
    if s.len() > 0 && is_white_space(s.last()) {
        back_is_no_longer(s.drop_last());
    }
}

proof fn no_space_around(h: Seq<char>)
    requires
        trimmed(h) == h,
        h.len() > 0,
    ensures
        !is_white_space(h[0]),
        !is_white_space(h.last()),
{
    back_is_no_longer(trimmed_front(h));
    if is_white_space(h[0]) {
        front_is_no_longer(h.drop_first());
    } else if is_white_space(h.last()) {
        back_is_no_longer(h.drop_last());
    }
}

proof fn line_is_trimmed(word: Seq<char>, h: Seq<char>)
    requires
        word.len() > 0,
        !is_white_space(word[0]),
        h.len() > 0,
        !is_white_space(h.last()),
    ensures
        trimmed(word + " "@ + h + "\n"@) == word + " "@ + h,
{
    reveal_strlit(" ");
    reveal_strlit("\n");
    let body = word + " "@ + h;
    let line = body + "\n"@;
    assert(line[0] == word[0]);
    assert(trimmed_front(line) == line);
    assert(line.last() == '\n');
    assert(line.drop_last() =~= body);
    assert(body.last() == h.last());
    assert(trimmed_back(body) == body);
}

proof fn line_falls_apart(word: Seq<char>, h: Seq<char>)
    requires
        forall|i: int| 0 <= i < word.len() ==> #[trigger] word[i] != ' ',
    ensures
        ({
            let s = word + " "@ + h;
            &&& index_of(s, ' ') == word.len()
            &&& s.take(word.len() as int) == word
            &&& s.skip(word.len() as int + 1) == h
        }),
{
    reveal_strlit(" ");
    let s = word + " "@ + h;
    index_of_is_first(s, ' ');
    assert(s[word.len() as int] == ' ');
    let i = index_of(s, ' ');
    if i < word.len() {
        assert(s[i] == word[i]);
    }
    if i > word.len() {
        assert(s[word.len() as int] != ' ');
    }
    assert(s.take(word.len() as int) =~= word);
    assert(s.skip(word.len() as int + 1) =~= h);
}

/// The daemon understands the lines that its clients send, for every hostname that is not empty and
/// has no white space around it.
pub proof fn request_lines_are_understood(h: Seq<char>)
    requires
        trimmed(h) == h,
        h.len() > 0,
    ensures
        asked("status\n"@) == AskedView::Status,
        asked("andna-register "@ + h + "\n"@) == AskedView::Register(h),
        asked("andna-resolve "@ + h + "\n"@) == AskedView::Resolve(h),
{
    reveal_strlit("status\n");
    reveal_strlit("status");
    reveal_strlit("andna-register ");
    reveal_strlit("andna-register");
    reveal_strlit("andna-resolve ");
    reveal_strlit("andna-resolve");
    reveal_strlit(" ");
    no_space_around(h);
    let line = "status\n"@;
    assert(line.drop_last() =~= "status"@);
    assert(trimmed_front(line) == line);
    assert(line.last() == '\n');
    assert("status"@.last() == 's');
    assert(trimmed_back("status"@) == "status"@);
    assert(trimmed(line) == "status"@);
    index_of_is_first("status"@, ' ');
    assert(index_of("status"@, ' ') == 6) by {
        let i = index_of("status"@, ' ');
        if i < 6 {
            assert("status"@[i] == ' ');
        }
    }
    assert("status"@.take(6) =~= "status"@);
    let register = "andna-register"@;
    assert("andna-register "@ =~= register + " "@);
    line_is_trimmed(register, h);
    line_falls_apart(register, h);
    let resolve = "andna-resolve"@;
    assert("andna-resolve "@ =~= resolve + " "@);
    line_is_trimmed(resolve, h);
    line_falls_apart(resolve, h);
    assert(register.len() != resolve.len());
    assert(register.len() != "status"@.len());
}

/// A line that is none of these is not understood: a command it does not have, one without the
/// hostname it needs, or one with more than it needs.
pub proof fn other_lines_are_not_understood(line: Seq<char>)
    ensures
        asked(line) is Status ==> trimmed(line) == "status"@,
        asked(line) is Register ==> trimmed(line).take(15) == "andna-register "@ && ({
            let h = trimmed(trimmed(line).skip(15));
            asked(line)->Register_0 == h && h.len() > 0
        }),
        asked(line) is Resolve ==> trimmed(line).take(14) == "andna-resolve "@ && ({
            let h = trimmed(trimmed(line).skip(14));
            asked(line)->Resolve_0 == h && h.len() > 0
        }),
        asked(line) is Unrecognized ==> asked(line)->Unrecognized_0 == trimmed(line),
{
    let request = trimmed(line);
    let space = index_of(request, ' ');
    let command = request.take(space);
    index_of_is_first(request, ' ');
    reveal_strlit("status");
    reveal_strlit("andna-register");
    reveal_strlit("andna-register ");
    reveal_strlit("andna-resolve");
    reveal_strlit("andna-resolve ");
    assert(command.len() == space);
    match asked(line) {
        AskedView::Status => {
            assert(space == 6);
            trimming_takes_the_white_space_around(line);
            if space < request.len() {
                let rest = request.skip(7);
                let from = trimming_takes_the_white_space_around(rest);
                assert(request[6] == ' ' && is_white_space(' '));
                assert(request.last() == if rest.len() > 0 { rest.last() } else { request[6] });
                assert(false);
            }
            assert(request.take(6) =~= request);
        },
        AskedView::Register(h) => {
            assert(space == 14 && request[14] == ' ');
            assert(request.take(15) =~= command.push(' '));
            assert("andna-register "@ =~= "andna-register"@.push(' '));
        },
        AskedView::Resolve(h) => {
            assert(space == 13 && request[13] == ' ');
            assert(request.take(14) =~= command.push(' '));
            assert("andna-resolve "@ =~= "andna-resolve"@.push(' '));
        },
        AskedView::Unrecognized(_) => {},
    }
}

/// What a reply means, given what it is when read as the answer and when read as an error: the
/// answer, or the error that it tells, or why it cannot be read.
pub fn parse_reply<T>(reply: Result<T, String>, error: Option<ErrorReply>) -> (r: Result<T, String>)
    ensures
        match reply {
            Ok(answer) => r is Ok && r->Ok_0 == answer,
            Err(reason) => r is Err && r->Err_0@ == match error {
                Some(told) => told.error@,
                None => reason@,
            },
        },
{
    match reply {
        Ok(answer) => Ok(answer),
        Err(reason) => match error {
            Some(told) => Err(told.error),
            None => Err(reason),
        },
    }
}

/// The seconds since the epoch by the system's clock; zero before it.
pub fn unix_now() -> (r: u64) {
    whole_seconds(since_epoch())
}

} // verus!
