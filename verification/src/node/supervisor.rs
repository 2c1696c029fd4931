//! Running and stopping the daemon.
use vstd::prelude::*;
use vstd::string::*;
use crate::node::status::{
    text_of, AndnaRegisterReply, AndnaResolveReply, ArcStatus, ArcStatusView, ResolvedTarget,
    StatusReport,
};
use crate::text::{copy_texts, decimal, decimal_text, texts};

verus! {

/// How long the tasks have to end by themselves, in milliseconds.
pub const SHUTDOWN_DRAIN_TIMEOUT_MILLIS: u64 = 30_000;

/// How long they have once they are told to, in milliseconds.
pub const ABORT_REAP_WINDOW_MILLIS: u64 = 2_000;

/// How long to wait at most before the tasks that still run are reported, in milliseconds.
pub const DRAIN_TICK_MILLIS: u64 = 5_000;

/// What to do while tasks end.
#[derive(Debug, Clone, Copy, PartialEq, Eq, Structural)]
pub enum DrainStep {
    /// Wait for one to end, but no longer than this.
    Wait {
        /// How long, in milliseconds.
        tick: u64,
    },
    /// All have ended.
    Drained,
    /// Tell the rest to end, and give them a last while.
    Abort,
}

/// What to do at `now` while `remaining` tasks run.
pub open spec fn drain_step(remaining: usize, now: u64, deadline: u64) -> DrainStep {
    if remaining == 0 {
        DrainStep::Drained
    } else if now < deadline {
        DrainStep::Wait {
            tick: if deadline - now < DRAIN_TICK_MILLIS {
                (deadline - now) as u64
            } else {
                DRAIN_TICK_MILLIS
            },
        }
    } else {
        DrainStep::Abort
    }
}

/// Draining is over exactly when no task runs. Until the deadline the running ones are waited for,
/// never past the deadline, never longer than five seconds, and as long as both allow; from the
/// deadline on they are told to end.
pub proof fn tasks_are_waited_for_until_the_deadline(remaining: usize, now: u64, deadline: u64)
    ensures
        ({
            let step = drain_step(remaining, now, deadline);
            &&& step is Drained <==> remaining == 0
            &&& step is Abort <==> remaining > 0 && deadline <= now
            &&& step is Wait <==> remaining > 0 && now < deadline
            &&& step is Wait ==> 0 < step->tick <= 5_000 && now + step->tick <= deadline && (
            step->tick == 5_000 || now + step->tick == deadline)
        }),
{
}

/// What to do at `now` while `remaining` tasks run: wait until the deadline, a tick at a time, and
/// then tell them to end. Where none runs, that is noticed in either case.
pub fn drain_tasks(remaining: usize, now: u64, deadline: u64) -> (r: DrainStep)
    ensures
        r == drain_step(remaining, now, deadline),
        r == (if remaining == 0 {
            DrainStep::Drained
        } else if now < deadline {
            DrainStep::Wait {
                tick: if deadline - now < DRAIN_TICK_MILLIS {
                    (deadline - now) as u64
                } else {
                    DRAIN_TICK_MILLIS
                },
            }
        } else {
            DrainStep::Abort
        }),
{
    if remaining == 0 {
        DrainStep::Drained
    } else if now < deadline {
        let left: u64 = deadline - now;
        DrainStep::Wait {
            tick: if left < DRAIN_TICK_MILLIS {
                left
            } else {
                DRAIN_TICK_MILLIS
            },
        }
    } else {
        DrainStep::Abort
    }
}

/// Waiting never goes past the deadline, and always makes headway.
pub proof fn waiting_ends_at_the_deadline(now: u64, deadline: u64)
    requires
        now < deadline,
    ensures
        ({
            let tick = if deadline - now < DRAIN_TICK_MILLIS {
                deadline - now
            } else {
                DRAIN_TICK_MILLIS as int
            };
            &&& 0 < tick
            &&& now + tick <= deadline
        }),
{
}

/// The interfaces to use: those of the command line, where it names any, and else the configured
/// ones.
pub fn effective_nics(configured: &Vec<String>, named: &Vec<String>) -> (r: Vec<String>)
    ensures
        texts(r@) == if named@.len() == 0 {
            texts(configured@)
        } else {
            texts(named@)
        },
{
    if named.len() == 0 {
        copy_texts(configured)
    } else {
        copy_texts(named)
    }
}

/// The words for a truth value.
pub open spec fn truth(b: bool) -> Seq<char> {
    if b {
        "true"@
    } else {
        "false"@
    }
}

fn truth_text(b: bool) -> (r: &'static str)
    ensures
        r@ == truth(b),
{
    if b {
        "true"
    } else {
        "false"
    }
}

/// The text, or the words for that there is none.
pub open spec fn or_unknown(s: Option<Seq<char>>) -> Seq<char> {
    match s {
        Some(s) => s,
        None => "unknown"@,
    }
}

fn known_text(s: &Option<String>) -> (r: &str)
    ensures
        r@ == or_unknown(text_of(*s)),
{
    match s {
        Some(s) => s.as_str(),
        None => "unknown",
    }
}

/// The line about one arc.
pub open spec fn arc_line(a: ArcStatusView) -> Seq<char> {
    "  "@ + a.mac + " on "@ + a.dev + " — "@ + a.state + " (cost: "@ + or_unknown(a.cost)
        + ", qspn: "@ + (if a.qspn_linked {
        "linked"@
    } else {
        "pending"@
    }) + ", hooking: "@ + or_unknown(a.hooking_phase) + ")\n"@
}

/// The lines about the arcs.
pub open spec fn arc_lines(arcs: Seq<ArcStatus>) -> Seq<char>
    decreases arcs.len(),
{
    if arcs.len() == 0 {
        Seq::empty()
    } else {
        arc_lines(arcs.drop_last()) + arc_line(arcs.last()@)
    }
}

/// What is shown of a daemon's report.
pub open spec fn status_lines(r: StatusReport) -> Seq<char> {
    "main identity:            "@ + decimal(r.main_identity as nat) + "\n"@
        + "identities:               "@ + decimal(r.identity_count as nat) + "\n"@
        + "hooked:                   "@ + truth(r.hooked) + "\n"@
        + "bootstrapped:             "@ + truth(r.bootstrapped) + "\n"@
        + "route table:              "@ + decimal(r.route_table as nat) + "\n"@
        + "route destinations:       "@ + decimal(r.route_destinations as nat) + "\n"@
        + "known links:              "@ + decimal(r.known_links as nat) + "\n"@
        + "peer participants:        "@ + decimal(r.peer_participants as nat) + "\n"@
        + "coordinator reservations: "@ + decimal(r.coordinator_reservations as nat) + "\n"@
        + "andna hosted hostnames:   "@ + decimal(r.andna_hosted_hostnames as nat) + "\n"@
        + "arcs:\n"@ + arc_lines(r.arcs@)
}

fn push_number(text: &mut String, label: &str, n: u64)
    ensures
        final(text)@ == old(text)@ + label@ + decimal(n as nat) + "\n"@,
{
    text.append(label);
    text.append(decimal_text(n).as_str());
    text.append("\n");
}

fn push_truth(text: &mut String, label: &str, b: bool)
    ensures
        final(text)@ == old(text)@ + label@ + truth(b) + "\n"@,
{
    text.append(label);
    text.append(truth_text(b));
    text.append("\n");
}

fn arc_text(a: &ArcStatus) -> (r: String)
    ensures
        r@ == arc_line(a@),
{
    let mut r = String::from_str("  ");
    r.append(a.mac.as_str());
    r.append(" on ");
    r.append(a.dev.as_str());
    r.append(" — ");
    r.append(a.state.as_str());
    r.append(" (cost: ");
    r.append(known_text(&a.cost));
    r.append(", qspn: ");
    r.append(
        if a.qspn_linked {
            "linked"
        } else {
            "pending"
        },
    );
    r.append(", hooking: ");
    r.append(known_text(&a.hooking_phase));
    r.append(")\n");
    r
}

/// What is shown of a daemon's report.
pub fn status(report: &StatusReport) -> (r: String)
    ensures
        r@ == status_lines(*report),
{
    let mut r = String::new();
    push_number(&mut r, "main identity:            ", report.main_identity);
    push_number(&mut r, "identities:               ", report.identity_count as u64);
    push_truth(&mut r, "hooked:                   ", report.hooked);
    push_truth(&mut r, "bootstrapped:             ", report.bootstrapped);
    push_number(&mut r, "route table:              ", report.route_table as u64);
    push_number(&mut r, "route destinations:       ", report.route_destinations as u64);
    push_number(&mut r, "known links:              ", report.known_links as u64);
    push_number(&mut r, "peer participants:        ", report.peer_participants as u64);
    push_number(&mut r, "coordinator reservations: ", report.coordinator_reservations as u64);
    push_number(&mut r, "andna hosted hostnames:   ", report.andna_hosted_hostnames as u64);
    r.append("arcs:\n");
    let ghost head = r@;
    let mut i: usize = 0;
    assert(head + arc_lines(report.arcs@.take(0)) =~= head);
    while i < report.arcs.len()
        invariant
            i <= report.arcs@.len(),
            r@ == head + arc_lines(report.arcs@.take(i as int)),
        decreases report.arcs@.len() - i,
    {
        assert(report.arcs@.take(i + 1).drop_last() =~= report.arcs@.take(i as int));
        r.append(arc_text(&report.arcs[i]).as_str());
        assert(r@ =~= head + arc_lines(report.arcs@.take(i + 1)));
        i += 1;
    }
    assert(report.arcs@.take(report.arcs@.len() as int) =~= report.arcs@);
    assert(r@ =~= status_lines(*report));
    r
}

/// Every arc has its line, in their order.
pub proof fn every_arc_has_its_line(a: Seq<ArcStatus>, b: Seq<ArcStatus>, one: ArcStatus)
    ensures
        arc_lines(Seq::empty()) == Seq::<char>::empty(),
        arc_lines(seq![one]) == arc_line(one@),
        arc_lines(a + b) == arc_lines(a) + arc_lines(b),
    decreases b.len(),
{
    assert(seq![one].drop_last() =~= Seq::empty());
    assert(arc_lines(seq![one].drop_last()) =~= Seq::empty());
    assert(arc_lines(seq![one]) =~= arc_line(one@));
    if b.len() == 0 {
        assert(a + b =~= a);
        assert(arc_lines(a) + arc_lines(b) =~= arc_lines(a));
    } else {
        every_arc_has_its_line(a, b.drop_last(), one);
        assert((a + b).drop_last() =~= a + b.drop_last());
        assert((a + b).last() == b.last());
        assert(arc_lines(a + b) =~= arc_lines(a) + arc_lines(b));
    }
}

/// The number, or the words for that there is none.
pub open spec fn or_none(n: Option<u64>) -> Seq<char> {
    match n {
        Some(n) => decimal(n as nat),
        None => "(none)"@,
    }
}

fn number_or_none(n: Option<u64>) -> (r: String)
    ensures
        r@ == or_none(n),
{
    match n {
        Some(n) => decimal_text(n),
        None => String::from_str("(none)"),
    }
}

/// What is shown of a daemon's answer to a registration.
pub fn andna_register(reply: &AndnaRegisterReply) -> (r: String)
    ensures
        r@ == "hostname:     "@ + reply.hostname@ + "\noutcome:      "@ + reply.outcome@
            + "\nexpires_unix: "@ + or_none(reply.expires_unix) + "\n"@,
{
    let mut r = String::from_str("hostname:     ");
    r.append(reply.hostname.as_str());
    r.append("\noutcome:      ");
    r.append(reply.outcome.as_str());
    r.append("\nexpires_unix: ");
    r.append(number_or_none(reply.expires_unix).as_str());
    r.append("\n");
    r
}

/// What is shown of one of the things that a hostname stands for: it, and its address where it has
/// one.
pub open spec fn target_line(t: ResolvedTarget) -> Seq<char> {
    match t.ipv4 {
        Some(address) => "  "@ + t.target@ + " ("@ + address.dotted() + ")\n"@,
        None => "  "@ + t.target@ + "\n"@,
    }
}

/// What is shown of the things that a hostname stands for.
pub open spec fn target_lines(targets: Seq<ResolvedTarget>) -> Seq<char>
    decreases targets.len(),
{
    if targets.len() == 0 {
        Seq::empty()
    } else {
        target_lines(targets.drop_last()) + target_line(targets.last())
    }
}

/// Everything that a hostname stands for has its line, in their order.
pub proof fn every_target_has_its_line(
    a: Seq<ResolvedTarget>,
    b: Seq<ResolvedTarget>,
    one: ResolvedTarget,
)
    ensures
        target_lines(Seq::empty()) == Seq::<char>::empty(),
        target_lines(seq![one]) == target_line(one),
        target_lines(a + b) == target_lines(a) + target_lines(b),
    decreases b.len(),
{
    assert(seq![one].drop_last() =~= Seq::empty());
    assert(target_lines(seq![one].drop_last()) =~= Seq::empty());
    assert(target_lines(seq![one]) =~= target_line(one));
    if b.len() == 0 {
        assert(a + b =~= a);
        assert(target_lines(a) + target_lines(b) =~= target_lines(a));
    } else {
        every_target_has_its_line(a, b.drop_last(), one);
        assert((a + b).drop_last() =~= a + b.drop_last());
        assert((a + b).last() == b.last());
        assert(target_lines(a + b) =~= target_lines(a) + target_lines(b));
    }
}

fn target_text(t: &ResolvedTarget) -> (r: String)
    ensures
        r@ == target_line(*t),
{
    let mut r = String::from_str("  ");
    r.append(t.target.as_str());
    match t.ipv4 {
        Some(address) => {
            r.append(" (");
            r.append(address.text().as_str());
            r.append(")\n");
        },
        None => {
            r.append("\n");
        },
    }
    r
}

/// What is shown of a daemon's answer to a resolution.
pub fn andna_resolve(reply: &AndnaResolveReply) -> (r: String)
    ensures
        r@ == "hostname: "@ + reply.hostname@ + "\naddresses:\n"@ + target_lines(reply.addresses@)
            + "ttl_secs: "@ + or_none(reply.ttl_secs) + "\n"@,
{
    let mut r = String::from_str("hostname: ");
    r.append(reply.hostname.as_str());
    r.append("\naddresses:\n");
    let ghost head = r@;
    let mut i: usize = 0;
    assert(head + target_lines(reply.addresses@.take(0)) =~= head);
    while i < reply.addresses.len()
        invariant
            i <= reply.addresses@.len(),
            r@ == head + target_lines(reply.addresses@.take(i as int)),
        decreases reply.addresses@.len() - i,
    {
        assert(reply.addresses@.take(i + 1).drop_last() =~= reply.addresses@.take(i as int));
        r.append(target_text(&reply.addresses[i]).as_str());
        assert(r@ =~= head + target_lines(reply.addresses@.take(i + 1)));
        i += 1;
    }
    assert(reply.addresses@.take(reply.addresses@.len() as int) =~= reply.addresses@);
    r.append("ttl_secs: ");
    r.append(number_or_none(reply.ttl_secs).as_str());
    r.append("\n");
    r
}

} // verus!
