use std::collections::HashMap;
use ntkd::clock::{whole_millis, whole_seconds};
use ntkd::net::Ipv4Addr;
use ntkd::node::andna_key::{
    generate_new, load_or_generate, read_existing, KeyError, KeyFile, KeyStep, MAX_MODE,
};
use ntkd::node::cli::status_socket_or_default;
use ntkd::node::registry::LinkRegistry;
use ntkd::node::services::{peers_config, plan, HookingProvenance};
use ntkd::node::status::{
    parse_reply, parse_request, register_line, register_refusal, register_reply, report,
    resolve_line, resolve_reply, status_line, unix_now, unrecognized_reply, ArcFacts, ErrorReply,
    NodeFacts, RegisterOutcome, Request, SnsdTarget,
};
use ntkd::node::supervisor::{
    andna_register, andna_resolve, drain_tasks, effective_nics, status, DrainStep,
    SHUTDOWN_DRAIN_TIMEOUT_MILLIS,
};
use ntkd::node::transport::{bind_failure_text, describe_bind_failure};
use ntkd::node::wire::NodeId;
use ntkd::qspn::{ArcId, RouteEntry, RouteSnapshot};
use ntkd::space::{HCoord, Naddr, Topology};
use std::io;

fn permission_denied() -> io::Error {
    io::Error::from_raw_os_error(13)
}

#[test]
fn permission_denied_on_a_privileged_port_names_cap_net_bind_service() {
    let message =
        describe_bind_failure("UDP broadcast", Some("enp0s31f6"), 269, &permission_denied());
    assert!(message.contains("269"), "message must name the port: {message}");
    assert!(
        message.contains("CAP_NET_BIND_SERVICE"),
        "message must name the capability: {message}"
    );
    assert!(
        message.contains(">= 1024"),
        "message must offer the non-privileged-port alternative: {message}"
    );
}

#[test]
fn permission_denied_on_a_non_privileged_port_does_not_mention_the_capability() {
    let message =
        describe_bind_failure("UDP broadcast", Some("enp0s31f6"), 26900, &permission_denied());
    assert!(
        !message.contains("CAP_NET_BIND_SERVICE"),
        "a non-privileged port's EACCES is not the privileged-port trap, so the capability \
         hint would mislead: {message}"
    );
    assert!(message.contains("26900"), "message must still name the port: {message}");
}

#[test]
fn bind_failures_name_the_socket_and_the_reason() {
    assert_eq!(
        bind_failure_text("TCP", None, 269, "in use", false),
        "failed to bind TCP socket on port 269: in use"
    );
    assert_eq!(
        bind_failure_text("UDP", Some("eth0"), 1023, "no", true),
        "failed to bind UDP socket on \"eth0\" port 1023: no — ports below 1024 are privileged; grant CAP_NET_BIND_SERVICE (AmbientCapabilities in the systemd unit) or set a port >= 1024 in the ntkd config"
    );
    let kind = io::Error::new(io::ErrorKind::PermissionDenied, "policy");
    assert!(describe_bind_failure("TCP", None, 1, &kind).contains("CAP_NET_BIND_SERVICE"));
    assert!(describe_bind_failure("TCP", None, 1, &kind).contains("policy"));
    let eperm = io::Error::from_raw_os_error(1);
    assert!(describe_bind_failure("TCP", None, 1, &eperm).contains("CAP_NET_BIND_SERVICE"));
    let other = io::Error::new(io::ErrorKind::AddrInUse, "taken");
    assert_eq!(
        describe_bind_failure("TCP", None, 1, &other),
        "failed to bind TCP socket on port 1: taken"
    );
}

#[test]
fn generates_then_loads_the_identical_seed() {
    let (seed, first) = generate_new();
    let second = read_existing("andna.key", 0o100600, Ok(seed.to_vec())).expect("loads");
    assert_eq!(first.to_bytes(), second.to_bytes());
    assert_eq!(first.to_bytes(), seed);
    let (other, _) = generate_new();
    assert_ne!(seed, other);
}

#[test]
fn a_missing_key_is_generated_for_its_owner_alone() {
    assert_eq!(MAX_MODE, 0o600);
    assert_eq!(load_or_generate("andna.key", &KeyFile::Missing), Ok(KeyStep::Generate));
}

#[test]
fn refuses_a_world_readable_key_file() {
    let err = load_or_generate("andna.key", &KeyFile::Exists(0o100644)).unwrap_err();
    assert!(matches!(err, KeyError::TooPermissive { mode: 0o644, .. }));
    assert_eq!(
        err.message(),
        "key file andna.key has permissions 644, wider than the required 0600"
    );
    let err = read_existing("andna.key", 0o100644, Ok(vec![1; 32])).unwrap_err();
    assert!(matches!(err, KeyError::TooPermissive { mode: 0o644, .. }));
}

#[test]
fn accepts_an_owner_only_readonly_key_file() {
    assert_eq!(load_or_generate("andna.key", &KeyFile::Exists(0o100400)), Ok(KeyStep::Read));
    let key = read_existing("andna.key", 0o100400, Ok(vec![2; 32])).expect("0400 is fine");
    assert_eq!(key.to_bytes(), [2u8; 32]);
    assert!(load_or_generate("andna.key", &KeyFile::Exists(0o100700)).is_err());
}

#[test]
fn broken_key_files_are_told_apart() {
    let short = read_existing("k", 0o600, Ok(vec![1; 31])).unwrap_err();
    assert_eq!(short.message(), "key file k holds 31 bytes, expected a 32-byte seed");
    let unread = read_existing("k", 0o600, Err("gone".to_string())).unwrap_err();
    assert_eq!(unread.message(), "failed to read key file k: gone");
    let unknown = load_or_generate("k", &KeyFile::Unknown("busy".to_string())).unwrap_err();
    assert_eq!(unknown, KeyError::Read { path: "k".to_string(), source: "busy".to_string() });
    let unwritten = KeyError::Write { path: "k".to_string(), source: "full".to_string() };
    assert_eq!(unwritten.message(), "failed to write key file k: full");
}

#[test]
fn an_unrecognized_request_line_yields_an_error_reply_not_a_panic() {
    let Request::Unrecognized(request) = parse_request("not-a-real-request\n") else {
        panic!("must not be recognized");
    };
    let reply = unrecognized_reply(&request);
    assert!(reply.error.contains("unrecognized"));
    assert_eq!(reply.error, "unrecognized request line: \"not-a-real-request\"");
}

#[test]
fn request_lines_are_read_as_they_are_written() {
    assert_eq!(parse_request(&status_line()), Request::Status);
    assert_eq!(
        parse_request(&register_line("angelica")),
        Request::Register("angelica".to_string())
    );
    assert_eq!(parse_request(&resolve_line("a b")), Request::Resolve("a b".to_string()));
    assert_eq!(parse_request("  status \t\r\n"), Request::Status);
    assert_eq!(
        parse_request("andna-register   spaced  \n"),
        Request::Register("spaced".to_string())
    );
    assert_eq!(parse_request("status now"), Request::Unrecognized("status now".to_string()));
    assert_eq!(
        parse_request("andna-resolve \n"),
        Request::Unrecognized("andna-resolve".to_string())
    );
    assert_eq!(parse_request(""), Request::Unrecognized(String::new()));
    assert_eq!(parse_request("\u{3000}status\u{a0}"), Request::Status);
}

#[test]
fn registering_and_resolving_are_answered() {
    let hostname = Ok("angelica".to_string());
    assert_eq!(register_refusal(&hostname, Some("key")), None);
    assert_eq!(
        register_refusal(&hostname, None).unwrap(),
        "andna_key_path is not configured; ANDNA registration is refused"
    );
    assert_eq!(register_refusal(&Err("bad name".to_string()), None).unwrap(), "bad name");
    let register = register_reply("angelica", RegisterOutcome::Registered { expires_at: 5 });
    assert_eq!(register.hostname, "angelica");
    assert_eq!(register.outcome, "registered");
    assert_eq!(register.expires_unix, Some(5));
    assert_eq!(
        register_reply("angelica", RegisterOutcome::Renewed { expires_at: 5 }).outcome,
        "renewed"
    );

    let naddr = Naddr::new(Topology::new(vec![1]).unwrap(), vec![0]).unwrap();
    let targets = vec![
        SnsdTarget::Address { naddr, text: "0".to_string() },
        SnsdTarget::Alias("other".to_string()),
    ];
    let resolve = resolve_reply("angelica", &targets);
    assert_eq!(resolve.hostname, "angelica");
    assert_eq!(resolve.addresses[0].ipv4, Some(Ipv4Addr::new(10, 0, 0, 0)));
    assert_eq!(resolve.addresses[0].target, "0");
    assert_eq!(resolve.addresses[1].ipv4, None);
    assert_eq!(
        andna_resolve(&resolve),
        "hostname: angelica\naddresses:\n  0 (10.0.0.0)\n  other\nttl_secs: (none)\n"
    );
    assert_eq!(
        andna_register(&register),
        "hostname:     angelica\noutcome:      registered\nexpires_unix: 5\n"
    );
}

#[test]
fn replies_are_answers_or_errors() {
    assert_eq!(parse_reply(Ok(3), None), Ok(3));
    let told = Some(ErrorReply { error: "told".to_string() });
    assert_eq!(parse_reply::<u8>(Err("parse".to_string()), told), Err("told".to_string()));
    assert_eq!(parse_reply::<u8>(Err("parse".to_string()), None), Err("parse".to_string()));
}

#[test]
fn a_report_sums_up_what_the_parts_tell() {
    let mut registry = LinkRegistry::new();
    let link = registry.link_for_neighbour(NodeId::from_raw(3).unwrap(), "aa", "eth0");
    registry.set_qspn_arc(link, ArcId(9));
    let mut phases = HashMap::new();
    phases.insert(1u64, "SameNetwork".to_string());
    let fact = |mac: &str| ArcFacts {
        neighbour_mac: mac.to_string(),
        my_dev: "wlan0".to_string(),
        state: "Working".to_string(),
        cost: None,
    };
    let mut known = fact("aa");
    known.cost = Some("12".to_string());
    let entry = |pos| RouteEntry { destination: HCoord::new(0, pos), paths: vec![] };
    let snapshot = RouteSnapshot { levels: vec![vec![entry(1), entry(2)], vec![entry(3)]] };
    let facts = NodeFacts {
        main_identity: 11,
        identity_count: 1,
        hooked: true,
        route_table: 200,
        participants: vec![2, 3],
        reservations: vec![],
        hosted_hostnames: 4,
    };
    let told =
        report(&facts, &vec![known, fact("bb")], &registry, &phases, &snapshot, false).unwrap();
    assert_eq!(told.arcs[0].dev, "eth0");
    assert!(told.arcs[0].qspn_linked);
    assert_eq!(told.arcs[0].hooking_phase.as_deref(), Some("SameNetwork"));
    assert_eq!(told.arcs[1].dev, "wlan0");
    assert!(!told.arcs[1].qspn_linked);
    assert_eq!(told.route_destinations, 3);
    assert_eq!(told.known_links, 1);
    assert_eq!(told.peer_participants, 5);
    assert_eq!(told.coordinator_reservations, 0);
    assert_eq!(
        status(&told),
        "main identity:            11\nidentities:               1\nhooked:                   true\nbootstrapped:             false\nroute table:              200\nroute destinations:       3\nknown links:              1\npeer participants:        5\ncoordinator reservations: 0\nandna hosted hostnames:   4\narcs:\n  aa on eth0 — Working (cost: 12, qspn: linked, hooking: SameNetwork)\n  bb on wlan0 — Working (cost: unknown, qspn: pending, hooking: unknown)\n"
    );
}

#[test]
fn sums_that_do_not_fit_are_not_reported() {
    let facts = NodeFacts {
        main_identity: 1,
        identity_count: 1,
        hooked: true,
        route_table: 200,
        participants: vec![usize::MAX, 1],
        reservations: vec![],
        hosted_hostnames: 0,
    };
    let snapshot = RouteSnapshot { levels: vec![] };
    let registry = LinkRegistry::new();
    assert_eq!(report(&facts, &vec![], &registry, &HashMap::new(), &snapshot, true), None);
}

#[test]
fn drains_cleanly_when_every_task_finishes() {
    assert_eq!(drain_tasks(0, 10, 5_000), DrainStep::Drained);
    assert_eq!(drain_tasks(0, 9_000, 5_000), DrainStep::Drained);
    assert_eq!(drain_tasks(4, 10, 5_000), DrainStep::Wait { tick: 4_990 });
}

#[test]
fn returns_promptly_when_a_task_never_yields() {
    let mut now = 0;
    let mut waits = 0;
    loop {
        match drain_tasks(1, now, SHUTDOWN_DRAIN_TIMEOUT_MILLIS) {
            DrainStep::Wait { tick } => {
                now += tick;
                waits += 1;
            }
            DrainStep::Abort => break,
            DrainStep::Drained => panic!("a task still runs"),
        }
    }
    assert_eq!((now, waits), (30_000, 6));
}

#[test]
fn services_know_whether_they_join() {
    let fresh: HookingProvenance<u8, u8> = HookingProvenance::Fresh(1);
    let founding = plan(&fresh, 4);
    assert_eq!(founding.retrieved_below_level, 4);
    assert!(founding.spawn_hooking && !founding.ask_participant_maps);
    let carried: HookingProvenance<u8, u8> = HookingProvenance::Carried(1);
    let joining = plan(&carried, 4);
    assert_eq!(joining.retrieved_below_level, 0);
    assert!(!joining.spawn_hooking && joining.ask_participant_maps);
    assert_eq!(peers_config(true).participation_reannounce_secs, 300);
    assert!(peers_config(true).require_auth);
}

#[test]
fn the_command_line_overrides_the_configuration() {
    let list = |names: &[&str]| names.iter().map(|s| s.to_string()).collect::<Vec<String>>();
    assert_eq!(effective_nics(&list(&["eth0"]), &list(&[])), list(&["eth0"]));
    assert_eq!(effective_nics(&list(&["eth0"]), &list(&["wlan0"])), list(&["wlan0"]));
    assert_eq!(status_socket_or_default(None), "/tmp/ntkd.sock");
    assert_eq!(status_socket_or_default(Some("/x".to_string())), "/x");
}

#[test]
fn times_are_cut_to_size() {
    assert_eq!(whole_millis(None), 0);
    assert_eq!(whole_millis(Some((2, 999_999_999))), 2_999);
    assert_eq!(whole_millis(Some((u64::MAX, 0))), u64::MAX);
    assert_eq!(whole_seconds(Some((7, 5))), 7);
    assert!(unix_now() > 1_000_000_000);
}
