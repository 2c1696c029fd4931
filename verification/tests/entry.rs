use ntkd::node::adapters::NetworkInfo;
use ntkd::node::codec::{
    decode_evaluate_enter_answer, encode_evaluate_enter_answer, encode_evaluate_enter_request,
    encode_hooking_memory, encode_unit, now_millis, ElectionRecord, EvaluateEnterAnswer, EvaluateEnterRequest,
    HookingMemory,
};
use ntkd::node::entry::{
    coordinator_top, EnterArbiter, EnterHandlersAdapter, ELECTED_TTL_MILLIS, ELECTED_TTL_NANOS,
};
use ntkd::node::merge::{
    enter_outcome, merge_tiebreak, n_nodes_outcome, reservation_outcome, CoordinatorClientAdapter,
    CoordinatorError, MergeArbitrationRequest, Reservation,
};
use ntkd::node::services::{coordinator_client, coordinator_config};
use ntkd::node::wire::TypedValue;
use ntkd::qspn::{ArcId, RouteEntry, RoutePath, RouteSnapshot};
use ntkd::space::{Cost, HCoord};

/// A coordinator's record, as its members share it.
struct Record(Option<TypedValue>);

impl Record {
    fn new() -> Self {
        Record(None)
    }

    fn keep(&mut self, memory: Option<HookingMemory>) {
        if let Some(memory) = memory {
            self.0 = Some(encode_hooking_memory(&memory));
        }
    }
}

const NOW: u64 = 1_000_000_000_000;
const NOW_MILLIS: u64 = 1_700_000_000_000;

fn ask(
    arbiter: &mut EnterArbiter,
    record: &mut Record,
    level: usize,
    network_id: i64,
    id: i32,
) -> EvaluateEnterAnswer {
    let decided = arbiter.decide(record.0.as_ref(), level, network_id, id, NOW, NOW_MILLIS);
    record.keep(decided.write);
    decided.answer
}

#[test]
fn a_second_concurrent_entrant_for_the_same_network_is_refused_not_reelected() {
    let mut record = Record::new();
    let mut arbiter = EnterArbiter::new();
    let (level, network_id) = (1, 42);
    let accepted = EvaluateEnterAnswer::Accepted { chosen_lvl: level };
    assert_eq!(ask(&mut arbiter, &mut record, level, network_id, 1), accepted);
    assert_eq!(
        ask(&mut arbiter, &mut record, level, network_id, 2),
        EvaluateEnterAnswer::IgnoreNetwork
    );
    assert_eq!(ask(&mut arbiter, &mut record, level, network_id, 1), accepted);
}

#[test]
fn exactly_one_of_any_number_of_concurrent_entrants_is_elected() {
    let mut record = Record::new();
    let mut arbiter = EnterArbiter::new();
    let (level, network_id) = (0, 7);
    let mut accepted = 0;
    for id in 1..=8 {
        if ask(&mut arbiter, &mut record, level, network_id, id)
            == (EvaluateEnterAnswer::Accepted { chosen_lvl: level })
        {
            accepted += 1;
        }
    }
    assert_eq!(accepted, 1, "exactly one candidate must ever be elected");
}

#[test]
fn a_different_target_network_is_told_to_ask_again_not_refused() {
    let mut record = Record::new();
    let mut arbiter = EnterArbiter::new();
    assert_eq!(
        ask(&mut arbiter, &mut record, 0, 1, 1),
        EvaluateEnterAnswer::Accepted { chosen_lvl: 0 }
    );
    assert_eq!(ask(&mut arbiter, &mut record, 0, 2, 2), EvaluateEnterAnswer::AskAgain);
}

#[test]
fn abort_releases_the_level_for_a_fresh_election() {
    let mut record = Record::new();
    let mut arbiter = EnterArbiter::new();
    assert_eq!(
        ask(&mut arbiter, &mut record, 0, 1, 1),
        EvaluateEnterAnswer::Accepted { chosen_lvl: 0 }
    );
    let write = arbiter.release(record.0.as_ref(), 0);
    assert!(write.is_some());
    record.keep(write);
    assert_eq!(
        ask(&mut arbiter, &mut record, 0, 1, 2),
        EvaluateEnterAnswer::Accepted { chosen_lvl: 0 }
    );
    assert!(arbiter.release(None, 3).is_none());
}

#[test]
fn an_expired_replicated_election_self_heals_without_an_abort() {
    let mut arbiter = EnterArbiter::new();
    let level = 0;
    let now_ms = now_millis();
    let mut mem = HookingMemory::default();
    mem.elections.insert(
        level,
        ElectionRecord {
            network_id: 1,
            evaluate_enter_id: 1,
            granted_at_millis: now_ms - (ELECTED_TTL_MILLIS + 1),
        },
    );
    let record = encode_hooking_memory(&mem);
    let decided = arbiter.decide(Some(&record), level, 1, 2, NOW, now_ms);
    assert_eq!(decided.answer, EvaluateEnterAnswer::Accepted { chosen_lvl: level });
}

#[test]
fn an_election_ends_to_the_nanosecond() {
    let mut arbiter = EnterArbiter::new();
    arbiter.decide(None, 0, 1, 1, NOW, NOW_MILLIS);
    assert_eq!(
        arbiter.decide_locally(0, 1, 2, NOW + ELECTED_TTL_NANOS - 1),
        Some(EvaluateEnterAnswer::IgnoreNetwork)
    );
    assert_eq!(arbiter.decide_locally(0, 1, 2, NOW + ELECTED_TTL_NANOS), None);
    assert_eq!(arbiter.decide_locally(0, 1, 2, NOW), None);
}

#[test]
fn a_members_own_election_goes_by_the_steady_clock_alone() {
    let mut arbiter = EnterArbiter::new();
    arbiter.decide(None, 0, 1, 1, NOW, NOW_MILLIS);
    for now_millis in [0, NOW_MILLIS - 1, NOW_MILLIS + ELECTED_TTL_MILLIS, u64::MAX] {
        let decided = arbiter.decide(None, 0, 1, 2, NOW + 1, now_millis);
        assert_eq!(decided.answer, EvaluateEnterAnswer::IgnoreNetwork);
        assert!(decided.write.is_none());
    }
}

/// A question to one member, `after_millis` after the start.
fn ask_at(
    arbiter: &mut EnterArbiter,
    record: &mut Record,
    id: i32,
    after_millis: u64,
) -> EvaluateEnterAnswer {
    let decided = arbiter.decide(
        record.0.as_ref(),
        0,
        42,
        id,
        NOW + after_millis * 1_000_000,
        NOW_MILLIS + after_millis,
    );
    record.keep(decided.write);
    decided.answer
}

#[test]
fn an_adopted_election_ends_when_it_would_have_where_it_was_made() {
    let mut record = Record::new();
    let mut member_a = EnterArbiter::new();
    let mut member_b = EnterArbiter::new();
    let accepted = EvaluateEnterAnswer::Accepted { chosen_lvl: 0 };
    assert_eq!(ask_at(&mut member_a, &mut record, 1, 1_000), accepted);
    assert_eq!(ask_at(&mut member_b, &mut record, 1, 51_000), accepted);
    assert_eq!(
        ask_at(&mut member_b, &mut record, 2, 60_999),
        EvaluateEnterAnswer::IgnoreNetwork
    );
    assert_eq!(ask_at(&mut member_b, &mut record, 2, 61_000), accepted);
    assert_eq!(
        ask_at(&mut member_a, &mut record, 1, 70_000),
        EvaluateEnterAnswer::IgnoreNetwork
    );
}

#[test]
fn two_members_sharing_the_coordinators_record_converge_on_one_election() {
    let mut record = Record::new();
    let mut member_a = EnterArbiter::new();
    let mut member_b = EnterArbiter::new();
    let (level, network_id) = (1, 99);
    let answer_a = ask(&mut member_a, &mut record, level, network_id, 1);
    let answer_b = ask(&mut member_b, &mut record, level, network_id, 2);
    assert_eq!(answer_a, EvaluateEnterAnswer::Accepted { chosen_lvl: level });
    assert_eq!(answer_b, EvaluateEnterAnswer::IgnoreNetwork);
}

#[test]
fn two_members_with_independent_records_would_each_elect_a_different_member() {
    let mut record_a = Record::new();
    let mut record_b = Record::new();
    let mut member_a = EnterArbiter::new();
    let mut member_b = EnterArbiter::new();
    let (level, network_id) = (1, 99);
    let accepted = EvaluateEnterAnswer::Accepted { chosen_lvl: level };
    assert_eq!(ask(&mut member_a, &mut record_a, level, network_id, 1), accepted);
    assert_eq!(ask(&mut member_b, &mut record_b, level, network_id, 2), accepted);
}

#[test]
fn a_servant_answers_at_the_level_its_gnode_moves_as_one() {
    let sibling = RouteEntry {
        destination: HCoord::new(0, 1),
        paths: vec![RoutePath { arc: ArcId(0), cost: Cost::Finite(1), nodes_inside: 1 }],
    };
    let snapshot = RouteSnapshot { levels: vec![vec![sibling], vec![]] };
    let net = NetworkInfo::new(2, 1);
    let handlers = EnterHandlersAdapter { snapshot: &snapshot, net: &net, levels: 2 };
    let mut arbiter = EnterArbiter::new();
    let question = |id| {
        encode_evaluate_enter_request(&EvaluateEnterRequest {
            network_id: 42,
            neighbor_pos: vec![0, 0],
            neighbor_min_lvl: 0,
            min_lvl: 0,
            evaluate_enter_id: id,
        })
    };
    let reply = handlers.evaluate_enter(&mut arbiter, &question(1), None, NOW, NOW_MILLIS);
    assert_eq!(
        decode_evaluate_enter_answer(&reply.answer).unwrap(),
        EvaluateEnterAnswer::Accepted { chosen_lvl: 1 }
    );
    let record = encode_hooking_memory(&reply.write.unwrap());
    let garbage = TypedValue::new("ntkd.Unit", vec![]);
    let reply = handlers.evaluate_enter(&mut arbiter, &garbage, Some(&record), NOW, NOW_MILLIS);
    assert_eq!(
        decode_evaluate_enter_answer(&reply.answer).unwrap(),
        EvaluateEnterAnswer::IgnoreNetwork
    );
    assert_eq!(handlers.completed_enter(), encode_unit());
    assert_eq!(handlers.begin_enter(), encode_unit());
    let reply = handlers.evaluate_enter(&mut arbiter, &question(2), Some(&record), NOW, NOW_MILLIS);
    assert_eq!(
        decode_evaluate_enter_answer(&reply.answer).unwrap(),
        EvaluateEnterAnswer::IgnoreNetwork
    );
    let aborted = handlers.abort_enter(&mut arbiter, coordinator_top(1), Some(&record));
    assert_eq!(aborted.answer, encode_unit());
    assert!(aborted.write.unwrap().elections.get(&1).is_none());
    let reply = handlers.evaluate_enter(&mut arbiter, &question(2), None, NOW, NOW_MILLIS);
    assert_eq!(
        decode_evaluate_enter_answer(&reply.answer).unwrap(),
        EvaluateEnterAnswer::Accepted { chosen_lvl: 1 }
    );
}

const TTL: u64 = 200_000_000;

fn merge_ask(
    member: &mut CoordinatorClientAdapter,
    record: &mut Record,
    req: MergeArbitrationRequest,
    my_n_nodes: u64,
    after_millis: u64,
) -> bool {
    let decided = member.decide_merge(
        req,
        record.0.as_ref(),
        my_n_nodes,
        NOW + after_millis * 1_000_000,
        NOW_MILLIS + after_millis,
    );
    record.keep(decided.write);
    decided.decision
}

#[test]
fn decide_merge_agrees_across_members_within_the_freshness_window() {
    let mut record = Record::new();
    let mut verdicts = Vec::new();
    for (i, neighbor_n_nodes) in [100u64, 0, 55].into_iter().enumerate() {
        let mut member = CoordinatorClientAdapter::new(TTL);
        let req = MergeArbitrationRequest {
            my_network_id: 1,
            neighbor_network_id: 42,
            neighbor_n_nodes,
        };
        assert_eq!(member.needs_size(req, record.0.as_ref(), NOW, NOW_MILLIS), i == 0);
        verdicts.push(merge_ask(&mut member, &mut record, req, 1, i as u64));
    }
    assert!(verdicts.iter().all(|&v| v == verdicts[0]), "{verdicts:?}");
    assert!(verdicts[0]);
}

#[test]
fn decide_merge_reaches_exactly_one_migrator_and_the_winner_never_flips_within_its_window() {
    let (small_id, large_id) = (1_i64, 2_i64);
    let mut record_a = Record::new();
    let mut record_b = Record::new();
    let mut adapter_a = CoordinatorClientAdapter::new(TTL);
    let mut adapter_b = CoordinatorClientAdapter::new(TTL);
    let ask_a = MergeArbitrationRequest {
        my_network_id: small_id,
        neighbor_network_id: large_id,
        neighbor_n_nodes: 1,
    };
    let ask_b = MergeArbitrationRequest {
        my_network_id: large_id,
        neighbor_network_id: small_id,
        neighbor_n_nodes: 1,
    };
    assert!(merge_ask(&mut adapter_a, &mut record_a, ask_a, 1, 0));
    assert!(!merge_ask(&mut adapter_b, &mut record_b, ask_b, 1, 0));
    let stale_reask = MergeArbitrationRequest { neighbor_n_nodes: 1_000, ..ask_b };
    assert!(!merge_ask(&mut adapter_b, &mut record_b, stale_reask, 1, 50));
}

#[test]
fn decide_merge_re_evaluates_once_its_freshness_window_elapses() {
    let short_ttl = 20_000_000;
    let mut record = Record::new();
    let mut adapter = CoordinatorClientAdapter::new(short_ttl);
    let grew = MergeArbitrationRequest {
        my_network_id: 1,
        neighbor_network_id: 99,
        neighbor_n_nodes: 100,
    };
    assert!(merge_ask(&mut adapter, &mut record, grew, 1, 0));
    let shrank = MergeArbitrationRequest { neighbor_n_nodes: 0, ..grew };
    assert!(merge_ask(&mut adapter, &mut record, shrank, 1, 19));
    assert!(!merge_ask(&mut adapter, &mut record, shrank, 1, 60));
}

#[test]
fn decide_merge_after_an_aborted_entry_redecides_from_fresh_data() {
    let short_ttl = 20_000_000;
    let mut record = Record::new();
    let mut adapter = CoordinatorClientAdapter::new(short_ttl);
    let first_try = MergeArbitrationRequest {
        my_network_id: 1,
        neighbor_network_id: 2,
        neighbor_n_nodes: 1,
    };
    assert!(merge_ask(&mut adapter, &mut record, first_try, 1, 0));
    let redo = MergeArbitrationRequest { neighbor_n_nodes: 1000, ..first_try };
    assert!(merge_ask(&mut adapter, &mut record, redo, 1, 60));
}

const GROWN: MergeArbitrationRequest = MergeArbitrationRequest {
    my_network_id: 1,
    neighbor_network_id: 42,
    neighbor_n_nodes: 100,
};

const SHRUNK: MergeArbitrationRequest =
    MergeArbitrationRequest { my_network_id: 1, neighbor_network_id: 42, neighbor_n_nodes: 0 };

#[test]
fn a_verdict_read_late_is_not_repeated_past_its_window() {
    let mut record = Record::new();
    let mut decider = CoordinatorClientAdapter::new(TTL);
    let mut reader = CoordinatorClientAdapter::new(TTL);
    assert!(merge_ask(&mut decider, &mut record, GROWN, 1, 0));
    assert!(merge_ask(&mut reader, &mut record, SHRUNK, 1, 180));
    assert!(!reader.needs_size(SHRUNK, None, NOW + 198_999_999, NOW_MILLIS + 198));
    assert!(reader.needs_size(SHRUNK, None, NOW + 200_000_000, NOW_MILLIS + 200));
    assert!(!merge_ask(&mut reader, &mut record, SHRUNK, 1, 300));
}

#[test]
fn a_member_that_read_an_old_verdict_follows_the_new_one() {
    let mut record = Record::new();
    let mut decider = CoordinatorClientAdapter::new(TTL);
    let mut reader = CoordinatorClientAdapter::new(TTL);
    assert!(merge_ask(&mut decider, &mut record, GROWN, 1, 0));
    assert!(merge_ask(&mut reader, &mut record, GROWN, 1, 180));
    assert!(!merge_ask(&mut decider, &mut record, SHRUNK, 1, 240));
    assert!(!merge_ask(&mut reader, &mut record, GROWN, 1, 300));
    assert!(!merge_ask(&mut decider, &mut record, GROWN, 1, 439));
    assert!(merge_ask(&mut decider, &mut record, GROWN, 1, 440));
}

#[test]
fn a_members_own_verdict_goes_by_the_steady_clock_alone() {
    let mut member = CoordinatorClientAdapter::new(TTL);
    let decided = member.decide_merge(GROWN, None, 1, NOW, NOW_MILLIS);
    assert!(decided.decision);
    for now_millis in [0, NOW_MILLIS - 1, NOW_MILLIS + 200, u64::MAX] {
        assert!(!member.needs_size(SHRUNK, None, NOW + TTL - 1, now_millis));
        let again = member.decide_merge(SHRUNK, None, 1, NOW + TTL - 1, now_millis);
        assert!(again.decision);
        assert!(again.write.is_none());
    }
    assert!(!member.decide_merge(SHRUNK, None, 1, NOW + TTL, NOW_MILLIS).decision);
}

#[test]
fn a_window_shorter_than_a_millisecond_is_kept_too() {
    let mut member = CoordinatorClientAdapter::new(500_000);
    assert!(member.decide_merge(GROWN, None, 1, NOW, NOW_MILLIS).decision);
    assert!(!member.needs_size(SHRUNK, None, NOW + 499_999, NOW_MILLIS));
    assert!(member.decide_merge(SHRUNK, None, 1, NOW + 499_999, NOW_MILLIS).decision);
    assert!(!member.decide_merge(SHRUNK, None, 1, NOW + 500_000, NOW_MILLIS).decision);
}

#[test]
fn what_was_decided_by_a_size_is_trusted_as_long_as_the_size() {
    let config = coordinator_config();
    assert_eq!(config.n_nodes_cache_ttl_millis, 200);
    let mut record = Record::new();
    let mut member = coordinator_client();
    assert!(merge_ask(&mut member, &mut record, GROWN, 1, 0));
    assert!(!member.needs_size(SHRUNK, None, NOW + 199_999_999, NOW_MILLIS + 199));
    assert!(member.needs_size(SHRUNK, None, NOW + 200_000_000, NOW_MILLIS + 200));
}

#[test]
fn deciding_drops_the_verdicts_that_are_too_old() {
    let mut mem = HookingMemory::default();
    mem.merge_decisions.insert(5, (true, NOW_MILLIS - 200));
    mem.merge_decisions.insert(6, (true, NOW_MILLIS - 199));
    let record = encode_hooking_memory(&mem);
    let mut adapter = CoordinatorClientAdapter::new(TTL);
    let req = MergeArbitrationRequest {
        my_network_id: 1,
        neighbor_network_id: 7,
        neighbor_n_nodes: 0,
    };
    let decided = adapter.decide_merge(req, Some(&record), 3, NOW, NOW_MILLIS);
    let written = decided.write.unwrap();
    assert_eq!(written.merge_decisions.get(&5), None);
    assert_eq!(written.merge_decisions.get(&6), Some(&(true, NOW_MILLIS - 199)));
    assert_eq!(written.merge_decisions.get(&7), Some(&(false, NOW_MILLIS)));
}

#[test]
fn exactly_one_of_two_networks_yields() {
    for (a, b) in [(1, 1), (1, 2), (9, 3)] {
        assert_ne!(merge_tiebreak(a, b, 10, 20), merge_tiebreak(b, a, 20, 10));
    }
    assert!(merge_tiebreak(1, 2, 20, 10));
    assert!(!merge_tiebreak(1, 1, 5, 5));
}

#[test]
fn a_coordinators_replies_are_understood() {
    let answer = |a| Ok(encode_evaluate_enter_answer(a));
    assert_eq!(enter_outcome(answer(EvaluateEnterAnswer::Accepted { chosen_lvl: 2 })), Ok(2));
    assert_eq!(
        enter_outcome(answer(EvaluateEnterAnswer::AskAgain)),
        Err(CoordinatorError::AskAgain)
    );
    assert_eq!(
        enter_outcome(answer(EvaluateEnterAnswer::IgnoreNetwork)),
        Err(CoordinatorError::IgnoreNetwork)
    );
    assert_eq!(
        enter_outcome(Err("gone".to_string())),
        Err(CoordinatorError::Unreachable("gone".to_string()))
    );
    assert_eq!(
        enter_outcome(Ok(TypedValue::new("x", vec![]))),
        Err(CoordinatorError::Unreachable(
            "TypedValue type_tag mismatch: expected \"ntkd.EvaluateEnterAnswer\", got \"x\""
                .to_string()
        ))
    );
    assert_eq!(
        enter_outcome(Ok(TypedValue::new("ntkd.EvaluateEnterAnswer", vec![]))),
        Err(CoordinatorError::Unreachable(
            "malformed ntkd-internal payload: missing field `kind`".to_string()
        ))
    );
    assert_eq!(
        reservation_outcome(Ok(Some((3, 9)))),
        Ok(Reservation { pos: 3, eldership: 9 })
    );
    assert_eq!(
        reservation_outcome(Ok(Some((3, u64::MAX)))),
        Ok(Reservation { pos: 3, eldership: i32::MAX })
    );
    assert_eq!(reservation_outcome(Ok(None)), Err(CoordinatorError::NoCoordinatorForLevel));
    assert!(reservation_outcome(Err("x".to_string())).is_err());
    assert_eq!(n_nodes_outcome(Ok(6)), 6);
    assert_eq!(n_nodes_outcome(Err("x".to_string())), 1);
}
