use ntkd::node::codec::{
    decode_enter_id, decode_evaluate_enter_answer, decode_evaluate_enter_request,
    decode_finish_enter_data, decode_finish_migration_data, decode_hooking_memory,
    decode_migration_id, encode_enter_id, encode_evaluate_enter_answer,
    encode_evaluate_enter_request, encode_finish_enter_data, encode_finish_migration_data,
    encode_hooking_memory, encode_migration_id, encode_unit, evaluate_enter_answer_of,
    evaluate_enter_request_of, finish_enter_data_of, finish_migration_data_of, hooking_memory_of,
    id_of, now_millis, unwire, CodecError, ElectionRecord, EntryData, EvaluateEnterAnswer,
    EvaluateEnterRequest, FinishEnterData, FinishMigrationData, HookingMemory,
};
use ntkd::node::wire::TypedValue;

fn text(tv: &TypedValue) -> String {
    String::from_utf8(tv.payload.clone()).unwrap()
}

#[test]
fn evaluate_enter_request_round_trips() {
    let req = EvaluateEnterRequest {
        network_id: 42,
        neighbor_pos: vec![1, 2, 3],
        neighbor_min_lvl: 1,
        min_lvl: 0,
        evaluate_enter_id: 7,
    };
    let encoded = encode_evaluate_enter_request(&req);
    assert_eq!(
        text(&encoded),
        "network_id = 42\nneighbor_pos = [1, 2, 3]\nneighbor_min_lvl = 1\nmin_lvl = 0\nevaluate_enter_id = 7\n"
    );
    let decoded = decode_evaluate_enter_request(&encoded).unwrap();
    assert_eq!(decoded, req);
}

#[test]
fn hooking_memory_round_trips_and_starts_empty() {
    assert_eq!(
        decode_hooking_memory(&encode_hooking_memory(&HookingMemory::default())).unwrap(),
        HookingMemory::default()
    );
    let mut mem = HookingMemory::default();
    mem.merge_decisions.insert(11i64, (true, 1_000u64));
    mem.merge_decisions.insert(-5i64, (false, 2_000u64));
    mem.elections.insert(
        1,
        ElectionRecord { network_id: 42, evaluate_enter_id: 7, granted_at_millis: 3_000 },
    );
    let decoded = decode_hooking_memory(&encode_hooking_memory(&mem)).unwrap();
    assert_eq!(decoded, mem);
}

#[test]
fn merge_decisions_and_elections_round_trip_independently() {
    let mut mem = HookingMemory::default();
    mem.elections.insert(
        0,
        ElectionRecord { network_id: 1, evaluate_enter_id: 1, granted_at_millis: 500 },
    );
    let mut mem = decode_hooking_memory(&encode_hooking_memory(&mem)).unwrap();
    mem.merge_decisions.insert(9, (true, 100));
    let decoded = decode_hooking_memory(&encode_hooking_memory(&mem)).unwrap();
    assert_eq!(decoded.merge_decisions.get(&9), Some(&(true, 100)));
    assert_eq!(
        decoded.elections.get(&0),
        Some(&ElectionRecord { network_id: 1, evaluate_enter_id: 1, granted_at_millis: 500 })
    );
}

#[test]
fn evaluate_enter_answer_round_trips_every_variant() {
    for answer in [
        EvaluateEnterAnswer::Accepted { chosen_lvl: 3 },
        EvaluateEnterAnswer::AskAgain,
        EvaluateEnterAnswer::IgnoreNetwork,
    ] {
        let decoded = decode_evaluate_enter_answer(&encode_evaluate_enter_answer(answer)).unwrap();
        assert_eq!(decoded, answer);
    }
    assert_eq!(
        text(&encode_evaluate_enter_answer(EvaluateEnterAnswer::Accepted { chosen_lvl: 3 })),
        "kind = \"Accepted\"\nchosen_lvl = 3\n"
    );
}

#[test]
fn migration_id_and_enter_id_round_trip() {
    assert_eq!(decode_migration_id(&encode_migration_id(-5)).unwrap(), -5);
    assert_eq!(decode_enter_id(&encode_enter_id(9)).unwrap(), 9);
    assert_eq!(text(&encode_enter_id(9)), "value = 9\n");
    for id in [i32::MIN, -1, 0, 1, i32::MAX] {
        assert_eq!(decode_migration_id(&encode_migration_id(id)).unwrap(), id);
    }
}

#[test]
fn finish_migration_data_round_trips() {
    let data = FinishMigrationData {
        migration_id: 11,
        migration_data: EntryData {
            network_id: 5,
            pos: vec![0, 1],
            elderships: vec![-1, 2],
        },
        go_connectivity_position: 3,
    };
    let encoded = encode_finish_migration_data(&data);
    assert_eq!(
        text(&encoded),
        "migration_id = 11\ngo_connectivity_position = 3\n\n[migration_data]\nnetwork_id = 5\npos = [0, 1]\nelderships = [-1, 2]\n"
    );
    let decoded = decode_finish_migration_data(&encoded).unwrap();
    assert_eq!(decoded, data);
}

#[test]
fn finish_enter_data_round_trips() {
    let data = FinishEnterData {
        enter_id: 21,
        entry_data: EntryData {
            network_id: 6,
            pos: vec![2],
            elderships: vec![0],
        },
        go_connectivity_position: 4,
    };
    let decoded = decode_finish_enter_data(&encode_finish_enter_data(&data)).unwrap();
    assert_eq!(decoded, data);
}

#[test]
fn unit_round_trips_and_decoders_reject_a_mismatched_tag() {
    decode_evaluate_enter_answer(&encode_unit())
        .expect_err("wrong tag must be rejected, not silently misdecoded");
    let tv = encode_evaluate_enter_answer(EvaluateEnterAnswer::AskAgain);
    assert_eq!(tv.type_tag, "ntkd.EvaluateEnterAnswer");
    assert_eq!(text(&encode_unit()), "");
    assert_eq!(encode_unit().type_tag, "ntkd.Unit");
}

#[test]
fn malformed_payloads_are_refused() {
    let value = |payload: &str| TypedValue::new("ntkd.MigrationId", payload.as_bytes().to_vec());
    for payload in [
        "",
        "value = true\n",
        "value = 2147483648\n",
        "other = 1\n",
        "value = ",
        "value = 1.0\n",
    ] {
        assert!(
            matches!(decode_migration_id(&value(payload)), Err(CodecError::Toml(_))),
            "{payload}"
        );
    }
    assert_eq!(decode_migration_id(&value("extra = 0\nvalue = 4\n")), Ok(4));
    let raw = TypedValue::new("ntkd.MigrationId", vec![0xff, 0xfe]);
    assert!(matches!(decode_migration_id(&raw), Err(CodecError::Toml(_))));
    let error = decode_enter_id(&value("value = 4\n")).unwrap_err();
    assert_eq!(
        error.message(),
        "TypedValue type_tag mismatch: expected \"ntkd.EnterId\", got \"ntkd.MigrationId\""
    );
}

#[test]
fn a_refused_payload_names_its_fault() {
    let refused = |tag: &str, payload: &[u8]| TypedValue::new(tag, payload.to_vec());
    let told = |reason: &str| format!("malformed ntkd-internal payload: {reason}");
    let id = |payload: &[u8]| {
        decode_migration_id(&refused("ntkd.MigrationId", payload)).unwrap_err().message()
    };
    assert_eq!(id(b""), told("missing field `value`"));
    assert_eq!(id(b"value = true\n"), told("malformed field `value`"));
    assert_eq!(
        id(&[b'a', 0xff]),
        told("invalid utf-8 sequence of 1 bytes from index 1")
    );
    let answer = |payload: &[u8]| {
        decode_evaluate_enter_answer(&refused("ntkd.EvaluateEnterAnswer", payload))
            .unwrap_err()
            .message()
    };
    assert_eq!(answer(b"chosen_lvl = 1\n"), told("missing field `kind`"));
    assert_eq!(answer(b"kind = \"Perhaps\"\n"), told("malformed field `kind`"));
    assert_eq!(answer(b"kind = \"Accepted\"\n"), told("missing field `chosen_lvl`"));
    let finish = b"enter_id = 1\ngo_connectivity_position = -4\n";
    assert_eq!(
        decode_finish_enter_data(&refused("ntkd.FinishEnterData", finish)).unwrap_err().message(),
        told("malformed field `go_connectivity_position`")
    );
    let memory = b"merge_decisions = []\n";
    assert_eq!(
        decode_hooking_memory(&refused("ntkd.HookingMemory", memory)).unwrap_err().message(),
        told("missing field `elections`")
    );
}

#[test]
fn compound_payloads_may_list_their_members() {
    let tv = TypedValue::new(
        "ntkd.FinishEnterData",
        b"enter_id = 1\nentry_data = [6, [2], [0]]\ngo_connectivity_position = 4\n".to_vec(),
    );
    assert_eq!(
        decode_finish_enter_data(&tv).unwrap(),
        FinishEnterData {
            enter_id: 1,
            entry_data: EntryData { network_id: 6, pos: vec![2], elderships: vec![0] },
            go_connectivity_position: 4,
        }
    );
    let short = TypedValue::new(
        "ntkd.HookingMemory",
        b"merge_decisions = [[1, true]]\nelections = []\n".to_vec(),
    );
    assert!(decode_hooking_memory(&short).is_err());
    let twice = TypedValue::new(
        "ntkd.HookingMemory",
        b"merge_decisions = [[1, true, 5], [1, false, 6]]\nelections = []\n".to_vec(),
    );
    let memory = decode_hooking_memory(&twice).unwrap();
    assert_eq!(memory.merge_decisions.get(&1), Some(&(false, 6)));
}

#[test]
fn great_levels_are_written_as_the_greatest() {
    let mut mem = HookingMemory::default();
    let record = ElectionRecord { network_id: 1, evaluate_enter_id: 1, granted_at_millis: 500 };
    mem.elections.insert(usize::MAX, record);
    let decoded = decode_hooking_memory(&encode_hooking_memory(&mem)).unwrap();
    assert_eq!(decoded.elections.get(&(u32::MAX as usize)), Some(&record));
    assert_eq!(decoded.elections.get(&usize::MAX), None);
}

#[test]
fn numbers_above_the_signed_range_are_written_and_read() {
    let mut mem = HookingMemory::default();
    mem.merge_decisions.insert(i64::MIN, (true, u64::MAX));
    let record =
        ElectionRecord { network_id: i64::MAX, evaluate_enter_id: -1, granted_at_millis: 1 << 63 };
    mem.elections.insert(2, record);
    let encoded = encode_hooking_memory(&mem);
    assert_eq!(
        text(&encoded),
        "merge_decisions = [[-9223372036854775808, true, 18446744073709551615]]\n\
         elections = [[2, 9223372036854775807, -1, 9223372036854775808]]\n"
    );
    assert_eq!(decode_hooking_memory(&encoded).unwrap(), mem);
    let answer = TypedValue::new(
        "ntkd.EvaluateEnterAnswer",
        b"kind = \"Accepted\"\nchosen_lvl = 18446744073709551615\n".to_vec(),
    );
    assert_eq!(
        decode_evaluate_enter_answer(&answer).unwrap(),
        EvaluateEnterAnswer::Accepted { chosen_lvl: usize::MAX }
    );
    let memory = |payload: &str| {
        decode_hooking_memory(&TypedValue::new("ntkd.HookingMemory", payload.as_bytes().to_vec()))
    };
    assert!(memory("merge_decisions = [[1, true, 18446744073709551616]]\nelections = []\n").is_err());
    assert!(memory("merge_decisions = [[9223372036854775808, true, 1]]\nelections = []\n").is_err());
    assert!(memory("merge_decisions = [[1, true, -1]]\nelections = []\n").is_err());
    let id = |payload: &str| {
        decode_migration_id(&TypedValue::new("ntkd.MigrationId", payload.as_bytes().to_vec()))
    };
    assert_eq!(id("value = 4\nextra = 18446744073709551615\n"), Ok(4));
    assert_eq!(id("value = 0x1_0\n"), Ok(16));
    assert_eq!(id("value = +7\n"), Ok(7));
    assert_eq!(id("value = 0b101\n"), Ok(5));
    assert_eq!(id("value = -0o17\n").is_err(), true);
}

#[test]
fn an_empty_memory_is_written_as_two_empty_lists() {
    let encoded = encode_hooking_memory(&HookingMemory::default());
    assert_eq!(encoded.type_tag, "ntkd.HookingMemory");
    assert_eq!(text(&encoded), "merge_decisions = []\nelections = []\n");
}

#[test]
fn a_document_is_read_by_itself() {
    let document = |text: &'static str| {
        toml::de::DeValue::Table(toml::de::DeTable::parse(text).unwrap().into_inner())
    };
    assert_eq!(id_of(&document("value = -5\n")), Ok(-5));
    assert_eq!(
        id_of(&document("")),
        Err(CodecError::Toml("missing field `value`".to_owned()))
    );
    assert_eq!(
        evaluate_enter_answer_of(&document("kind = \"AskAgain\"\n")),
        Ok(EvaluateEnterAnswer::AskAgain)
    );
    let question = document(
        "network_id = 1\nneighbor_pos = [2]\nneighbor_min_lvl = 3\nmin_lvl = 4\nevaluate_enter_id = 5\n",
    );
    assert_eq!(
        evaluate_enter_request_of(&question),
        Ok(EvaluateEnterRequest {
            network_id: 1,
            neighbor_pos: vec![2],
            neighbor_min_lvl: 3,
            min_lvl: 4,
            evaluate_enter_id: 5,
        })
    );
    let entry = || EntryData { network_id: 6, pos: vec![2], elderships: vec![-1] };
    let section = "network_id = 6\npos = [2]\nelderships = [-1]\n";
    let migration: &'static str = format!(
        "migration_id = 7\ngo_connectivity_position = 8\n[migration_data]\n{section}"
    )
    .leak();
    assert_eq!(
        finish_migration_data_of(&document(migration)),
        Ok(FinishMigrationData {
            migration_id: 7,
            migration_data: entry(),
            go_connectivity_position: 8,
        })
    );
    let enter: &'static str =
        format!("enter_id = 9\ngo_connectivity_position = 8\n[entry_data]\n{section}").leak();
    assert_eq!(
        finish_enter_data_of(&document(enter)),
        Ok(FinishEnterData { enter_id: 9, entry_data: entry(), go_connectivity_position: 8 })
    );
    let memory =
        hooking_memory_of(&document("merge_decisions = [[1, true, 5]]\nelections = []\n")).unwrap();
    assert_eq!(memory.merge_decisions.get(&1), Some(&(true, 5)));
}

#[test]
fn the_document_of_a_value_is_opened_by_its_tag() {
    let value = encode_migration_id(3);
    let document = unwire(&value, "ntkd.MigrationId").unwrap();
    assert_eq!(id_of(&document), Ok(3));
    assert_eq!(
        unwire(&value, "ntkd.EnterId").unwrap_err(),
        CodecError::TagMismatch {
            expected: "ntkd.EnterId".to_owned(),
            actual: "ntkd.MigrationId".to_owned(),
        }
    );
}

#[test]
fn the_clock_is_past_the_epoch() {
    assert!(now_millis() > 1_000_000_000_000);
}
