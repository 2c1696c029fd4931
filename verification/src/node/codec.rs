//! The messages that nodes exchange about entries, migrations and merges: each a tagged TOML
//! document.
use vstd::prelude::*;
use vstd::string::*;
use vstd::utf8::{decode_utf8, encode_utf8, valid_utf8};
use crate::clock::{since_epoch, whole_millis};
use crate::document::{
    a_fault_is_named, array, as_array, as_integer, as_str, check_views, election_rows, fault_text,
    field_is_found, find_fault, get, held, held_all, integer, is_plain, is_row, is_section, is_word,
    keys_are_plain, names_a_field, parse, parsed, render, render_rows, rendered, string, table,
    text_of_bytes, text_survives_bytes, utf8_fault, verdict_rows, written, written_all,
    written_fields, CheckView, FieldCheck, Toml,
};
use crate::node::wire::{TypedValue, TypedView};
use crate::sorted_map::{ascending, map_of, map_of_ascending, SortedMap};
use crate::text::{debug_form, debug_text, same_text};

verus! {

/// Why a value could not be read.
#[derive(Debug, PartialEq, Eq)]
pub enum CodecError {
    /// It is tagged as something else.
    TagMismatch {
        /// The tag that was looked for.
        expected: String,
        /// The tag that was found.
        actual: String,
    },
    /// Its payload is no such document.
    Toml(String),
}

/// What a [`CodecError`] says.
pub enum Refusal {
    /// The value is tagged as something else.
    TagMismatch {
        /// The tag that was looked for.
        expected: Seq<char>,
        /// The tag that was found.
        actual: Seq<char>,
    },
    /// Its payload is no such document, and why.
    Toml(Seq<char>),
}

impl Refusal {
    /// The message for an operator.
    pub open spec fn printed(self) -> Seq<char> {
        match self {
            Refusal::TagMismatch { expected, actual } =>
                "TypedValue type_tag mismatch: expected "@ + debug_form(expected) + ", got "@
                    + debug_form(actual),
            Refusal::Toml(reason) => "malformed ntkd-internal payload: "@ + reason,
        }
    }
}

impl CodecError {
    /// What it says.
    pub open spec fn view(&self) -> Refusal {
        match *self {
            CodecError::TagMismatch { expected, actual } => Refusal::TagMismatch {
                expected: expected@,
                actual: actual@,
            },
            CodecError::Toml(reason) => Refusal::Toml(reason@),
        }
    }

    /// The message for an operator.
    pub fn message(&self) -> (r: String)
        ensures
            r@ == self@.printed(),
    {
        match self {
            CodecError::TagMismatch { expected, actual } => {
                let mut r = String::from_str("TypedValue type_tag mismatch: expected ");
                r.append(debug_text(expected.as_str()).as_str());
                r.append(", got ");
                r.append(debug_text(actual.as_str()).as_str());
                r
            },
            CodecError::Toml(reason) => {
                let mut r = String::from_str("malformed ntkd-internal payload: ");
                r.append(reason.as_str());
                r
            },
        }
    }
}

/// The document that a payload holds, if it holds one.
pub open spec fn document_in(payload: Seq<u8>) -> Option<Toml> {
    if valid_utf8(payload) && parsed(decode_utf8(payload)) is Ok {
        Some(parsed(decode_utf8(payload))->Ok_0)
    } else {
        None
    }
}

/// The value in which the table travels under `tag`.
pub open spec fn wired(tag: Seq<char>, document: Toml) -> TypedView {
    TypedView { tag, payload: encode_utf8(rendered(document)) }
}

/// The value in which a plain table travels under `tag`.
pub fn wire(tag: &str, document: &toml::Value) -> (r: TypedValue)
    requires
        is_plain(written(*document)),
    ensures
        r@ == wired(tag@, written(*document)),
        document_in(r@.payload) == Some(written(*document)),
        opened(tag@, r@) is Ok && opened(tag@, r@)->Ok_0 == written(*document),
{
    let text = render(document);
    proof {
        text_survives_bytes(text@);
    }
    TypedValue::new(tag, text.as_str().as_bytes_vec())
}

/// The document of a value that is tagged as `tag`, or why there is none.
pub open spec fn opened(tag: Seq<char>, tv: TypedView) -> Result<Toml, Refusal> {
    if tv.tag != tag {
        Err(Refusal::TagMismatch { expected: tag, actual: tv.tag })
    } else if !valid_utf8(tv.payload) {
        Err(Refusal::Toml(utf8_fault(tv.payload)))
    } else {
        match parsed(decode_utf8(tv.payload)) {
            Ok(d) => Ok(d),
            Err(reason) => Err(Refusal::Toml(reason)),
        }
    }
}

/// The document of a value that is tagged as `expected_tag`.
pub fn unwire<'a>(tv: &'a TypedValue, expected_tag: &str) -> (r: Result<
    toml::de::DeValue<'a>,
    CodecError,
>)
    ensures
        match opened(expected_tag@, tv@) {
            Ok(d) => r is Ok && held(r->Ok_0) == d,
            Err(refusal) => r is Err && r->Err_0@ == refusal,
        },
{
    if !same_text(tv.type_tag.as_str(), expected_tag) {
        return Err(
            CodecError::TagMismatch {
                expected: expected_tag.to_owned(),
                actual: tv.type_tag.clone(),
            },
        );
    }
    match text_of_bytes(&tv.payload) {
        Err(reason) => Err(CodecError::Toml(reason)),
        Ok(text) => match parse(text) {
            Ok(document) => Ok(document),
            Err(reason) => Err(CodecError::Toml(reason)),
        },
    }
}

fn malformed(document: &toml::de::DeValue, checks: &Vec<FieldCheck>) -> (r: CodecError)
    ensures
        r@ == Refusal::Toml(fault_text(held(*document), check_views(checks@))),
{
    CodecError::Toml(find_fault(document, checks))
}

fn needed<'a>(name: &'a str, fits: bool) -> (r: FieldCheck<'a>)
    ensures
        r == (FieldCheck { name, fits, required: true }),
{
    FieldCheck { name, fits, required: true }
}

/// A field that may not be left out.
pub open spec fn needs(name: Seq<char>, fits: bool) -> CheckView {
    CheckView { name, fits, required: true }
}

/// What travels between nodes.
pub enum Kind {
    /// A migration's id.
    MigrationId,
    /// An entry's id.
    EnterId,
    /// A question whether a g-node may enter.
    EvaluateEnterRequest,
    /// The answer to it.
    EvaluateEnterAnswer,
    /// A finished migration.
    FinishMigrationData,
    /// A finished entry.
    FinishEnterData,
    /// A coordinator's memory.
    HookingMemory,
}

/// What a value of some kind says.
pub enum Payload {
    /// An id.
    Id(int),
    /// A question.
    Request(RequestView),
    /// An answer.
    Answer(EvaluateEnterAnswer),
    /// A finished move.
    Finish(FinishView),
    /// A memory.
    Memory(MemoryView),
}

impl Kind {
    /// The tag under which it travels.
    pub open spec fn tag(self) -> Seq<char> {
        match self {
            Kind::MigrationId => "ntkd.MigrationId"@,
            Kind::EnterId => "ntkd.EnterId"@,
            Kind::EvaluateEnterRequest => "ntkd.EvaluateEnterRequest"@,
            Kind::EvaluateEnterAnswer => "ntkd.EvaluateEnterAnswer"@,
            Kind::FinishMigrationData => "ntkd.FinishMigrationData"@,
            Kind::FinishEnterData => "ntkd.FinishEnterData"@,
            Kind::HookingMemory => "ntkd.HookingMemory"@,
        }
    }

    /// What a document says as a value of this kind, if it is one.
    pub open spec fn read(self, d: Toml) -> Option<Payload> {
        match self {
            Kind::MigrationId | Kind::EnterId => match scalar_in(Some(d)) {
                Some(id) => Some(Payload::Id(id)),
                None => None,
            },
            Kind::EvaluateEnterRequest => match request_in(Some(d)) {
                Some(q) => Some(Payload::Request(q)),
                None => None,
            },
            Kind::EvaluateEnterAnswer => match answer_in(Some(d)) {
                Some(answer) => Some(Payload::Answer(answer)),
                None => None,
            },
            Kind::FinishMigrationData => match finish_in(
                Some(d),
                "migration_id"@,
                "migration_data"@,
            ) {
                Some(f) => Some(Payload::Finish(f)),
                None => None,
            },
            Kind::FinishEnterData => match finish_in(Some(d), "enter_id"@, "entry_data"@) {
                Some(f) => Some(Payload::Finish(f)),
                None => None,
            },
            Kind::HookingMemory => match memory_in(Some(d)) {
                Some(memory) => Some(Payload::Memory(memory)),
                None => None,
            },
        }
    }

    /// The fields that a document of this kind is to have, and whether those of `d` fit.
    pub open spec fn checks(self, d: Toml) -> Seq<CheckView> {
        match self {
            Kind::MigrationId | Kind::EnterId => seq![
                needs("value"@, scalar_in(Some(d)) is Some),
            ],
            Kind::EvaluateEnterRequest => seq![
                needs(
                    "network_id"@,
                    integer_in(d.field("network_id"@), i64::MIN as int, i64::MAX as int) is Some,
                ),
                needs(
                    "neighbor_pos"@,
                    integers_in(d.field("neighbor_pos"@), 0, u32::MAX as int) is Some,
                ),
                needs(
                    "neighbor_min_lvl"@,
                    integer_in(d.field("neighbor_min_lvl"@), 0, level_limit()) is Some,
                ),
                needs("min_lvl"@, integer_in(d.field("min_lvl"@), 0, level_limit()) is Some),
                needs(
                    "evaluate_enter_id"@,
                    integer_in(
                        d.field("evaluate_enter_id"@),
                        i32::MIN as int,
                        i32::MAX as int,
                    ) is Some,
                ),
            ],
            Kind::EvaluateEnterAnswer => answer_checks(d),
            Kind::FinishMigrationData => finish_checks(d, "migration_id"@, "migration_data"@),
            Kind::FinishEnterData => finish_checks(d, "enter_id"@, "entry_data"@),
            Kind::HookingMemory => seq![
                needs("merge_decisions"@, decisions_in(d.field("merge_decisions"@)) is Some),
                needs("elections"@, elections_in(d.field("elections"@)) is Some),
            ],
        }
    }
}

/// Whether an answer's kind is one that there is.
pub open spec fn is_answer_kind(v: Option<Toml>) -> bool {
    v == Some(Toml::Text("Accepted"@)) || v == Some(Toml::Text("AskAgain"@)) || v == Some(
        Toml::Text("IgnoreNetwork"@),
    )
}

/// The fields of an answer: its kind, and the level where it grants one.
pub open spec fn answer_checks(d: Toml) -> Seq<CheckView> {
    let kind = needs("kind"@, is_answer_kind(d.field("kind"@)));
    if d.field("kind"@) == Some(Toml::Text("Accepted"@)) {
        seq![
            kind,
            needs("chosen_lvl"@, integer_in(d.field("chosen_lvl"@), 0, level_limit()) is Some),
        ]
    } else {
        seq![kind]
    }
}

/// The fields of a finished move, under the keys of its kind.
pub open spec fn finish_checks(d: Toml, id_key: Seq<char>, entry_key: Seq<char>) -> Seq<CheckView> {
    seq![
        needs(id_key, integer_in(d.field(id_key), i32::MIN as int, i32::MAX as int) is Some),
        needs(entry_key, entry_in(d.field(entry_key)) is Some),
        needs(
            "go_connectivity_position"@,
            integer_in(d.field("go_connectivity_position"@), 0, u32::MAX as int) is Some,
        ),
    ]
}

/// What a document says as one of this kind, or why it is none.
pub open spec fn read_as(kind: Kind, d: Toml) -> Result<Payload, Refusal> {
    match kind.read(d) {
        Some(payload) => Ok(payload),
        None => Err(Refusal::Toml(fault_text(d, kind.checks(d)))),
    }
}

/// What a value says as one of this kind, or why it is none.
pub open spec fn decoded(kind: Kind, tv: TypedView) -> Result<Payload, Refusal> {
    match opened(kind.tag(), tv) {
        Err(refusal) => Err(refusal),
        Ok(d) => read_as(kind, d),
    }
}

/// All the values, where none is missing.
pub open spec fn every<T>(s: Seq<Option<T>>) -> Option<Seq<T>> {
    if forall|i: int| 0 <= i < s.len() ==> (#[trigger] s[i]) is Some {
        Some(s.map_values(|o: Option<T>| o->Some_0))
    } else {
        None
    }
}

/// An integer between two bounds.
pub open spec fn integer_in(v: Option<Toml>, low: int, high: int) -> Option<int> {
    match v {
        Some(Toml::Integer(n)) => if low <= n <= high {
            Some(n)
        } else {
            None
        },
        _ => None,
    }
}

/// The integers of an array, each between two bounds.
pub open spec fn integers_in(v: Option<Toml>, low: int, high: int) -> Option<Seq<int>> {
    match v {
        Some(Toml::Array(a)) => every(a.map_values(|x: Toml| integer_in(Some(x), low, high))),
        _ => None,
    }
}

/// The integers of an array of positions.
pub open spec fn as_ints_u32(s: Seq<u32>) -> Seq<int> {
    s.map_values(|n: u32| n as int)
}

/// The integers of an array of seniorities.
pub open spec fn as_ints_i32(s: Seq<i32>) -> Seq<int> {
    s.map_values(|n: i32| n as int)
}

/// The array of these integers.
pub open spec fn integer_array(s: Seq<int>) -> Toml {
    Toml::Array(s.map_values(|n: int| Toml::Integer(n)))
}

proof fn integers_survive(s: Seq<int>, low: int, high: int)
    requires
        forall|i: int| 0 <= i < s.len() ==> low <= #[trigger] s[i] <= high,
    ensures
        is_row(integer_array(s)),
        integers_in(Some(integer_array(s)), low, high) == Some(s),
{
    let a = s.map_values(|n: int| Toml::Integer(n));
    let opts = a.map_values(|x: Toml| integer_in(Some(x), low, high));
    assert forall|i: int| 0 <= i < opts.len() implies #[trigger] opts[i] == Some(s[i]) by {
        assert(a[i] == Toml::Integer(s[i]));
    }
    assert(opts.map_values(|o: Option<int>| o->Some_0) =~= s);
}

/// A number is read exactly where it stands and is within its bounds, and so is a list of numbers,
/// each of them.
pub proof fn numbers_are_read_within_their_bounds(
    v: Option<Toml>,
    low: int,
    high: int,
    n: int,
    s: Seq<int>,
)
    ensures
        integer_in(v, low, high) == Some(n) <==> v == Some(Toml::Integer(n)) && low <= n <= high,
        integers_in(v, low, high) == Some(s) <==> v is Some && v->Some_0 is Array && ({
            let a = v->Some_0->Array_0;
            a.len() == s.len() && forall|i: int|
                0 <= i < a.len() ==> #[trigger] a[i] == Toml::Integer(s[i]) && low <= s[i] <= high
        }),
        integers_in(v, low, high) == Some(s) <==> v == Some(integer_array(s)) && forall|i: int|
            0 <= i < s.len() ==> low <= #[trigger] s[i] <= high,
{
    if v is Some && v->Some_0 is Array {
        let a = v->Some_0->Array_0;
        let opts = a.map_values(|x: Toml| integer_in(Some(x), low, high));
        if integers_in(v, low, high) == Some(s) {
            assert(opts.map_values(|o: Option<int>| o->Some_0) == s);
            assert forall|i: int| 0 <= i < a.len() implies #[trigger] a[i] == Toml::Integer(s[i])
                && low <= s[i] <= high by {
                assert(opts[i] is Some);
                assert(opts[i] == integer_in(Some(a[i]), low, high));
            }
            assert(a =~= s.map_values(|n: int| Toml::Integer(n)));
        }
        if a.len() == s.len() && forall|i: int|
            0 <= i < a.len() ==> #[trigger] a[i] == Toml::Integer(s[i]) && low <= s[i] <= high {
            assert forall|i: int| 0 <= i < opts.len() implies #[trigger] opts[i] == Some(s[i]) by {
                assert(a[i] == Toml::Integer(s[i]));
            }
            assert(opts.map_values(|o: Option<int>| o->Some_0) =~= s);
        }
    }
    if v == Some(integer_array(s)) && forall|i: int|
        0 <= i < s.len() ==> low <= #[trigger] s[i] <= high {
        integers_survive(s, low, high);
    }
}

fn positions_value(v: &Vec<u32>) -> (r: toml::Value)
    ensures
        written(r) == integer_array(as_ints_u32(v@)),
{
    let mut a: Vec<toml::Value> = Vec::new();
    let mut i: usize = 0;
    while i < v.len()
        invariant
            i <= v@.len(),
            a@.len() == i,
            forall|j: int| 0 <= j < i ==> written(#[trigger] a@[j]) == Toml::Integer(v@[j] as int),
        decreases v@.len() - i,
    {
        a.push(integer(v[i] as i64));
        i += 1;
    }
    assert(written_all(a@) =~= as_ints_u32(v@).map_values(|n: int| Toml::Integer(n)));
    array(a)
}

fn seniorities_value(v: &Vec<i32>) -> (r: toml::Value)
    ensures
        written(r) == integer_array(as_ints_i32(v@)),
{
    let mut a: Vec<toml::Value> = Vec::new();
    let mut i: usize = 0;
    while i < v.len()
        invariant
            i <= v@.len(),
            a@.len() == i,
            forall|j: int| 0 <= j < i ==> written(#[trigger] a@[j]) == Toml::Integer(v@[j] as int),
        decreases v@.len() - i,
    {
        a.push(integer(v[i] as i64));
        i += 1;
    }
    assert(written_all(a@) =~= as_ints_i32(v@).map_values(|n: int| Toml::Integer(n)));
    array(a)
}

/// What an optional value holds.
pub open spec fn held_at(v: Option<&toml::de::DeValue>) -> Option<Toml> {
    match v {
        Some(v) => Some(held(*v)),
        None => None,
    }
}

pub(crate) fn field<'a, 'i>(v: &'a toml::de::DeValue<'i>, key: &str) -> (r: Option<
    &'a toml::de::DeValue<'i>,
>)
    ensures
        held_at(r) == held(*v).field(key@),
{
    get(v, key)
}

pub(crate) fn read_integer(v: Option<&toml::de::DeValue>, low: i128, high: i128) -> (r: Option<
    i128,
>)
    ensures
        r is Some == integer_in(held_at(v), low as int, high as int) is Some,
        r is Some ==> r->Some_0 == integer_in(held_at(v), low as int, high as int)->Some_0,
{
    match v {
        Some(v) => match as_integer(v) {
            Some(n) => if low <= n && n <= high {
                Some(n)
            } else {
                None
            },
            None => None,
        },
        None => None,
    }
}

fn read_integers(v: Option<&toml::de::DeValue>, low: i128, high: i128) -> (r: Option<Vec<i128>>)
    ensures
        r is Some == integers_in(held_at(v), low as int, high as int) is Some,
        r is Some ==> r->Some_0@.map_values(|n: i128| n as int) == integers_in(
            held_at(v),
            low as int,
            high as int,
        )->Some_0,
        r is Some ==> forall|i: int| 0 <= i < r->Some_0@.len() ==> low <= #[trigger] r->Some_0@[i]
            <= high,
{
    let elements = match v {
        Some(v) => match as_array(v) {
            Some(elements) => elements,
            None => {
                return None;
            },
        },
        None => {
            return None;
        },
    };
    let ghost opts = held_all(elements@).map_values(
        |x: Toml| integer_in(Some(x), low as int, high as int),
    );
    let mut r: Vec<i128> = Vec::new();
    let mut i: usize = 0;
    while i < elements.len()
        invariant
            i <= elements@.len(),
            r@.len() == i,
            opts == held_all(elements@).map_values(
                |x: Toml| integer_in(Some(x), low as int, high as int),
            ),
            integers_in(held_at(v), low as int, high as int) == every(opts),
            forall|j: int| 0 <= j < i ==> #[trigger] opts[j] == Some(r@[j] as int),
            forall|j: int| 0 <= j < i ==> low <= #[trigger] r@[j] <= high,
        decreases elements@.len() - i,
    {
        match read_integer(Some(elements[i]), low, high) {
            Some(n) => {
                r.push(n);
                assert(opts[i as int] == Some(n as int));
            },
            None => {
                assert(opts[i as int] is None);
                return None;
            },
        }
        i += 1;
    }
    assert(r@.map_values(|n: i128| n as int) =~= opts.map_values(|o: Option<int>| o->Some_0));
    Some(r)
}

pub(crate) fn read_u32s(v: Option<&toml::de::DeValue>) -> (r: Option<Vec<u32>>)
    ensures
        r is Some == integers_in(held_at(v), 0, u32::MAX as int) is Some,
        r is Some ==> as_ints_u32(r->Some_0@) == integers_in(
            held_at(v),
            0,
            u32::MAX as int,
        )->Some_0,
{
    let wide = match read_integers(v, 0, 0xffff_ffff) {
        Some(wide) => wide,
        None => {
            return None;
        },
    };
    let mut r: Vec<u32> = Vec::new();
    let mut i: usize = 0;
    while i < wide.len()
        invariant
            i <= wide@.len(),
            r@.len() == i,
            forall|j: int| 0 <= j < wide@.len() ==> 0 <= #[trigger] wide@[j] <= 0xffff_ffff,
            forall|j: int| 0 <= j < i ==> #[trigger] r@[j] == wide@[j],
        decreases wide@.len() - i,
    {
        r.push(wide[i] as u32);
        i += 1;
    }
    assert(as_ints_u32(r@) =~= wide@.map_values(|n: i128| n as int));
    Some(r)
}

fn read_i32s(v: Option<&toml::de::DeValue>) -> (r: Option<Vec<i32>>)
    ensures
        r is Some == integers_in(held_at(v), i32::MIN as int, i32::MAX as int) is Some,
        r is Some ==> as_ints_i32(r->Some_0@) == integers_in(
            held_at(v),
            i32::MIN as int,
            i32::MAX as int,
        )->Some_0,
{
    let wide = match read_integers(v, -0x8000_0000, 0x7fff_ffff) {
        Some(wide) => wide,
        None => {
            return None;
        },
    };
    let mut r: Vec<i32> = Vec::new();
    let mut i: usize = 0;
    while i < wide.len()
        invariant
            i <= wide@.len(),
            r@.len() == i,
            forall|j: int|
                0 <= j < wide@.len() ==> -0x8000_0000 <= #[trigger] wide@[j] <= 0x7fff_ffff,
            forall|j: int| 0 <= j < i ==> #[trigger] r@[j] == wide@[j],
        decreases wide@.len() - i,
    {
        r.push(wide[i] as i32);
        i += 1;
    }
    assert(as_ints_i32(r@) =~= wide@.map_values(|n: i128| n as int));
    Some(r)
}

/// The greatest level on this machine.
pub open spec fn level_limit() -> int {
    usize::MAX as int
}

fn read_i64(v: Option<&toml::de::DeValue>) -> (r: Option<i64>)
    ensures
        r is Some == integer_in(held_at(v), i64::MIN as int, i64::MAX as int) is Some,
        r is Some ==> r->Some_0 == integer_in(
            held_at(v),
            i64::MIN as int,
            i64::MAX as int,
        )->Some_0,
{
    match read_integer(v, -0x8000_0000_0000_0000, 0x7fff_ffff_ffff_ffff) {
        Some(n) => Some(n as i64),
        None => None,
    }
}

fn read_level(v: Option<&toml::de::DeValue>) -> (r: Option<usize>)
    ensures
        r is Some == integer_in(held_at(v), 0, level_limit()) is Some,
        r is Some ==> r->Some_0 == integer_in(held_at(v), 0, level_limit())->Some_0,
{
    match read_integer(v, 0, usize::MAX as i128) {
        Some(n) => Some(n as usize),
        None => None,
    }
}

/// The value of the one field of a scalar document.
pub open spec fn scalar_in(document: Option<Toml>) -> Option<int> {
    match document {
        Some(d) => integer_in(d.field("value"@), i32::MIN as int, i32::MAX as int),
        None => None,
    }
}

/// The document with one field.
pub open spec fn scalar_document(value: i32) -> Toml {
    Toml::Table(seq![("value"@, Toml::Integer(value as int))])
}

/// An id is what the one field of its document holds, where that is a number of 32 bits.
pub proof fn an_id_is_what_its_field_holds(d: Toml, n: int)
    ensures
        scalar_in(Some(d)) == Some(n) <==> d.field("value"@) == Some(Toml::Integer(n))
            && -0x8000_0000 <= n < 0x8000_0000,
        scalar_in(None) is None,
{
}

proof fn scalar_is_plain(value: i32)
    ensures
        is_plain(scalar_document(value)),
        scalar_in(Some(scalar_document(value))) == Some(value as int),
{
    reveal_strlit("value");
    assert(is_word("value"@));
    let fields = seq![("value"@, Toml::Integer(value as int))];
    field_is_found(fields, 0);
}

fn scalar_value(value: i32) -> (r: toml::Value)
    ensures
        written(r) == scalar_document(value),
{
    let mut fields: Vec<(String, toml::Value)> = Vec::new();
    fields.push((String::from_str("value"), integer(value as i64)));
    assert(written_fields(fields@) =~= seq![("value"@, Toml::Integer(value as int))]);
    table(fields)
}

/// The migration's or entry's id that a document holds.
pub fn id_of(document: &toml::de::DeValue) -> (r: Result<i32, CodecError>)
    ensures
        match read_as(Kind::MigrationId, held(*document)) {
            Ok(payload) => r is Ok && payload == Payload::Id(r->Ok_0 as int),
            Err(refusal) => r is Err && r->Err_0@ == refusal,
        },
        read_as(Kind::EnterId, held(*document)) == read_as(Kind::MigrationId, held(*document)),
{
    match read_integer(field(document, "value"), -0x8000_0000, 0x7fff_ffff) {
        Some(n) => Ok(n as i32),
        None => {
            let mut checks: Vec<FieldCheck> = Vec::new();
            checks.push(needed("value", false));
            assert(check_views(checks@) =~= Kind::MigrationId.checks(held(*document)));
            Err(malformed(document, &checks))
        },
    }
}

/// The value that says nothing.
pub fn encode_unit() -> (r: TypedValue)
    ensures
        r@ == wired("ntkd.Unit"@, Toml::Table(Seq::empty())),
        document_in(r@.payload) == Some(Toml::Table(Seq::empty())),
{
    let fields: Vec<(String, toml::Value)> = Vec::new();
    assert(written_fields(fields@) =~= Seq::empty());
    wire("ntkd.Unit", &table(fields))
}

/// The value in which a migration's id travels.
pub fn encode_migration_id(migration_id: i32) -> (r: TypedValue)
    ensures
        r@ == wired("ntkd.MigrationId"@, scalar_document(migration_id)),
        scalar_in(document_in(r@.payload)) == Some(migration_id as int),
        is_written(Kind::MigrationId, Payload::Id(migration_id as int), r@),
{
    proof {
        scalar_is_plain(migration_id);
    }
    wire("ntkd.MigrationId", &scalar_value(migration_id))
}

/// The migration's id that a value holds.
pub fn decode_migration_id(tv: &TypedValue) -> (r: Result<i32, CodecError>)
    ensures
        match decoded(Kind::MigrationId, tv@) {
            Ok(payload) => r is Ok && payload == Payload::Id(r->Ok_0 as int),
            Err(refusal) => r is Err && r->Err_0@ == refusal,
        },
{
    match unwire(tv, "ntkd.MigrationId") {
        Ok(document) => id_of(&document),
        Err(error) => Err(error),
    }
}

/// The value in which an entry's id travels.
pub fn encode_enter_id(enter_id: i32) -> (r: TypedValue)
    ensures
        r@ == wired("ntkd.EnterId"@, scalar_document(enter_id)),
        scalar_in(document_in(r@.payload)) == Some(enter_id as int),
        is_written(Kind::EnterId, Payload::Id(enter_id as int), r@),
{
    proof {
        scalar_is_plain(enter_id);
    }
    wire("ntkd.EnterId", &scalar_value(enter_id))
}

/// The entry's id that a value holds.
pub fn decode_enter_id(tv: &TypedValue) -> (r: Result<i32, CodecError>)
    ensures
        match decoded(Kind::EnterId, tv@) {
            Ok(payload) => r is Ok && payload == Payload::Id(r->Ok_0 as int),
            Err(refusal) => r is Err && r->Err_0@ == refusal,
        },
{
    match unwire(tv, "ntkd.EnterId") {
        Ok(document) => id_of(&document),
        Err(error) => Err(error),
    }
}

/// A question whether a g-node may enter a network.
#[derive(Debug, PartialEq, Eq)]
pub struct EvaluateEnterRequest {
    /// The network to enter.
    pub network_id: i64,
    /// The position of the neighbour through which the network was met.
    pub neighbor_pos: Vec<u32>,
    /// The lowest level at which the neighbour can take a g-node in.
    pub neighbor_min_lvl: usize,
    /// The lowest level at which this g-node can enter.
    pub min_lvl: usize,
    /// The number of the question.
    pub evaluate_enter_id: i32,
}

/// What an [`EvaluateEnterRequest`] says.
pub struct RequestView {
    /// The network to enter.
    pub network_id: int,
    /// The neighbour's position.
    pub neighbor_pos: Seq<int>,
    /// The lowest level at which the neighbour can take a g-node in.
    pub neighbor_min_lvl: int,
    /// The lowest level at which this g-node can enter.
    pub min_lvl: int,
    /// The number of the question.
    pub evaluate_enter_id: int,
}

impl EvaluateEnterRequest {
    /// What it says.
    pub open spec fn view(&self) -> RequestView {
        RequestView {
            network_id: self.network_id as int,
            neighbor_pos: as_ints_u32(self.neighbor_pos@),
            neighbor_min_lvl: self.neighbor_min_lvl as int,
            min_lvl: self.min_lvl as int,
            evaluate_enter_id: self.evaluate_enter_id as int,
        }
    }
}

/// The fields of a question.
pub open spec fn request_fields(q: RequestView) -> Seq<(Seq<char>, Toml)> {
    seq![
        ("network_id"@, Toml::Integer(q.network_id)),
        ("neighbor_pos"@, integer_array(q.neighbor_pos)),
        ("neighbor_min_lvl"@, Toml::Integer(q.neighbor_min_lvl)),
        ("min_lvl"@, Toml::Integer(q.min_lvl)),
        ("evaluate_enter_id"@, Toml::Integer(q.evaluate_enter_id)),
    ]
}

/// The question that a document holds.
pub open spec fn request_in(document: Option<Toml>) -> Option<RequestView> {
    match document {
        None => None,
        Some(d) => {
            let network_id = integer_in(
                d.field("network_id"@),
                i64::MIN as int,
                i64::MAX as int,
            );
            let neighbor_pos = integers_in(d.field("neighbor_pos"@), 0, u32::MAX as int);
            let neighbor_min_lvl = integer_in(d.field("neighbor_min_lvl"@), 0, level_limit());
            let min_lvl = integer_in(d.field("min_lvl"@), 0, level_limit());
            let evaluate_enter_id = integer_in(
                d.field("evaluate_enter_id"@),
                i32::MIN as int,
                i32::MAX as int,
            );
            if network_id is Some && neighbor_pos is Some && neighbor_min_lvl is Some
                && min_lvl is Some && evaluate_enter_id is Some {
                Some(
                    RequestView {
                        network_id: network_id->Some_0,
                        neighbor_pos: neighbor_pos->Some_0,
                        neighbor_min_lvl: neighbor_min_lvl->Some_0,
                        min_lvl: min_lvl->Some_0,
                        evaluate_enter_id: evaluate_enter_id->Some_0,
                    },
                )
            } else {
                None
            }
        },
    }
}

/// A question says what its fields hold, each within its bounds, and is none where one is missing or
/// is not.
pub proof fn a_question_says_what_its_fields_hold(d: Toml, q: RequestView)
    ensures
        request_in(Some(d)) == Some(q) <==> {
            &&& d.field("network_id"@) == Some(Toml::Integer(q.network_id)) && i64::MIN
                <= q.network_id <= i64::MAX
            &&& d.field("neighbor_pos"@) == Some(integer_array(q.neighbor_pos)) && forall|i: int|
                0 <= i < q.neighbor_pos.len() ==> 0 <= #[trigger] q.neighbor_pos[i] <= u32::MAX
            &&& d.field("neighbor_min_lvl"@) == Some(Toml::Integer(q.neighbor_min_lvl)) && 0
                <= q.neighbor_min_lvl <= usize::MAX
            &&& d.field("min_lvl"@) == Some(Toml::Integer(q.min_lvl)) && 0 <= q.min_lvl
                <= usize::MAX
            &&& d.field("evaluate_enter_id"@) == Some(Toml::Integer(q.evaluate_enter_id))
                && i32::MIN <= q.evaluate_enter_id <= i32::MAX
        },
        request_in(None) is None,
{
    numbers_are_read_within_their_bounds(
        d.field("neighbor_pos"@),
        0,
        u32::MAX as int,
        0,
        q.neighbor_pos,
    );
}

proof fn request_survives(req: EvaluateEnterRequest)
    requires
        req.neighbor_min_lvl <= i64::MAX,
        req.min_lvl <= i64::MAX,
    ensures
        is_plain(Toml::Table(request_fields(req@))),
        request_in(Some(Toml::Table(request_fields(req@)))) == Some(req@),
{
    reveal_strlit("network_id");
    reveal_strlit("neighbor_pos");
    reveal_strlit("neighbor_min_lvl");
    reveal_strlit("min_lvl");
    reveal_strlit("evaluate_enter_id");
    assert(is_word("network_id"@));
    assert(is_word("neighbor_pos"@));
    assert(is_word("neighbor_min_lvl"@));
    assert(is_word("min_lvl"@));
    assert(is_word("evaluate_enter_id"@));
    let fields = request_fields(req@);
    integers_survive(req@.neighbor_pos, 0, u32::MAX as int);
    field_is_found(fields, 0);
    field_is_found(fields, 1);
    field_is_found(fields, 2);
    field_is_found(fields, 3);
    field_is_found(fields, 4);
}

/// The value in which a question travels.
pub fn encode_evaluate_enter_request(req: &EvaluateEnterRequest) -> (r: TypedValue)
    requires
        req.neighbor_min_lvl <= i64::MAX,
        req.min_lvl <= i64::MAX,
    ensures
        r@ == wired("ntkd.EvaluateEnterRequest"@, Toml::Table(request_fields(req@))),
        request_in(document_in(r@.payload)) == Some(req@),
        is_written(Kind::EvaluateEnterRequest, Payload::Request(req@), r@),
{
    let mut fields: Vec<(String, toml::Value)> = Vec::new();
    fields.push((String::from_str("network_id"), integer(req.network_id)));
    fields.push((String::from_str("neighbor_pos"), positions_value(&req.neighbor_pos)));
    fields.push((String::from_str("neighbor_min_lvl"), integer(req.neighbor_min_lvl as i64)));
    fields.push((String::from_str("min_lvl"), integer(req.min_lvl as i64)));
    fields.push((String::from_str("evaluate_enter_id"), integer(req.evaluate_enter_id as i64)));
    proof {
        request_survives(*req);
        assert(written_fields(fields@) =~= request_fields(req@));
        distinct_keys(fields@);
    }
    wire("ntkd.EvaluateEnterRequest", &table(fields))
}

proof fn distinct_keys(fields: Seq<(String, toml::Value)>)
    requires
        keys_are_plain(written_fields(fields)),
    ensures
        forall|i: int, j: int|
            0 <= i < j < fields.len() ==> (#[trigger] fields[i]).0@ != (#[trigger] fields[j]).0@,
{
    assert forall|i: int, j: int| 0 <= i < j < fields.len() implies (#[trigger] fields[i]).0@ != (
    #[trigger] fields[j]).0@ by {
        assert(written_fields(fields)[i].0 == fields[i].0@);
        assert(written_fields(fields)[j].0 == fields[j].0@);
        assert(written_fields(fields)[i].0 != written_fields(fields)[j].0);
    }
}

/// The question that a document holds.
pub fn evaluate_enter_request_of(document: &toml::de::DeValue) -> (r: Result<
    EvaluateEnterRequest,
    CodecError,
>)
    ensures
        match read_as(Kind::EvaluateEnterRequest, held(*document)) {
            Ok(payload) => r is Ok && payload == Payload::Request(r->Ok_0@),
            Err(refusal) => r is Err && r->Err_0@ == refusal,
        },
{
    let network_id = read_i64(field(document, "network_id"));
    let neighbor_pos = read_u32s(field(document, "neighbor_pos"));
    let neighbor_min_lvl = read_level(field(document, "neighbor_min_lvl"));
    let min_lvl = read_level(field(document, "min_lvl"));
    let evaluate_enter_id = read_integer(
        field(document, "evaluate_enter_id"),
        -0x8000_0000,
        0x7fff_ffff,
    );
    let mut checks: Vec<FieldCheck> = Vec::new();
    checks.push(needed("network_id", network_id.is_some()));
    checks.push(needed("neighbor_pos", neighbor_pos.is_some()));
    checks.push(needed("neighbor_min_lvl", neighbor_min_lvl.is_some()));
    checks.push(needed("min_lvl", min_lvl.is_some()));
    checks.push(needed("evaluate_enter_id", evaluate_enter_id.is_some()));
    assert(check_views(checks@) =~= Kind::EvaluateEnterRequest.checks(held(*document)));
    match (network_id, neighbor_pos, neighbor_min_lvl, min_lvl, evaluate_enter_id) {
        (
            Some(network_id),
            Some(neighbor_pos),
            Some(neighbor_min_lvl),
            Some(min_lvl),
            Some(evaluate_enter_id),
        ) => Ok(
            EvaluateEnterRequest {
                network_id,
                neighbor_pos,
                neighbor_min_lvl,
                min_lvl,
                evaluate_enter_id: evaluate_enter_id as i32,
            },
        ),
        _ => Err(malformed(document, &checks)),
    }
}

/// The question that a value holds.
pub fn decode_evaluate_enter_request(tv: &TypedValue) -> (r: Result<
    EvaluateEnterRequest,
    CodecError,
>)
    ensures
        match decoded(Kind::EvaluateEnterRequest, tv@) {
            Ok(payload) => r is Ok && payload == Payload::Request(r->Ok_0@),
            Err(refusal) => r is Err && r->Err_0@ == refusal,
        },
{
    match unwire(tv, "ntkd.EvaluateEnterRequest") {
        Ok(document) => evaluate_enter_request_of(&document),
        Err(error) => Err(error),
    }
}

/// The answer to a question whether a g-node may enter.
#[derive(Debug, Clone, Copy, PartialEq, Eq, Structural)]
pub enum EvaluateEnterAnswer {
    /// It may, and enters at this level.
    Accepted {
        /// The level.
        chosen_lvl: usize,
    },
    /// Not now: another network is being entered.
    AskAgain,
    /// No: another member of the g-node was chosen for this network.
    IgnoreNetwork,
}

/// The fields of an answer.
pub open spec fn answer_fields(answer: EvaluateEnterAnswer) -> Seq<(Seq<char>, Toml)> {
    match answer {
        EvaluateEnterAnswer::Accepted { chosen_lvl } => seq![
            ("kind"@, Toml::Text("Accepted"@)),
            ("chosen_lvl"@, Toml::Integer(chosen_lvl as int)),
        ],
        EvaluateEnterAnswer::AskAgain => seq![("kind"@, Toml::Text("AskAgain"@))],
        EvaluateEnterAnswer::IgnoreNetwork => seq![("kind"@, Toml::Text("IgnoreNetwork"@))],
    }
}

/// The answer that a document holds.
pub open spec fn answer_in(document: Option<Toml>) -> Option<EvaluateEnterAnswer> {
    match document {
        None => None,
        Some(d) => match d.field("kind"@) {
            Some(Toml::Text(kind)) => if kind == "Accepted"@ {
                match integer_in(d.field("chosen_lvl"@), 0, level_limit()) {
                    Some(lvl) => Some(EvaluateEnterAnswer::Accepted { chosen_lvl: lvl as usize }),
                    None => None,
                }
            } else if kind == "AskAgain"@ {
                Some(EvaluateEnterAnswer::AskAgain)
            } else if kind == "IgnoreNetwork"@ {
                Some(EvaluateEnterAnswer::IgnoreNetwork)
            } else {
                None
            },
            _ => None,
        },
    }
}

/// An answer is of the kind that its field names, and grants the level that stands with it; a
/// document of another kind, or that grants without a level, is none.
pub proof fn an_answer_says_what_its_fields_hold(d: Toml, level: usize)
    ensures
        answer_in(Some(d)) == Some(EvaluateEnterAnswer::AskAgain) <==> d.field("kind"@) == Some(
            Toml::Text("AskAgain"@),
        ),
        answer_in(Some(d)) == Some(EvaluateEnterAnswer::IgnoreNetwork) <==> d.field("kind"@)
            == Some(Toml::Text("IgnoreNetwork"@)),
        answer_in(Some(d)) == Some(EvaluateEnterAnswer::Accepted { chosen_lvl: level }) <==> d.field(
            "kind"@,
        ) == Some(Toml::Text("Accepted"@)) && d.field("chosen_lvl"@) == Some(
            Toml::Integer(level as int),
        ),
        answer_in(None) is None,
{
    reveal_strlit("Accepted");
    reveal_strlit("AskAgain");
    reveal_strlit("IgnoreNetwork");
    assert("AskAgain"@[1] != "Accepted"@[1]);
    assert("AskAgain"@.len() != "IgnoreNetwork"@.len());
    assert("Accepted"@.len() != "IgnoreNetwork"@.len());
}

proof fn answer_survives(answer: EvaluateEnterAnswer)
    requires
        answer is Accepted ==> answer->chosen_lvl <= i64::MAX,
    ensures
        is_plain(Toml::Table(answer_fields(answer))),
        answer_in(Some(Toml::Table(answer_fields(answer)))) == Some(answer),
{
    reveal_strlit("kind");
    reveal_strlit("chosen_lvl");
    reveal_strlit("Accepted");
    reveal_strlit("AskAgain");
    reveal_strlit("IgnoreNetwork");
    assert(is_word("kind"@));
    assert(is_word("chosen_lvl"@));
    assert(is_word("Accepted"@));
    assert(is_word("AskAgain"@));
    assert(is_word("IgnoreNetwork"@));
    assert("AskAgain"@[1] != "Accepted"@[1]);
    let fields = answer_fields(answer);
    field_is_found(fields, 0);
    if answer is Accepted {
        field_is_found(fields, 1);
    }
}

/// The value in which an answer travels.
pub fn encode_evaluate_enter_answer(answer: EvaluateEnterAnswer) -> (r: TypedValue)
    requires
        answer is Accepted ==> answer->chosen_lvl <= i64::MAX,
    ensures
        r@ == wired("ntkd.EvaluateEnterAnswer"@, Toml::Table(answer_fields(answer))),
        answer_in(document_in(r@.payload)) == Some(answer),
        is_written(Kind::EvaluateEnterAnswer, Payload::Answer(answer), r@),
{
    let mut fields: Vec<(String, toml::Value)> = Vec::new();
    match answer {
        EvaluateEnterAnswer::Accepted { chosen_lvl } => {
            fields.push((String::from_str("kind"), string(String::from_str("Accepted"))));
            fields.push((String::from_str("chosen_lvl"), integer(chosen_lvl as i64)));
        },
        EvaluateEnterAnswer::AskAgain => {
            fields.push((String::from_str("kind"), string(String::from_str("AskAgain"))));
        },
        EvaluateEnterAnswer::IgnoreNetwork => {
            fields.push((String::from_str("kind"), string(String::from_str("IgnoreNetwork"))));
        },
    }
    proof {
        answer_survives(answer);
        assert(written_fields(fields@) =~= answer_fields(answer));
        distinct_keys(fields@);
    }
    wire("ntkd.EvaluateEnterAnswer", &table(fields))
}

/// The answer that a document holds.
pub fn evaluate_enter_answer_of(document: &toml::de::DeValue) -> (r: Result<
    EvaluateEnterAnswer,
    CodecError,
>)
    ensures
        match read_as(Kind::EvaluateEnterAnswer, held(*document)) {
            Ok(payload) => r is Ok && payload == Payload::Answer(r->Ok_0),
            Err(refusal) => r is Err && r->Err_0@ == refusal,
        },
{
    let kind: Option<&str> = match field(document, "kind") {
        Some(kind) => as_str(kind),
        None => None,
    };
    let mut checks: Vec<FieldCheck> = Vec::new();
    match kind {
        Some(kind) => {
            if same_text(kind, "Accepted") {
                let chosen_lvl = read_level(field(document, "chosen_lvl"));
                checks.push(needed("kind", true));
                checks.push(needed("chosen_lvl", chosen_lvl.is_some()));
                match chosen_lvl {
                    Some(chosen_lvl) => {
                        return Ok(EvaluateEnterAnswer::Accepted { chosen_lvl });
                    },
                    None => {},
                }
            } else if same_text(kind, "AskAgain") {
                return Ok(EvaluateEnterAnswer::AskAgain);
            } else if same_text(kind, "IgnoreNetwork") {
                return Ok(EvaluateEnterAnswer::IgnoreNetwork);
            } else {
                checks.push(needed("kind", false));
            }
        },
        None => {
            checks.push(needed("kind", false));
        },
    }
    assert(check_views(checks@) =~= answer_checks(held(*document)));
    Err(malformed(document, &checks))
}

/// The answer that a value holds.
pub fn decode_evaluate_enter_answer(tv: &TypedValue) -> (r: Result<
    EvaluateEnterAnswer,
    CodecError,
>)
    ensures
        match decoded(Kind::EvaluateEnterAnswer, tv@) {
            Ok(payload) => r is Ok && payload == Payload::Answer(r->Ok_0),
            Err(refusal) => r is Err && r->Err_0@ == refusal,
        },
{
    match unwire(tv, "ntkd.EvaluateEnterAnswer") {
        Ok(document) => evaluate_enter_answer_of(&document),
        Err(error) => Err(error),
    }
}

/// Where a g-node enters: the network, and its positions and seniorities from its level up.
#[derive(Debug, PartialEq, Eq)]
pub struct EntryData {
    /// The network.
    pub network_id: i64,
    /// The positions.
    pub pos: Vec<u32>,
    /// The seniorities.
    pub elderships: Vec<i32>,
}

/// What an [`EntryData`] says.
pub struct EntryDataView {
    /// The network.
    pub network_id: int,
    /// The positions.
    pub pos: Seq<int>,
    /// The seniorities.
    pub elderships: Seq<int>,
}

impl EntryData {
    /// What it says.
    pub open spec fn view(&self) -> EntryDataView {
        EntryDataView {
            network_id: self.network_id as int,
            pos: as_ints_u32(self.pos@),
            elderships: as_ints_i32(self.elderships@),
        }
    }
}

/// The fields of an entry.
pub open spec fn entry_fields(e: EntryDataView) -> Seq<(Seq<char>, Toml)> {
    seq![
        ("network_id"@, Toml::Integer(e.network_id)),
        ("pos"@, integer_array(e.pos)),
        ("elderships"@, integer_array(e.elderships)),
    ]
}

/// A member of a compound value, which may be a table or list its members in order.
pub open spec fn member(v: Toml, key: Seq<char>, index: int) -> Option<Toml> {
    match v {
        Toml::Array(a) => if index < a.len() {
            Some(a[index])
        } else {
            None
        },
        _ => v.field(key),
    }
}

/// The entry that a value holds.
pub open spec fn entry_in(v: Option<Toml>) -> Option<EntryDataView> {
    match v {
        None => None,
        Some(v) => {
            let network_id = integer_in(
                member(v, "network_id"@, 0),
                i64::MIN as int,
                i64::MAX as int,
            );
            let pos = integers_in(member(v, "pos"@, 1), 0, u32::MAX as int);
            let elderships = integers_in(
                member(v, "elderships"@, 2),
                i32::MIN as int,
                i32::MAX as int,
            );
            if network_id is Some && pos is Some && elderships is Some {
                Some(
                    EntryDataView {
                        network_id: network_id->Some_0,
                        pos: pos->Some_0,
                        elderships: elderships->Some_0,
                    },
                )
            } else {
                None
            }
        },
    }
}

/// An entry says what its members hold, each within its bounds. As a list it has them in their order:
/// the network, the positions, the seniorities.
pub proof fn an_entry_says_what_its_members_hold(v: Toml, e: EntryDataView)
    ensures
        ({
            let network_id = if v is Array {
                if v->Array_0.len() > 0 {
                    Some(v->Array_0[0])
                } else {
                    None
                }
            } else {
                v.field("network_id"@)
            };
            let pos = if v is Array {
                if v->Array_0.len() > 1 {
                    Some(v->Array_0[1])
                } else {
                    None
                }
            } else {
                v.field("pos"@)
            };
            let elderships = if v is Array {
                if v->Array_0.len() > 2 {
                    Some(v->Array_0[2])
                } else {
                    None
                }
            } else {
                v.field("elderships"@)
            };
            entry_in(Some(v)) == Some(e) <==> {
                &&& network_id == Some(Toml::Integer(e.network_id)) && i64::MIN <= e.network_id
                    <= i64::MAX
                &&& pos == Some(integer_array(e.pos)) && forall|i: int|
                    0 <= i < e.pos.len() ==> 0 <= #[trigger] e.pos[i] <= u32::MAX
                &&& elderships == Some(integer_array(e.elderships)) && forall|i: int|
                    0 <= i < e.elderships.len() ==> i32::MIN <= #[trigger] e.elderships[i]
                        <= i32::MAX
            }
        }),
        entry_in(None) is None,
{
    numbers_are_read_within_their_bounds(
        member(v, "pos"@, 1),
        0,
        u32::MAX as int,
        0,
        e.pos,
    );
    numbers_are_read_within_their_bounds(
        member(v, "elderships"@, 2),
        i32::MIN as int,
        i32::MAX as int,
        0,
        e.elderships,
    );
}

proof fn entry_survives(e: EntryData)
    ensures
        is_section(Toml::Table(entry_fields(e@))),
        entry_in(Some(Toml::Table(entry_fields(e@)))) == Some(e@),
{
    reveal_strlit("network_id");
    reveal_strlit("pos");
    reveal_strlit("elderships");
    assert(is_word("network_id"@));
    assert(is_word("pos"@));
    assert(is_word("elderships"@));
    assert("network_id"@[0] != "elderships"@[0]);
    let fields = entry_fields(e@);
    integers_survive(e@.pos, 0, u32::MAX as int);
    integers_survive(e@.elderships, i32::MIN as int, i32::MAX as int);
    field_is_found(fields, 0);
    field_is_found(fields, 1);
    field_is_found(fields, 2);
}

fn entry_value(e: &EntryData) -> (r: toml::Value)
    ensures
        written(r) == Toml::Table(entry_fields(e@)),
{
    let mut fields: Vec<(String, toml::Value)> = Vec::new();
    fields.push((String::from_str("network_id"), integer(e.network_id)));
    fields.push((String::from_str("pos"), positions_value(&e.pos)));
    fields.push((String::from_str("elderships"), seniorities_value(&e.elderships)));
    proof {
        entry_survives(*e);
        assert(written_fields(fields@) =~= entry_fields(e@));
        distinct_keys(fields@);
    }
    table(fields)
}

fn read_member<'a, 'i>(v: &'a toml::de::DeValue<'i>, key: &str, index: usize) -> (r: Option<
    &'a toml::de::DeValue<'i>,
>)
    ensures
        held_at(r) == member(held(*v), key@, index as int),
{
    match as_array(v) {
        Some(elements) => if index < elements.len() {
            assert(held_all(elements@)[index as int] == held(*elements@[index as int]));
            Some(elements[index])
        } else {
            None
        },
        None => field(v, key),
    }
}

fn read_entry(v: Option<&toml::de::DeValue>) -> (r: Option<EntryData>)
    ensures
        r is Some == entry_in(held_at(v)) is Some,
        r is Some ==> r->Some_0@ == entry_in(held_at(v))->Some_0,
{
    let v = match v {
        Some(v) => v,
        None => {
            return None;
        },
    };
    let network_id = read_i64(read_member(v, "network_id", 0));
    let pos = read_u32s(read_member(v, "pos", 1));
    let elderships = read_i32s(read_member(v, "elderships", 2));
    match (network_id, pos, elderships) {
        (Some(network_id), Some(pos), Some(elderships)) => Some(
            EntryData { network_id, pos, elderships },
        ),
        _ => None,
    }
}

/// What a finished move says: its number, where it leads, and the position that is kept for
/// connectivity.
pub struct FinishView {
    /// The number of the migration or entry.
    pub id: int,
    /// Where it leads.
    pub entry: EntryDataView,
    /// The position kept for connectivity.
    pub position: int,
}

/// A finished migration.
#[derive(Debug, PartialEq, Eq)]
pub struct FinishMigrationData {
    /// The number of the migration.
    pub migration_id: i32,
    /// Where it leads.
    pub migration_data: EntryData,
    /// The position kept for connectivity.
    pub go_connectivity_position: u32,
}

impl FinishMigrationData {
    /// What it says.
    pub open spec fn view(&self) -> FinishView {
        FinishView {
            id: self.migration_id as int,
            entry: self.migration_data@,
            position: self.go_connectivity_position as int,
        }
    }
}

/// A finished entry.
#[derive(Debug, PartialEq, Eq)]
pub struct FinishEnterData {
    /// The number of the entry.
    pub enter_id: i32,
    /// Where it leads.
    pub entry_data: EntryData,
    /// The position kept for connectivity.
    pub go_connectivity_position: u32,
}

impl FinishEnterData {
    /// What it says.
    pub open spec fn view(&self) -> FinishView {
        FinishView {
            id: self.enter_id as int,
            entry: self.entry_data@,
            position: self.go_connectivity_position as int,
        }
    }
}

/// The fields of a finished move, under the keys of its kind.
pub open spec fn finish_fields(
    f: FinishView,
    id_key: Seq<char>,
    entry_key: Seq<char>,
) -> Seq<(Seq<char>, Toml)> {
    seq![
        (id_key, Toml::Integer(f.id)),
        ("go_connectivity_position"@, Toml::Integer(f.position)),
        (entry_key, Toml::Table(entry_fields(f.entry))),
    ]
}

/// The finished move that a document holds under the keys of its kind.
pub open spec fn finish_in(
    document: Option<Toml>,
    id_key: Seq<char>,
    entry_key: Seq<char>,
) -> Option<FinishView> {
    match document {
        None => None,
        Some(d) => {
            let id = integer_in(d.field(id_key), i32::MIN as int, i32::MAX as int);
            let entry = entry_in(d.field(entry_key));
            let position = integer_in(
                d.field("go_connectivity_position"@),
                0,
                u32::MAX as int,
            );
            if id is Some && entry is Some && position is Some {
                Some(
                    FinishView {
                        id: id->Some_0,
                        entry: entry->Some_0,
                        position: position->Some_0,
                    },
                )
            } else {
                None
            }
        },
    }
}

/// A finished move says what its fields hold: its number and the position kept for connectivity,
/// each within its bounds, and the entry.
pub proof fn a_finished_move_says_what_its_fields_hold(
    d: Toml,
    id_key: Seq<char>,
    entry_key: Seq<char>,
    f: FinishView,
)
    ensures
        finish_in(Some(d), id_key, entry_key) == Some(f) <==> {
            &&& d.field(id_key) == Some(Toml::Integer(f.id)) && i32::MIN <= f.id <= i32::MAX
            &&& entry_in(d.field(entry_key)) == Some(f.entry)
            &&& d.field("go_connectivity_position"@) == Some(Toml::Integer(f.position)) && 0
                <= f.position <= u32::MAX
        },
        finish_in(None, id_key, entry_key) is None,
{
}

proof fn finish_survives(
    id: i32,
    entry: EntryData,
    position: u32,
    id_key: Seq<char>,
    entry_key: Seq<char>,
)
    requires
        is_word(id_key),
        is_word(entry_key),
        id_key != entry_key,
        id_key.len() < 24,
        entry_key.len() < 24,
    ensures
        ({
            let f = FinishView { id: id as int, entry: entry@, position: position as int };
            let fields = finish_fields(f, id_key, entry_key);
            &&& is_plain(Toml::Table(fields))
            &&& finish_in(Some(Toml::Table(fields)), id_key, entry_key) == Some(f)
        }),
{
    reveal_strlit("go_connectivity_position");
    assert(is_word("go_connectivity_position"@));
    let f = FinishView { id: id as int, entry: entry@, position: position as int };
    let fields = finish_fields(f, id_key, entry_key);
    entry_survives(entry);
    field_is_found(fields, 0);
    field_is_found(fields, 1);
    field_is_found(fields, 2);
}

fn finish_value(id: i32, entry: &EntryData, position: u32, id_key: &str, entry_key: &str) -> (r:
    toml::Value)
    requires
        is_word(id_key@),
        is_word(entry_key@),
        id_key@ != entry_key@,
        id_key@.len() < 24,
        entry_key@.len() < 24,
    ensures
        ({
            let f = FinishView { id: id as int, entry: entry@, position: position as int };
            &&& written(r) == Toml::Table(finish_fields(f, id_key@, entry_key@))
            &&& is_plain(written(r))
            &&& finish_in(Some(written(r)), id_key@, entry_key@) == Some(f)
        }),
{
    let mut fields: Vec<(String, toml::Value)> = Vec::new();
    fields.push((id_key.to_owned(), integer(id as i64)));
    fields.push((String::from_str("go_connectivity_position"), integer(position as i64)));
    fields.push((entry_key.to_owned(), entry_value(entry)));
    proof {
        let f = FinishView { id: id as int, entry: entry@, position: position as int };
        finish_survives(id, *entry, position, id_key@, entry_key@);
        assert(written_fields(fields@) =~= finish_fields(f, id_key@, entry_key@));
        distinct_keys(fields@);
    }
    table(fields)
}

fn read_finish(document: &toml::de::DeValue, id_key: &str, entry_key: &str) -> (r: Result<
    (i32, EntryData, u32),
    CodecError,
>)
    ensures
        match finish_in(Some(held(*document)), id_key@, entry_key@) {
            Some(f) => r is Ok && f == (FinishView {
                id: r->Ok_0.0 as int,
                entry: r->Ok_0.1@,
                position: r->Ok_0.2 as int,
            }),
            None => r is Err && r->Err_0@ == Refusal::Toml(
                fault_text(held(*document), finish_checks(held(*document), id_key@, entry_key@)),
            ),
        },
{
    let id = read_integer(field(document, id_key), -0x8000_0000, 0x7fff_ffff);
    let entry = read_entry(field(document, entry_key));
    let position = read_integer(field(document, "go_connectivity_position"), 0, 0xffff_ffff);
    let mut checks: Vec<FieldCheck> = Vec::new();
    checks.push(needed(id_key, id.is_some()));
    checks.push(needed(entry_key, entry.is_some()));
    checks.push(needed("go_connectivity_position", position.is_some()));
    assert(check_views(checks@) =~= finish_checks(held(*document), id_key@, entry_key@));
    match (id, entry, position) {
        (Some(id), Some(entry), Some(position)) => Ok((id as i32, entry, position as u32)),
        _ => Err(malformed(document, &checks)),
    }
}

proof fn finish_keys_are_words()
    ensures
        is_word("migration_id"@),
        is_word("migration_data"@),
        is_word("enter_id"@),
        is_word("entry_data"@),
        "migration_id"@ != "migration_data"@,
        "enter_id"@ != "entry_data"@,
        "migration_id"@.len() < 24,
        "migration_data"@.len() < 24,
        "enter_id"@.len() < 24,
        "entry_data"@.len() < 24,
{
    reveal_strlit("migration_id");
    reveal_strlit("migration_data");
    reveal_strlit("enter_id");
    reveal_strlit("entry_data");
}

/// The value in which a finished migration travels.
pub fn encode_finish_migration_data(data: &FinishMigrationData) -> (r: TypedValue)
    ensures
        r@ == wired(
            "ntkd.FinishMigrationData"@,
            Toml::Table(finish_fields(data@, "migration_id"@, "migration_data"@)),
        ),
        finish_in(document_in(r@.payload), "migration_id"@, "migration_data"@) == Some(data@),
        is_written(Kind::FinishMigrationData, Payload::Finish(data@), r@),
{
    proof {
        finish_keys_are_words();
    }
    wire(
        "ntkd.FinishMigrationData",
        &finish_value(
            data.migration_id,
            &data.migration_data,
            data.go_connectivity_position,
            "migration_id",
            "migration_data",
        ),
    )
}

/// The finished migration that a document holds.
pub fn finish_migration_data_of(document: &toml::de::DeValue) -> (r: Result<
    FinishMigrationData,
    CodecError,
>)
    ensures
        match read_as(Kind::FinishMigrationData, held(*document)) {
            Ok(payload) => r is Ok && payload == Payload::Finish(r->Ok_0@),
            Err(refusal) => r is Err && r->Err_0@ == refusal,
        },
{
    match read_finish(document, "migration_id", "migration_data") {
        Ok((migration_id, migration_data, go_connectivity_position)) => Ok(
            FinishMigrationData { migration_id, migration_data, go_connectivity_position },
        ),
        Err(error) => Err(error),
    }
}

/// The finished migration that a value holds.
pub fn decode_finish_migration_data(tv: &TypedValue) -> (r: Result<
    FinishMigrationData,
    CodecError,
>)
    ensures
        match decoded(Kind::FinishMigrationData, tv@) {
            Ok(payload) => r is Ok && payload == Payload::Finish(r->Ok_0@),
            Err(refusal) => r is Err && r->Err_0@ == refusal,
        },
{
    match unwire(tv, "ntkd.FinishMigrationData") {
        Ok(document) => finish_migration_data_of(&document),
        Err(error) => Err(error),
    }
}

/// The value in which a finished entry travels.
pub fn encode_finish_enter_data(data: &FinishEnterData) -> (r: TypedValue)
    ensures
        r@ == wired(
            "ntkd.FinishEnterData"@,
            Toml::Table(finish_fields(data@, "enter_id"@, "entry_data"@)),
        ),
        finish_in(document_in(r@.payload), "enter_id"@, "entry_data"@) == Some(data@),
        is_written(Kind::FinishEnterData, Payload::Finish(data@), r@),
{
    proof {
        finish_keys_are_words();
    }
    wire(
        "ntkd.FinishEnterData",
        &finish_value(
            data.enter_id,
            &data.entry_data,
            data.go_connectivity_position,
            "enter_id",
            "entry_data",
        ),
    )
}

/// The finished entry that a document holds.
pub fn finish_enter_data_of(document: &toml::de::DeValue) -> (r: Result<
    FinishEnterData,
    CodecError,
>)
    ensures
        match read_as(Kind::FinishEnterData, held(*document)) {
            Ok(payload) => r is Ok && payload == Payload::Finish(r->Ok_0@),
            Err(refusal) => r is Err && r->Err_0@ == refusal,
        },
{
    match read_finish(document, "enter_id", "entry_data") {
        Ok((enter_id, entry_data, go_connectivity_position)) => Ok(
            FinishEnterData { enter_id, entry_data, go_connectivity_position },
        ),
        Err(error) => Err(error),
    }
}

/// The finished entry that a value holds.
pub fn decode_finish_enter_data(tv: &TypedValue) -> (r: Result<FinishEnterData, CodecError>)
    ensures
        match decoded(Kind::FinishEnterData, tv@) {
            Ok(payload) => r is Ok && payload == Payload::Finish(r->Ok_0@),
            Err(refusal) => r is Err && r->Err_0@ == refusal,
        },
{
    match unwire(tv, "ntkd.FinishEnterData") {
        Ok(document) => finish_enter_data_of(&document),
        Err(error) => Err(error),
    }
}

/// Who was chosen to enter a network, and when.
#[derive(Debug, Clone, Copy, PartialEq, Eq, Structural)]
pub struct ElectionRecord {
    /// The network.
    pub network_id: i64,
    /// The question that was granted.
    pub evaluate_enter_id: i32,
    /// When, in milliseconds since the epoch.
    pub granted_at_millis: u64,
}

/// What a network's coordinator remembers: the verdicts on merges, by the other network, and the
/// elections, by level.
#[derive(Debug, PartialEq, Eq)]
pub struct HookingMemory {
    /// For each other network whether to merge into it, and when that was decided.
    pub merge_decisions: SortedMap<i64, (bool, u64)>,
    /// For each level who was chosen.
    pub elections: SortedMap<usize, ElectionRecord>,
}

/// What a [`HookingMemory`] says.
pub struct MemoryView {
    /// The verdicts.
    pub merge_decisions: Map<i64, (bool, u64)>,
    /// The elections.
    pub elections: Map<usize, ElectionRecord>,
}

impl HookingMemory {
    /// What it says.
    pub open spec fn view(&self) -> MemoryView {
        MemoryView { merge_decisions: self.merge_decisions@, elections: self.elections@ }
    }
}

impl Default for HookingMemory {
    fn default() -> (r: Self)
        ensures
            r@ == (MemoryView { merge_decisions: Map::empty(), elections: Map::empty() }),
    {
        HookingMemory { merge_decisions: SortedMap::new(), elections: SortedMap::new() }
    }
}

/// A level as it is written.
pub open spec fn written_level(level: usize) -> usize {
    if level <= u32::MAX {
        level
    } else {
        u32::MAX as usize
    }
}

/// The row of one verdict.
pub open spec fn decision_row(e: (i64, (bool, u64))) -> Toml {
    Toml::Array(
        seq![
            Toml::Integer(e.0 as int),
            Toml::Boolean(e.1.0),
            Toml::Integer(e.1.1 as int),
        ],
    )
}

/// The row of one election.
pub open spec fn election_row(e: (usize, ElectionRecord)) -> Toml {
    Toml::Array(
        seq![
            Toml::Integer(written_level(e.0) as int),
            Toml::Integer(e.1.network_id as int),
            Toml::Integer(e.1.evaluate_enter_id as int),
            Toml::Integer(e.1.granted_at_millis as int),
        ],
    )
}

/// The fields of a coordinator's memory.
pub open spec fn memory_fields(
    decisions: Seq<(i64, (bool, u64))>,
    elections: Seq<(usize, ElectionRecord)>,
) -> Seq<(Seq<char>, Toml)> {
    seq![
        (
            "merge_decisions"@,
            Toml::Array(decisions.map_values(|e: (i64, (bool, u64))| decision_row(e))),
        ),
        (
            "elections"@,
            Toml::Array(elections.map_values(|e: (usize, ElectionRecord)| election_row(e))),
        ),
    ]
}

/// The verdict that a row holds.
pub open spec fn decision_in(row: Toml) -> Option<(i64, (bool, u64))> {
    match row {
        Toml::Array(a) => if a.len() >= 3 {
            let id = integer_in(Some(a[0]), i64::MIN as int, i64::MAX as int);
            let at = integer_in(Some(a[2]), 0, u64::MAX as int);
            if id is Some && a[1] is Boolean && at is Some {
                Some((id->Some_0 as i64, (a[1]->Boolean_0, at->Some_0 as u64)))
            } else {
                None
            }
        } else {
            None
        },
        _ => None,
    }
}

/// The election that a row holds.
pub open spec fn election_in(row: Toml) -> Option<(usize, ElectionRecord)> {
    match row {
        Toml::Array(a) => if a.len() >= 4 {
            let level = integer_in(Some(a[0]), 0, u32::MAX as int);
            let network_id = integer_in(Some(a[1]), i64::MIN as int, i64::MAX as int);
            let id = integer_in(Some(a[2]), i32::MIN as int, i32::MAX as int);
            let at = integer_in(Some(a[3]), 0, u64::MAX as int);
            if level is Some && network_id is Some && id is Some && at is Some {
                Some(
                    (
                        level->Some_0 as usize,
                        ElectionRecord {
                            network_id: network_id->Some_0 as i64,
                            evaluate_enter_id: id->Some_0 as i32,
                            granted_at_millis: at->Some_0 as u64,
                        },
                    ),
                )
            } else {
                None
            }
        } else {
            None
        },
        _ => None,
    }
}

/// The verdicts that a value holds.
pub open spec fn decisions_in(v: Option<Toml>) -> Option<Seq<(i64, (bool, u64))>> {
    match v {
        Some(Toml::Array(a)) => every(a.map_values(|row: Toml| decision_in(row))),
        _ => None,
    }
}

/// The elections that a value holds.
pub open spec fn elections_in(v: Option<Toml>) -> Option<Seq<(usize, ElectionRecord)>> {
    match v {
        Some(Toml::Array(a)) => every(a.map_values(|row: Toml| election_in(row))),
        _ => None,
    }
}

/// The coordinator's memory that a document holds. Of two rows for one key the later counts.
pub open spec fn memory_in(document: Option<Toml>) -> Option<MemoryView> {
    match document {
        None => None,
        Some(d) => {
            let decisions = decisions_in(d.field("merge_decisions"@));
            let elections = elections_in(d.field("elections"@));
            if decisions is Some && elections is Some {
                Some(
                    MemoryView {
                        merge_decisions: map_of(decisions->Some_0),
                        elections: map_of(elections->Some_0),
                    },
                )
            } else {
                None
            }
        },
    }
}

/// A coordinator's memory says what its rows hold, where all of them can be read. A verdict's row
/// names the network, the verdict and its time, in this order; an election's row the level, the
/// network, the question and its time.
pub proof fn a_memory_says_what_its_rows_hold(
    d: Toml,
    verdicts: Seq<(i64, (bool, u64))>,
    elections: Seq<(usize, ElectionRecord)>,
)
    requires
        d.field("merge_decisions"@) is Some && d.field("merge_decisions"@)->Some_0 is Array,
        d.field("elections"@) is Some && d.field("elections"@)->Some_0 is Array,
        ({
            let a = d.field("merge_decisions"@)->Some_0->Array_0;
            a.len() == verdicts.len() && forall|i: int|
                0 <= i < a.len() ==> #[trigger] a[i] == Toml::Array(
                    seq![
                        Toml::Integer(verdicts[i].0 as int),
                        Toml::Boolean(verdicts[i].1.0),
                        Toml::Integer(verdicts[i].1.1 as int),
                    ],
                )
        }),
        ({
            let a = d.field("elections"@)->Some_0->Array_0;
            a.len() == elections.len() && forall|i: int|
                0 <= i < a.len() ==> #[trigger] a[i] == Toml::Array(
                    seq![
                        Toml::Integer(elections[i].0 as int),
                        Toml::Integer(elections[i].1.network_id as int),
                        Toml::Integer(elections[i].1.evaluate_enter_id as int),
                        Toml::Integer(elections[i].1.granted_at_millis as int),
                    ],
                )
        }),
        forall|i: int| 0 <= i < elections.len() ==> (#[trigger] elections[i]).0 <= u32::MAX,
    ensures
        memory_in(Some(d)) == Some(
            MemoryView { merge_decisions: map_of(verdicts), elections: map_of(elections) },
        ),
{
    let a = d.field("merge_decisions"@)->Some_0->Array_0;
    let opts = a.map_values(|row: Toml| decision_in(row));
    assert forall|i: int| 0 <= i < opts.len() implies #[trigger] opts[i] == Some(verdicts[i]) by {
        assert(opts[i] == decision_in(a[i]));
    }
    assert(opts.map_values(|o: Option<(i64, (bool, u64))>| o->Some_0) =~= verdicts);
    let b = d.field("elections"@)->Some_0->Array_0;
    let more = b.map_values(|row: Toml| election_in(row));
    assert forall|i: int| 0 <= i < more.len() implies #[trigger] more[i] == Some(elections[i]) by {
        assert(more[i] == election_in(b[i]));
        assert(elections[i].0 <= u32::MAX);
    }
    assert(more.map_values(|o: Option<(usize, ElectionRecord)>| o->Some_0) =~= elections);
}

/// One row that cannot be read, or a list that is missing, makes the whole memory unreadable.
pub proof fn an_unreadable_row_spoils_the_memory(d: Toml, i: int)
    ensures
        memory_in(None) is None,
        d.field("merge_decisions"@) is None || !(d.field("merge_decisions"@)->Some_0 is Array)
            ==> memory_in(Some(d)) is None,
        d.field("elections"@) is None || !(d.field("elections"@)->Some_0 is Array) ==> memory_in(
            Some(d),
        ) is None,
        d.field("merge_decisions"@) is Some && d.field("merge_decisions"@)->Some_0 is Array && ({
            let a = d.field("merge_decisions"@)->Some_0->Array_0;
            0 <= i < a.len() && decision_in(a[i]) is None
        }) ==> memory_in(Some(d)) is None,
        d.field("elections"@) is Some && d.field("elections"@)->Some_0 is Array && ({
            let a = d.field("elections"@)->Some_0->Array_0;
            0 <= i < a.len() && election_in(a[i]) is None
        }) ==> memory_in(Some(d)) is None,
{
    if d.field("merge_decisions"@) is Some && d.field("merge_decisions"@)->Some_0 is Array {
        let a = d.field("merge_decisions"@)->Some_0->Array_0;
        let opts = a.map_values(|row: Toml| decision_in(row));
        if 0 <= i < a.len() {
            assert(opts[i] == decision_in(a[i]));
        }
    }
    if d.field("elections"@) is Some && d.field("elections"@)->Some_0 is Array {
        let a = d.field("elections"@)->Some_0->Array_0;
        let opts = a.map_values(|row: Toml| election_in(row));
        if 0 <= i < a.len() {
            assert(opts[i] == election_in(a[i]));
        }
    }
}

/// A level is written as it is, as far as it fits in 32 bits.
pub proof fn levels_are_written_as_they_are(level: usize)
    ensures
        level <= 0xffff_ffff ==> written_level(level) == level,
        level > 0xffff_ffff ==> written_level(level) == 0xffff_ffff,
{
}

/// The elections as they are written.
pub open spec fn written_elections(order: Seq<(usize, ElectionRecord)>) -> Seq<
    (usize, ElectionRecord),
> {
    order.map_values(|e: (usize, ElectionRecord)| (written_level(e.0), e.1))
}

proof fn memory_keys_are_words()
    ensures
        is_word("merge_decisions"@),
        is_word("elections"@),
        "merge_decisions"@ != "elections"@,
{
    reveal_strlit("merge_decisions");
    reveal_strlit("elections");
    assert("merge_decisions"@.len() != "elections"@.len());
}

proof fn memory_survives(mem: HookingMemory)
    requires
        ascending(mem.merge_decisions.order()),
        ascending(mem.elections.order()),
    ensures
        ({
            let d = Toml::Table(memory_fields(mem.merge_decisions.order(), mem.elections.order()));
            memory_in(Some(d)) == Some(
                MemoryView {
                    merge_decisions: mem@.merge_decisions,
                    elections: map_of(written_elections(mem.elections.order())),
                },
            )
        }),
{
    memory_keys_are_words();
    let decisions = mem.merge_decisions.order();
    let elections = mem.elections.order();
    let fields = memory_fields(decisions, elections);
    map_of_ascending(decisions);
    map_of_ascending(elections);
    let rows = decisions.map_values(|e: (i64, (bool, u64))| decision_row(e));
    let opts = rows.map_values(|row: Toml| decision_in(row));
    assert forall|i: int| 0 <= i < opts.len() implies #[trigger] opts[i] == Some(decisions[i]) by {
        assert(rows[i] == decision_row(decisions[i]));
    }
    assert(opts.map_values(|o: Option<(i64, (bool, u64))>| o->Some_0) =~= decisions);
    let erows = elections.map_values(|e: (usize, ElectionRecord)| election_row(e));
    let eopts = erows.map_values(|row: Toml| election_in(row));
    let written = written_elections(elections);
    assert forall|i: int| 0 <= i < eopts.len() implies #[trigger] eopts[i] == Some(written[i]) by {
        assert(erows[i] == election_row(elections[i]));
    }
    assert(eopts.map_values(|o: Option<(usize, ElectionRecord)>| o->Some_0) =~= written);
    field_is_found(fields, 0);
    field_is_found(fields, 1);
}

fn verdicts_to_write(entries: &Vec<(i64, (bool, u64))>) -> (r: Vec<(i64, bool, u64)>)
    ensures
        verdict_rows(r@) == Toml::Array(
            entries@.map_values(|e: (i64, (bool, u64))| decision_row(e)),
        ),
{
    let mut r: Vec<(i64, bool, u64)> = Vec::new();
    let mut i: usize = 0;
    while i < entries.len()
        invariant
            i <= entries@.len(),
            r@.len() == i,
            forall|j: int|
                0 <= j < i ==> #[trigger] r@[j] == (
                    entries@[j].0,
                    entries@[j].1.0,
                    entries@[j].1.1,
                ),
        decreases entries@.len() - i,
    {
        let e = &entries[i];
        r.push((e.0, e.1.0, e.1.1));
        i += 1;
    }
    assert(verdict_rows(r@)->Array_0 =~= entries@.map_values(
        |e: (i64, (bool, u64))| decision_row(e),
    ));
    r
}

fn elections_to_write(entries: &Vec<(usize, ElectionRecord)>) -> (r: Vec<(u32, i64, i32, u64)>)
    ensures
        election_rows(r@) == Toml::Array(
            entries@.map_values(|e: (usize, ElectionRecord)| election_row(e)),
        ),
{
    let mut r: Vec<(u32, i64, i32, u64)> = Vec::new();
    let mut i: usize = 0;
    while i < entries.len()
        invariant
            i <= entries@.len(),
            r@.len() == i,
            forall|j: int|
                0 <= j < i ==> (#[trigger] r@[j]).0 == written_level(entries@[j].0) && r@[j].1
                    == entries@[j].1.network_id && r@[j].2 == entries@[j].1.evaluate_enter_id
                    && r@[j].3 == entries@[j].1.granted_at_millis,
        decreases entries@.len() - i,
    {
        let e = &entries[i];
        let level: u32 = if e.0 as u64 <= 0xffff_ffff {
            e.0 as u32
        } else {
            0xffff_ffff
        };
        r.push((level, e.1.network_id, e.1.evaluate_enter_id, e.1.granted_at_millis));
        i += 1;
    }
    assert(election_rows(r@)->Array_0 =~= entries@.map_values(
        |e: (usize, ElectionRecord)| election_row(e),
    ));
    r
}

/// The value in which a coordinator's memory travels. Levels above `u32::MAX` are written as that.
pub fn encode_hooking_memory(mem: &HookingMemory) -> (r: TypedValue)
    ensures
        r@ == wired(
            "ntkd.HookingMemory"@,
            Toml::Table(memory_fields(mem.merge_decisions.order(), mem.elections.order())),
        ),
        memory_in(document_in(r@.payload)) == Some(
            (MemoryView {
                merge_decisions: mem@.merge_decisions,
                elections: map_of(written_elections(mem.elections.order())),
            }),
        ),
        (forall|level: usize| #[trigger] mem@.elections.contains_key(level) ==> level <= u32::MAX)
            ==> memory_in(document_in(r@.payload)) == Some(mem@) && is_written(
            Kind::HookingMemory,
            Payload::Memory(mem@),
            r@,
        ),
{
    let decisions = mem.merge_decisions.entries();
    let elections = mem.elections.entries();
    proof {
        map_of_ascending(elections@);
        memory_survives(*mem);
        memory_keys_are_words();
        if forall|level: usize| #[trigger]
            mem@.elections.contains_key(level) ==> level <= u32::MAX {
            assert forall|i: int| 0 <= i < elections@.len() implies written_elections(
                elections@,
            )[i] == #[trigger] elections@[i] by {
                assert(mem@.elections.contains_key(elections@[i].0));
            }
            assert(written_elections(elections@) =~= elections@);
        }
    }
    let text = render_rows(
        "merge_decisions",
        verdicts_to_write(decisions),
        "elections",
        elections_to_write(elections),
    );
    proof {
        text_survives_bytes(text@);
    }
    TypedValue::new("ntkd.HookingMemory", text.as_str().as_bytes_vec())
}

fn read_u64(v: Option<&toml::de::DeValue>) -> (r: Option<u64>)
    ensures
        r is Some == integer_in(held_at(v), 0, u64::MAX as int) is Some,
        r is Some ==> r->Some_0 == integer_in(held_at(v), 0, u64::MAX as int)->Some_0,
{
    match read_integer(v, 0, 0xffff_ffff_ffff_ffff) {
        Some(n) => Some(n as u64),
        None => None,
    }
}

fn read_decision(row: &toml::de::DeValue) -> (r: Option<(i64, (bool, u64))>)
    ensures
        r == decision_in(held(*row)),
{
    match as_array(row) {
        None => None,
        Some(a) => {
            let ghost h = held_all(a@);
            if a.len() < 3 {
                return None;
            }
            assert(h[0] == held(*a@[0]) && h[1] == held(*a@[1]) && h[2] == held(*a@[2]));
            match (read_i64(Some(a[0])), a[1].as_bool(), read_u64(Some(a[2]))) {
                (Some(id), Some(verdict), Some(at)) => Some((id, (verdict, at))),
                _ => None,
            }
        },
    }
}

fn read_election(row: &toml::de::DeValue) -> (r: Option<(usize, ElectionRecord)>)
    ensures
        r == election_in(held(*row)),
{
    match as_array(row) {
        None => None,
        Some(a) => {
            let ghost h = held_all(a@);
            if a.len() < 4 {
                return None;
            }
            assert(h[0] == held(*a@[0]) && h[1] == held(*a@[1]) && h[2] == held(*a@[2]) && h[3]
                == held(*a@[3]));
            let level = read_integer(Some(a[0]), 0, 0xffff_ffff);
            let network_id = read_i64(Some(a[1]));
            let id = read_integer(Some(a[2]), -0x8000_0000, 0x7fff_ffff);
            let at = read_u64(Some(a[3]));
            match (level, network_id, id, at) {
                (Some(level), Some(network_id), Some(id), Some(at)) => Some(
                    (
                        level as usize,
                        ElectionRecord {
                            network_id,
                            evaluate_enter_id: id as i32,
                            granted_at_millis: at,
                        },
                    ),
                ),
                _ => None,
            }
        },
    }
}

fn read_decisions(v: Option<&toml::de::DeValue>) -> (r: Option<SortedMap<i64, (bool, u64)>>)
    ensures
        r is Some == decisions_in(held_at(v)) is Some,
        r is Some ==> r->Some_0@ == map_of(decisions_in(held_at(v))->Some_0),
{
    let rows = match v {
        Some(v) => match as_array(v) {
            Some(rows) => rows,
            None => {
                return None;
            },
        },
        None => {
            return None;
        },
    };
    let ghost opts = held_all(rows@).map_values(|row: Toml| decision_in(row));
    let ghost pairs = opts.map_values(|o: Option<(i64, (bool, u64))>| o->Some_0);
    let mut r: SortedMap<i64, (bool, u64)> = SortedMap::new();
    let mut i: usize = 0;
    assert(pairs.take(0) =~= Seq::empty());
    while i < rows.len()
        invariant
            i <= rows@.len(),
            opts == held_all(rows@).map_values(|row: Toml| decision_in(row)),
            pairs == opts.map_values(|o: Option<(i64, (bool, u64))>| o->Some_0),
            decisions_in(held_at(v)) == every(opts),
            forall|j: int| 0 <= j < i ==> (#[trigger] opts[j]) is Some,
            r@ == map_of(pairs.take(i as int)),
        decreases rows@.len() - i,
    {
        assert(opts[i as int] == decision_in(held(*rows@[i as int])));
        match read_decision(rows[i]) {
            Some((id, verdict)) => {
                r.insert(id, verdict);
                assert(pairs.take(i + 1).drop_last() =~= pairs.take(i as int));
                assert(pairs.take(i + 1).last() == (id, verdict));
            },
            None => {
                return None;
            },
        }
        i += 1;
    }
    assert(pairs.take(pairs.len() as int) =~= pairs);
    Some(r)
}

fn read_elections(v: Option<&toml::de::DeValue>) -> (r: Option<SortedMap<usize, ElectionRecord>>)
    ensures
        r is Some == elections_in(held_at(v)) is Some,
        r is Some ==> r->Some_0@ == map_of(elections_in(held_at(v))->Some_0),
{
    let rows = match v {
        Some(v) => match as_array(v) {
            Some(rows) => rows,
            None => {
                return None;
            },
        },
        None => {
            return None;
        },
    };
    let ghost opts = held_all(rows@).map_values(|row: Toml| election_in(row));
    let ghost pairs = opts.map_values(|o: Option<(usize, ElectionRecord)>| o->Some_0);
    let mut r: SortedMap<usize, ElectionRecord> = SortedMap::new();
    let mut i: usize = 0;
    assert(pairs.take(0) =~= Seq::empty());
    while i < rows.len()
        invariant
            i <= rows@.len(),
            opts == held_all(rows@).map_values(|row: Toml| election_in(row)),
            pairs == opts.map_values(|o: Option<(usize, ElectionRecord)>| o->Some_0),
            elections_in(held_at(v)) == every(opts),
            forall|j: int| 0 <= j < i ==> (#[trigger] opts[j]) is Some,
            r@ == map_of(pairs.take(i as int)),
        decreases rows@.len() - i,
    {
        assert(opts[i as int] == election_in(held(*rows@[i as int])));
        match read_election(rows[i]) {
            Some((level, record)) => {
                r.insert(level, record);
                assert(pairs.take(i + 1).drop_last() =~= pairs.take(i as int));
                assert(pairs.take(i + 1).last() == (level, record));
            },
            None => {
                return None;
            },
        }
        i += 1;
    }
    assert(pairs.take(pairs.len() as int) =~= pairs);
    Some(r)
}

/// The coordinator's memory that a document holds.
pub fn hooking_memory_of(document: &toml::de::DeValue) -> (r: Result<
    HookingMemory,
    CodecError,
>)
    ensures
        match read_as(Kind::HookingMemory, held(*document)) {
            Ok(payload) => r is Ok && payload == Payload::Memory(r->Ok_0@),
            Err(refusal) => r is Err && r->Err_0@ == refusal,
        },
{
    let decisions = read_decisions(field(document, "merge_decisions"));
    let elections = read_elections(field(document, "elections"));
    let mut checks: Vec<FieldCheck> = Vec::new();
    checks.push(needed("merge_decisions", decisions.is_some()));
    checks.push(needed("elections", elections.is_some()));
    assert(check_views(checks@) =~= Kind::HookingMemory.checks(held(*document)));
    match (decisions, elections) {
        (Some(merge_decisions), Some(elections)) => {
            let memory = HookingMemory { merge_decisions, elections };
            Ok(memory)
        },
        _ => Err(malformed(document, &checks)),
    }
}

/// The coordinator's memory that a value holds.
pub fn decode_hooking_memory(tv: &TypedValue) -> (r: Result<HookingMemory, CodecError>)
    ensures
        match decoded(Kind::HookingMemory, tv@) {
            Ok(payload) => r is Ok && payload == Payload::Memory(r->Ok_0@),
            Err(refusal) => r is Err && r->Err_0@ == refusal,
        },
{
    match unwire(tv, "ntkd.HookingMemory") {
        Ok(document) => hooking_memory_of(&document),
        Err(error) => Err(error),
    }
}

/// Whatever its kind, a value is refused for its tag exactly where that is another; with the right
/// tag it is refused where its payload is no document of that kind; and a payload that says
/// something of that kind is read as just that.
pub proof fn values_are_read_as_they_are_tagged(kind: Kind, tv: TypedView)
    ensures
        (decoded(kind, tv) is Err && decoded(kind, tv)->Err_0 is TagMismatch) <==> tv.tag
            != kind.tag(),
        tv.tag != kind.tag() ==> decoded(kind, tv)->Err_0 == (Refusal::TagMismatch {
            expected: kind.tag(),
            actual: tv.tag,
        }),
        tv.tag == kind.tag() && document_in(tv.payload) is None ==> decoded(kind, tv) is Err
            && decoded(kind, tv)->Err_0 is Toml,
        tv.tag == kind.tag() && document_in(tv.payload) is Some ==> match kind.read(
            document_in(tv.payload)->Some_0,
        ) {
            Some(payload) => decoded(kind, tv) == Ok::<Payload, Refusal>(payload),
            None => decoded(kind, tv) is Err && decoded(kind, tv)->Err_0 is Toml,
        },
{
}

/// A document is read as one of a kind exactly if it says something as that; else it is refused for
/// its fields.
pub proof fn documents_are_read_as_what_they_say(kind: Kind, d: Toml, payload: Payload)
    ensures
        read_as(kind, d) == Ok::<Payload, Refusal>(payload) <==> kind.read(d) == Some(payload),
        kind.read(d) is None ==> read_as(kind, d) == Err::<Payload, Refusal>(
            Refusal::Toml(fault_text(d, kind.checks(d))),
        ),
{
}

/// What a kind of value is written as.
pub open spec fn is_written(kind: Kind, payload: Payload, tv: TypedView) -> bool {
    tv.tag == kind.tag() && document_in(tv.payload) is Some && kind.read(
        document_in(tv.payload)->Some_0,
    ) == Some(payload)
}

/// A value that was written as one kind is read back as what it says, and refused for its tag as
/// any other kind.
pub proof fn written_values_are_read_back(kind: Kind, other: Kind, payload: Payload, tv: TypedView)
    requires
        is_written(kind, payload, tv),
        other != kind,
    ensures
        decoded(kind, tv) == Ok::<Payload, Refusal>(payload),
        decoded(other, tv) == Err::<Payload, Refusal>(
            Refusal::TagMismatch { expected: other.tag(), actual: kind.tag() },
        ),
{
    tags_differ(kind, other);
}

/// The value that says nothing is refused as whatever it is read.
pub proof fn nothing_is_read_out_of_nothing(kind: Kind, tv: TypedView)
    requires
        tv.tag == "ntkd.Unit"@,
    ensures
        decoded(kind, tv) == Err::<Payload, Refusal>(
            Refusal::TagMismatch { expected: kind.tag(), actual: "ntkd.Unit"@ },
        ),
{
    tags_differ(kind, kind);
}

/// No two kinds share a tag, and none has that of the value that says nothing.
pub proof fn tags_differ(a: Kind, b: Kind)
    ensures
        a != b ==> a.tag() != b.tag(),
        a.tag() != "ntkd.Unit"@,
{
    reveal_strlit("ntkd.Unit");
    reveal_strlit("ntkd.MigrationId");
    reveal_strlit("ntkd.EnterId");
    reveal_strlit("ntkd.EvaluateEnterRequest");
    reveal_strlit("ntkd.EvaluateEnterAnswer");
    reveal_strlit("ntkd.FinishMigrationData");
    reveal_strlit("ntkd.FinishEnterData");
    reveal_strlit("ntkd.HookingMemory");
    assert("ntkd.EvaluateEnterRequest"@.len() == 25);
    assert("ntkd.EvaluateEnterAnswer"@.len() == 24);
    assert("ntkd.FinishMigrationData"@.len() == 24);
    assert("ntkd.EvaluateEnterAnswer"@[5] != "ntkd.FinishMigrationData"@[5]);
    assert("ntkd.MigrationId"@.len() == 16);
    assert("ntkd.EnterId"@.len() == 12);
    assert("ntkd.FinishEnterData"@.len() == 20);
    assert("ntkd.HookingMemory"@.len() == 18);
    assert("ntkd.Unit"@.len() == 9);
}

/// A document that is refused for its fields is refused by the name of one of them.
pub proof fn a_refused_document_names_its_field(kind: Kind, d: Toml)
    requires
        kind.read(d) is None,
    ensures
        names_a_field(fault_text(d, kind.checks(d)), kind.checks(d)),
{
    let checks = kind.checks(d);
    let i: int = match kind {
        Kind::MigrationId | Kind::EnterId => 0,
        Kind::EvaluateEnterRequest => if !checks[0].fits {
            0
        } else if !checks[1].fits {
            1
        } else if !checks[2].fits {
            2
        } else if !checks[3].fits {
            3
        } else {
            4
        },
        Kind::EvaluateEnterAnswer => if is_answer_kind(d.field("kind"@)) {
            1
        } else {
            0
        },
        Kind::FinishMigrationData | Kind::FinishEnterData => if !checks[0].fits {
            0
        } else if !checks[1].fits {
            1
        } else {
            2
        },
        Kind::HookingMemory => if !checks[0].fits {
            0
        } else {
            1
        },
    };
    assert(checks[i].required && !checks[i].fits);
    a_fault_is_named(d, checks, i);
}

/// A document is read as some kind exactly if each field of that kind fits, and none of them may be
/// left out.
pub proof fn a_document_is_read_where_all_fields_fit(kind: Kind, d: Toml)
    ensures
        kind.read(d) is Some <==> forall|i: int|
            0 <= i < kind.checks(d).len() ==> (#[trigger] kind.checks(d)[i]).fits,
        forall|i: int| 0 <= i < kind.checks(d).len() ==> (#[trigger] kind.checks(d)[i]).required,
        forall|i: int|
            0 <= i < kind.checks(d).len() && (#[trigger] kind.checks(d)[i]).fits ==> d.field(
                kind.checks(d)[i].name,
            ) is Some,
{
    let checks = kind.checks(d);
    let n = checks.len();
    assert(n > 0);
    assert(checks[0] == checks[0]);
    if n > 1 {
        assert(checks[1] == checks[1]);
    }
    if n > 2 {
        assert(checks[2] == checks[2]);
    }
    if n > 3 {
        assert(checks[3] == checks[3] && checks[4] == checks[4]);
    }
    assert forall|i: int| 0 <= i < n && (#[trigger] checks[i]).fits implies d.field(
        checks[i].name,
    ) is Some by {
        assert(i == 0 || i == 1 || i == 2 || i == 3 || i == 4);
    }
    if forall|i: int| 0 <= i < n ==> (#[trigger] checks[i]).fits {
        assert(checks[0].fits);
        assert(n > 1 ==> checks[1].fits);
        assert(n > 2 ==> checks[2].fits);
        assert(n > 3 ==> checks[3].fits && checks[4].fits);
    }
}

/// The milliseconds since the epoch by the system's clock: zero before it, and no more than fit.
pub fn now_millis() -> (r: u64) {
    whole_millis(since_epoch())
}

} // verus!
