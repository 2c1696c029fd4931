//! TOML documents: the values they hold, and reading and writing them.
use vstd::prelude::*;
use vstd::string::*;
use vstd::utf8::{decode_utf8, encode_utf8, valid_utf8};

verus! {

/// What a TOML value holds.
pub enum Toml {
    /// An integer of at most 128 bits.
    Integer(int),
    /// A truth value.
    Boolean(bool),
    /// A string.
    Text(Seq<char>),
    /// An array.
    Array(Seq<Toml>),
    /// A table: its fields in their order.
    Table(Seq<(Seq<char>, Toml)>),
    /// A greater integer, a floating-point number or a date.
    Other,
}

impl Toml {
    /// The index of the field `key` in a table; `-1` where there is none.
    pub open spec fn index_of(self, key: Seq<char>) -> int {
        match self {
            Toml::Table(fields) => if exists|i: int|
                0 <= i < fields.len() && (#[trigger] fields[i]).0 == key {
                choose|i: int| 0 <= i < fields.len() && (#[trigger] fields[i]).0 == key
            } else {
                -1
            },
            _ => -1,
        }
    }

    /// The field `key` of a table; none where there is no such field, or no table.
    pub open spec fn field(self, key: Seq<char>) -> Option<Toml> {
        match self {
            Toml::Table(fields) => if self.index_of(key) >= 0 {
                Some(fields[self.index_of(key)].1)
            } else {
                None
            },
            _ => None,
        }
    }

    /// The integer, where it is one.
    pub open spec fn integer(self) -> Option<int> {
        match self {
            Toml::Integer(n) => Some(n),
            _ => None,
        }
    }

    /// The truth value, where it is one.
    pub open spec fn boolean(self) -> Option<bool> {
        match self {
            Toml::Boolean(b) => Some(b),
            _ => None,
        }
    }

    /// The string, where it is one.
    pub open spec fn text(self) -> Option<Seq<char>> {
        match self {
            Toml::Text(s) => Some(s),
            _ => None,
        }
    }

    /// The elements, where it is an array.
    pub open spec fn elements(self) -> Option<Seq<Toml>> {
        match self {
            Toml::Array(a) => Some(a),
            _ => None,
        }
    }
}

/// Letters and underscores, at least one.
pub open spec fn is_word(s: Seq<char>) -> bool {
    &&& s.len() > 0
    &&& forall|i: int|
        0 <= i < s.len() ==> ('a' <= #[trigger] s[i] <= 'z' || 'A' <= s[i] <= 'Z' || s[i] == '_')
}

/// An integer, a truth value or a word.
pub open spec fn is_scalar(v: Toml) -> bool {
    match v {
        Toml::Integer(_) => true,
        Toml::Boolean(_) => true,
        Toml::Text(s) => is_word(s),
        _ => false,
    }
}

/// An array of scalars.
pub open spec fn is_row(v: Toml) -> bool {
    match v {
        Toml::Array(a) => forall|i: int| 0 <= i < a.len() ==> is_scalar(#[trigger] a[i]),
        _ => false,
    }
}

/// A value that stands on one line.
pub open spec fn is_flat(v: Toml) -> bool {
    is_scalar(v) || is_row(v)
}

/// The keys are words and stand once.
pub open spec fn keys_are_plain(fields: Seq<(Seq<char>, Toml)>) -> bool {
    &&& forall|i: int| 0 <= i < fields.len() ==> is_word((#[trigger] fields[i]).0)
    &&& forall|i: int, j: int|
        0 <= i < j < fields.len() ==> (#[trigger] fields[i]).0 != (#[trigger] fields[j]).0
}

/// A table of flat fields.
pub open spec fn is_section(v: Toml) -> bool {
    match v {
        Toml::Table(fields) => keys_are_plain(fields) && forall|i: int|
            0 <= i < fields.len() ==> is_flat((#[trigger] fields[i]).1),
        _ => false,
    }
}

/// A table of flat fields and, behind them, sections.
pub open spec fn is_plain(v: Toml) -> bool {
    match v {
        Toml::Table(fields) => {
            &&& keys_are_plain(fields)
            &&& forall|i: int|
                0 <= i < fields.len() ==> is_flat((#[trigger] fields[i]).1) || is_section(
                    fields[i].1,
                )
            &&& forall|i: int, j: int|
                0 <= i < j < fields.len() && (#[trigger] fields[i]).1 is Table ==> (
                #[trigger] fields[j]).1 is Table
        },
        _ => false,
    }
}

/// `toml::de::DeValue`: a value of a TOML document that was read.
#[verifier::external_type_specification]
#[verifier::external_body]
pub struct ExDeValue<'i>(toml::de::DeValue<'i>);

/// `toml::Value`: a value of a TOML document to write.
#[verifier::external_type_specification]
#[verifier::external_body]
pub struct ExTomlValue(toml::Value);

/// What a `toml::de::DeValue` holds, tables in the order of their fields.
pub uninterp spec fn held(v: toml::de::DeValue) -> Toml;

/// What a `toml::Value` holds, tables in the order of their fields.
pub uninterp spec fn written(v: toml::Value) -> Toml;

/// What `toml::from_str` reads out of a text: a table, or the words in which it refuses the text.
pub uninterp spec fn parsed(text: Seq<char>) -> Result<Toml, Seq<char>>;

/// The text that `toml::to_string` writes for a table.
pub uninterp spec fn rendered(table: Toml) -> Seq<char>;

/// What a list of `toml::de::DeValue` holds.
pub open spec fn held_all(v: Seq<&toml::de::DeValue>) -> Seq<Toml> {
    v.map_values(|x: &toml::de::DeValue| held(*x))
}

/// What a list of `toml::Value` holds.
pub open spec fn written_all(v: Seq<toml::Value>) -> Seq<Toml> {
    v.map_values(|x: toml::Value| written(x))
}

/// What a list of fields holds.
pub open spec fn written_fields(v: Seq<(String, toml::Value)>) -> Seq<(Seq<char>, Toml)> {
    v.map_values(|x: (String, toml::Value)| (x.0@, written(x.1)))
}

/// `toml::from_str`, as to whether a text is a document, and `toml::de::DeTable::parse`, for what
/// it holds. The result depends on the text alone, and what is read is a table.
#[verifier::external_body]
pub(crate) fn parse<'a>(text: &'a str) -> (r: Result<toml::de::DeValue<'a>, String>)
    ensures
        r is Ok == parsed(text@) is Ok,
        r is Ok ==> held(r->Ok_0) == parsed(text@)->Ok_0 && held(r->Ok_0) is Table,
        r is Err ==> r->Err_0@ == parsed(text@)->Err_0,
{
    toml::from_str::<serde::de::IgnoredAny>(text)
        .and_then(|_| toml::de::DeTable::parse(text))
        .map(|table| toml::de::DeValue::Table(table.into_inner()))
        .map_err(|e| e.to_string())
}

/// `toml::to_string`, for a plain table: writes a document. It does not fail on such a table, the
/// text depends on what the table holds alone, and reading it gives the table back.
#[verifier::external_body]
pub(crate) fn render(table: &toml::Value) -> (r: String)
    requires
        is_plain(written(*table)),
    ensures
        r@ == rendered(written(*table)),
        parsed(r@) is Ok && parsed(r@)->Ok_0 == written(*table),
{
    toml::to_string(table).expect("a plain table can be written")
}

/// The rows of a list of verdicts.
pub open spec fn verdict_rows(rows: Seq<(i64, bool, u64)>) -> Toml {
    Toml::Array(
        rows.map_values(
            |e: (i64, bool, u64)|
                Toml::Array(
                    seq![
                        Toml::Integer(e.0 as int),
                        Toml::Boolean(e.1),
                        Toml::Integer(e.2 as int),
                    ],
                ),
        ),
    )
}

/// The rows of a list of elections.
pub open spec fn election_rows(rows: Seq<(u32, i64, i32, u64)>) -> Toml {
    Toml::Array(
        rows.map_values(
            |e: (u32, i64, i32, u64)|
                Toml::Array(
                    seq![
                        Toml::Integer(e.0 as int),
                        Toml::Integer(e.1 as int),
                        Toml::Integer(e.2 as int),
                        Toml::Integer(e.3 as int),
                    ],
                ),
        ),
    )
}

/// `toml::Serializer`, which `toml::to_string` uses, for a table of two fields that are rows of
/// numbers and truth values. It does not fail on them, the text depends on what the table holds
/// alone, and reading it gives the table back.
#[verifier::external_body]
pub(crate) fn render_rows(
    first_key: &str,
    first: Vec<(i64, bool, u64)>,
    second_key: &str,
    second: Vec<(u32, i64, i32, u64)>,
) -> (r: String)
    requires
        is_word(first_key@),
        is_word(second_key@),
        first_key@ != second_key@,
    ensures
        r@ == rendered(
            Toml::Table(
                seq![
                    (first_key@, verdict_rows(first@)),
                    (second_key@, election_rows(second@)),
                ],
            ),
        ),
        parsed(r@) is Ok && parsed(r@)->Ok_0 == Toml::Table(
            seq![(first_key@, verdict_rows(first@)), (second_key@, election_rows(second@))],
        ),
{
    let mut text = toml::ser::Buffer::new();
    let mut fields = serde::Serializer::serialize_map(toml::Serializer::new(&mut text), Some(2))
        .expect("a table can be written");
    serde::ser::SerializeMap::serialize_entry(&mut fields, first_key, &first)
        .expect("rows can be written");
    serde::ser::SerializeMap::serialize_entry(&mut fields, second_key, &second)
        .expect("rows can be written");
    serde::ser::SerializeMap::end(fields).expect("a table can be written");
    text.to_string()
}

/// `toml::Value::Integer`: the value that is this integer.
#[verifier::external_body]
pub(crate) fn integer(n: i64) -> (r: toml::Value)
    ensures
        written(r) == Toml::Integer(n as int),
{
    toml::Value::Integer(n)
}

/// `toml::Value::String`: the value that is this string.
#[verifier::external_body]
pub(crate) fn string(s: String) -> (r: toml::Value)
    ensures
        written(r) == Toml::Text(s@),
{
    toml::Value::String(s)
}

/// `toml::Value::Array`: the value that is this array.
#[verifier::external_body]
pub(crate) fn array(a: Vec<toml::Value>) -> (r: toml::Value)
    ensures
        written(r) == Toml::Array(written_all(a@)),
{
    toml::Value::Array(a)
}

/// `toml::Table::from_iter`: the table of these fields. Where no key stands twice, it holds them in
/// this order.
#[verifier::external_body]
pub(crate) fn table(fields: Vec<(String, toml::Value)>) -> (r: toml::Value)
    requires
        forall|i: int, j: int|
            0 <= i < j < fields@.len() ==> (#[trigger] fields@[i]).0@ != (
            #[trigger] fields@[j]).0@,
    ensures
        written(r) == Toml::Table(written_fields(fields@)),
{
    toml::Value::Table(toml::Table::from_iter(fields))
}

/// `toml::de::DeValue::get` with a key: the field of that key, where the value is a table that has
/// it.
#[verifier::external_body]
pub(crate) fn get<'a, 'i>(v: &'a toml::de::DeValue<'i>, key: &str) -> (r: Option<
    &'a toml::de::DeValue<'i>,
>)
    ensures
        r is Some == held(*v).field(key@) is Some,
        r is Some ==> held(*r->Some_0) == held(*v).field(key@)->Some_0,
{
    v.get(key).map(|field| field.get_ref())
}

/// `toml::de::DeValue::as_integer`: the integer, where the value is one of at most 128 bits.
#[verifier::external_body]
pub(crate) fn as_integer(v: &toml::de::DeValue) -> (r: Option<i128>)
    ensures
        r is Some == held(*v).integer() is Some,
        r is Some ==> r->Some_0 == held(*v).integer()->Some_0,
{
    v.as_integer().and_then(|n| i128::from_str_radix(n.as_str(), n.radix()).ok())
}

/// `toml::de::DeValue::as_array`: the elements, where the value is an array.
#[verifier::external_body]
pub(crate) fn as_array<'a, 'i>(v: &'a toml::de::DeValue<'i>) -> (r: Option<
    Vec<&'a toml::de::DeValue<'i>>,
>)
    ensures
        r is Some == held(*v).elements() is Some,
        r is Some ==> held_all(r->Some_0@) == held(*v).elements()->Some_0,
{
    v.as_array().map(|a| a.iter().map(|element| element.get_ref()).collect())
}

/// `toml::de::DeValue::as_bool`: the truth value, where the value is one.
pub assume_specification<'i>[ toml::de::DeValue::<'i>::as_bool ](v: &toml::de::DeValue<'i>) -> (r:
    Option<bool>)
    ensures
        r == held(*v).boolean(),
;

/// `toml::de::DeValue::as_str`: the string, where the value is one.
#[verifier::external_body]
pub(crate) fn as_str<'a>(v: &'a toml::de::DeValue) -> (r: Option<&'a str>)
    ensures
        r is Some == held(*v).text() is Some,
        r is Some ==> r->Some_0@ == held(*v).text()->Some_0,
{
    v.as_str()
}

/// What `std::str::from_utf8` says of bytes that are no text.
pub uninterp spec fn utf8_fault(bytes: Seq<u8>) -> Seq<char>;

/// `std::str::from_utf8`: the text that these bytes spell, where they are valid UTF-8, and else the
/// words of its error, which depend on the bytes alone.
#[verifier::external_body]
pub(crate) fn text_of_bytes(bytes: &Vec<u8>) -> (r: Result<&str, String>)
    ensures
        r is Ok == valid_utf8(bytes@),
        r is Ok ==> r->Ok_0@ == decode_utf8(bytes@),
        r is Err ==> r->Err_0@ == utf8_fault(bytes@),
{
    std::str::from_utf8(bytes).map_err(|e| e.to_string())
}

/// A field that a document is to have, and whether what stands there fits.
pub(crate) struct FieldCheck<'a> {
    /// The field.
    pub name: &'a str,
    /// Whether its value fits.
    pub fits: bool,
    /// Whether it may not be left out.
    pub required: bool,
}

/// What a field check says.
pub struct CheckView {
    /// The field.
    pub name: Seq<char>,
    /// Whether its value fits.
    pub fits: bool,
    /// Whether it may not be left out.
    pub required: bool,
}

pub(crate) open spec fn check_views(checks: Seq<FieldCheck>) -> Seq<CheckView> {
    checks.map_values(
        |c: FieldCheck| CheckView { name: c.name@, fits: c.fits, required: c.required },
    )
}

/// The first field that stands there and does not fit.
pub open spec fn first_malformed(d: Toml, checks: Seq<CheckView>) -> Option<Seq<char>>
    decreases checks.len(),
{
    if checks.len() == 0 {
        None
    } else if d.field(checks[0].name) is Some && !checks[0].fits {
        Some(checks[0].name)
    } else {
        first_malformed(d, checks.drop_first())
    }
}

/// The first required field that is left out.
pub open spec fn first_missing(d: Toml, checks: Seq<CheckView>) -> Option<Seq<char>>
    decreases checks.len(),
{
    if checks.len() == 0 {
        None
    } else if d.field(checks[0].name) is None && checks[0].required {
        Some(checks[0].name)
    } else {
        first_missing(d, checks.drop_first())
    }
}

/// What is wrong with the fields of a document: the first that does not fit, or else the first that
/// is left out.
pub open spec fn fault_text(d: Toml, checks: Seq<CheckView>) -> Seq<char> {
    match first_malformed(d, checks) {
        Some(name) => "malformed field `"@ + name + "`"@,
        None => match first_missing(d, checks) {
            Some(name) => "missing field `"@ + name + "`"@,
            None => "no fault"@,
        },
    }
}

/// The fault of a document names the field.
pub open spec fn names_a_field(fault: Seq<char>, checks: Seq<CheckView>) -> bool {
    exists|i: int|
        0 <= i < checks.len() && (fault == "malformed field `"@ + (#[trigger] checks[i]).name
            + "`"@ || fault == "missing field `"@ + checks[i].name + "`"@)
}

/// Where some field does not fit or is left out, the fault of the document names a field.
pub proof fn a_fault_is_named(d: Toml, checks: Seq<CheckView>, i: int)
    requires
        0 <= i < checks.len(),
        (d.field(checks[i].name) is Some && !checks[i].fits) || (d.field(checks[i].name) is None
            && checks[i].required),
    ensures
        names_a_field(fault_text(d, checks), checks),
{
    if d.field(checks[i].name) is Some {
        malformed_is_found(d, checks, i);
    } else {
        missing_is_found(d, checks, i);
    }
    found_is_checked(d, checks);
    match first_malformed(d, checks) {
        Some(name) => {
            let k = choose|k: int| 0 <= k < checks.len() && (#[trigger] checks[k]).name == name;
            assert(checks[k].name == name);
        },
        None => {
            let name = first_missing(d, checks)->Some_0;
            let k = choose|k: int| 0 <= k < checks.len() && (#[trigger] checks[k]).name == name;
            assert(checks[k].name == name);
        },
    }
}

/// The fault of a document is its first field that stands there and does not fit; only where there
/// is none of those, its first required field that is left out.
pub proof fn the_first_fault_is_named(d: Toml, checks: Seq<CheckView>, i: int)
    requires
        0 <= i < checks.len(),
    ensures
        d.field(checks[i].name) is Some && !checks[i].fits && (forall|k: int|
            0 <= k < i ==> d.field((#[trigger] checks[k]).name) is None || checks[k].fits)
            ==> fault_text(d, checks) == "malformed field `"@ + checks[i].name + "`"@,
        d.field(checks[i].name) is None && checks[i].required && (forall|k: int|
            0 <= k < i ==> d.field((#[trigger] checks[k]).name) is Some || !checks[k].required) && (
        forall|k: int|
            0 <= k < checks.len() ==> d.field((#[trigger] checks[k]).name) is None
                || checks[k].fits) ==> fault_text(d, checks) == "missing field `"@ + checks[i].name
            + "`"@,
{
    firsts(d, checks, i);
}

proof fn firsts(d: Toml, checks: Seq<CheckView>, i: int)
    requires
        0 <= i < checks.len(),
    ensures
        d.field(checks[i].name) is Some && !checks[i].fits && (forall|k: int|
            0 <= k < i ==> d.field((#[trigger] checks[k]).name) is None || checks[k].fits)
            ==> first_malformed(d, checks) == Some(checks[i].name),
        d.field(checks[i].name) is None && checks[i].required && (forall|k: int|
            0 <= k < i ==> d.field((#[trigger] checks[k]).name) is Some || !checks[k].required)
            ==> first_missing(d, checks) == Some(checks[i].name),
        (forall|k: int|
            0 <= k < checks.len() ==> d.field((#[trigger] checks[k]).name) is None
                || checks[k].fits) ==> first_malformed(d, checks) is None,
    decreases checks.len(),
{
    let rest = checks.drop_first();
    assert forall|k: int| 0 <= k < rest.len() implies #[trigger] rest[k] == checks[k + 1] by {}
    if rest.len() > 0 {
        firsts(d, rest, if i > 0 { i - 1 } else { 0 });
    } else {
        assert(first_malformed(d, rest) is None);
    }
    assert(checks[0] == checks[0]);
    if forall|k: int| 0 <= k < checks.len() ==> d.field((#[trigger] checks[k]).name) is None
        || checks[k].fits {
        assert forall|k: int| 0 <= k < rest.len() implies d.field(
            (#[trigger] rest[k]).name,
        ) is None || rest[k].fits by {
            assert(rest[k] == checks[k + 1]);
        }
    }
    if i > 0 {
        assert(rest[i - 1] == checks[i]);
        if forall|k: int| 0 <= k < i ==> d.field((#[trigger] checks[k]).name) is None
            || checks[k].fits {
            assert forall|k: int| 0 <= k < i - 1 implies d.field((#[trigger] rest[k]).name) is None
                || rest[k].fits by {
                assert(rest[k] == checks[k + 1]);
            }
        }
        if forall|k: int| 0 <= k < i ==> d.field((#[trigger] checks[k]).name) is Some
            || !checks[k].required {
            assert forall|k: int| 0 <= k < i - 1 implies d.field((#[trigger] rest[k]).name) is Some
                || !rest[k].required by {
                assert(rest[k] == checks[k + 1]);
            }
        }
    }
}

proof fn malformed_is_found(d: Toml, checks: Seq<CheckView>, i: int)
    requires
        0 <= i < checks.len(),
        d.field(checks[i].name) is Some,
        !checks[i].fits,
    ensures
        first_malformed(d, checks) is Some,
    decreases checks.len(),
{
    if i > 0 {
        assert(checks.drop_first()[i - 1] == checks[i]);
        malformed_is_found(d, checks.drop_first(), i - 1);
    }
}

proof fn missing_is_found(d: Toml, checks: Seq<CheckView>, i: int)
    requires
        0 <= i < checks.len(),
        d.field(checks[i].name) is None,
        checks[i].required,
    ensures
        first_missing(d, checks) is Some,
    decreases checks.len(),
{
    if i > 0 {
        assert(checks.drop_first()[i - 1] == checks[i]);
        missing_is_found(d, checks.drop_first(), i - 1);
    }
}

proof fn found_is_checked(d: Toml, checks: Seq<CheckView>)
    ensures
        first_malformed(d, checks) is Some ==> exists|k: int|
            0 <= k < checks.len() && (#[trigger] checks[k]).name == first_malformed(
                d,
                checks,
            )->Some_0,
        first_missing(d, checks) is Some ==> exists|k: int|
            0 <= k < checks.len() && (#[trigger] checks[k]).name == first_missing(
                d,
                checks,
            )->Some_0,
    decreases checks.len(),
{
    if checks.len() > 0 {
        let rest = checks.drop_first();
        found_is_checked(d, rest);
        assert(checks[0].name == checks[0].name);
        if first_malformed(d, rest) is Some {
            let k = choose|k: int|
                0 <= k < rest.len() && (#[trigger] rest[k]).name == first_malformed(
                    d,
                    rest,
                )->Some_0;
            assert(checks[k + 1] == rest[k]);
        }
        if first_missing(d, rest) is Some {
            let k = choose|k: int|
                0 <= k < rest.len() && (#[trigger] rest[k]).name == first_missing(d, rest)->Some_0;
            assert(checks[k + 1] == rest[k]);
        }
    }
}

fn quoted(lead: &str, name: &str) -> (r: String)
    ensures
        r@ == lead@ + name@ + "`"@,
{
    let mut r = lead.to_owned();
    r.append(name);
    r.append("`");
    r
}

/// What is wrong with the fields of a document.
pub(crate) fn find_fault(document: &toml::de::DeValue, checks: &Vec<FieldCheck>) -> (r: String)
    ensures
        r@ == fault_text(held(*document), check_views(checks@)),
{
    let ghost d = held(*document);
    let ghost all = check_views(checks@);
    let mut i: usize = 0;
    assert(all.skip(0) =~= all);
    while i < checks.len()
        invariant
            i <= checks@.len(),
            d == held(*document),
            all == check_views(checks@),
            first_malformed(d, all) == first_malformed(d, all.skip(i as int)),
        decreases checks@.len() - i,
    {
        assert(all.skip(i as int).drop_first() =~= all.skip(i + 1));
        assert(all.skip(i as int)[0] == all[i as int]);
        if get(document, checks[i].name).is_some() && !checks[i].fits {
            return quoted("malformed field `", checks[i].name);
        }
        i += 1;
    }
    assert(first_malformed(d, all) is None);
    let mut j: usize = 0;
    while j < checks.len()
        invariant
            j <= checks@.len(),
            d == held(*document),
            all == check_views(checks@),
            first_malformed(d, all) is None,
            first_missing(d, all) == first_missing(d, all.skip(j as int)),
        decreases checks@.len() - j,
    {
        assert(all.skip(j as int).drop_first() =~= all.skip(j + 1));
        assert(all.skip(j as int)[0] == all[j as int]);
        if get(document, checks[j].name).is_none() && checks[j].required {
            return quoted("missing field `", checks[j].name);
        }
        j += 1;
    }
    String::from_str("no fault")
}

/// In a table where no key stands twice, a field is found under its key.
pub proof fn field_is_found(fields: Seq<(Seq<char>, Toml)>, i: int)
    requires
        forall|i: int, j: int|
            0 <= i < j < fields.len() ==> (#[trigger] fields[i]).0 != (#[trigger] fields[j]).0,
        0 <= i < fields.len(),
    ensures
        Toml::Table(fields).field(fields[i].0) == Some(fields[i].1),
{
    let key = fields[i].0;
    let j = Toml::Table(fields).index_of(key);
    assert(fields[i].0 == key);
    assert(0 <= j < fields.len() && fields[j].0 == key);
    if i < j {
        assert(fields[i].0 != fields[j].0);
    } else if j < i {
        assert(fields[j].0 != fields[i].0);
    }
}

/// The text of a document is read back from its bytes.
pub proof fn text_survives_bytes(text: Seq<char>)
    ensures
        valid_utf8(encode_utf8(text)),
        decode_utf8(encode_utf8(text)) == text,
{
    vstd::utf8::encode_utf8_valid_utf8(text);
    vstd::utf8::encode_utf8_decode_utf8(text);
}

} // verus!
