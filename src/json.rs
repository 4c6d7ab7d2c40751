//! JSON encoding of resources, bare values and individuals.
//!
//! The encoding is built as a small JSON model; turning it into JSON text is
//! left to the caller's JSON library.
use crate::decimal::{
    decimal_text, fixed_point_text, lemma_decimal_text_round_trip, parse_fixed_point, pow10, scaled_of,
};
use crate::resource::{DataType, IndividualObj, Resource, Value};
use crate::text::{i64_text, int_text};
use chrono::TimeZone;
use vstd::prelude::*;

verus! {

/// A JSON scalar.
#[derive(Clone, Debug, PartialEq)]
pub enum JsonLeaf {
    Null,
    Bool(bool),
    Int(i64),
    Str(String),
}

/// The mathematical form of a `JsonLeaf`.
pub enum Leaf {
    Null,
    Bool(bool),
    Int(int),
    Str(Seq<char>),
}

impl View for JsonLeaf {
    type V = Leaf;

    open spec fn view(&self) -> Leaf {
        match self {
            JsonLeaf::Null => Leaf::Null,
            JsonLeaf::Bool(b) => Leaf::Bool(*b),
            JsonLeaf::Int(i) => Leaf::Int(*i as int),
            JsonLeaf::Str(s) => Leaf::Str(s@),
        }
    }
}

/// A JSON object whose values are scalars, keys in the order written.
#[derive(Clone, Debug)]
pub struct JsonObject {
    pub fields: Vec<(String, JsonLeaf)>,
}

impl View for JsonObject {
    type V = Seq<(Seq<char>, Leaf)>;

    open spec fn view(&self) -> Seq<(Seq<char>, Leaf)> {
        self.fields@.map_values(|f: (String, JsonLeaf)| (f.0@, f.1@))
    }
}

/// The JSON form of a bare value: a scalar or an object.
#[derive(Clone, Debug)]
pub enum ValueJson {
    Leaf(JsonLeaf),
    Object(JsonObject),
}

/// The JSON form of an individual: `"@"` mapped to the URI, then one entry
/// per predicate, each an array of resource objects.
#[derive(Clone, Debug)]
pub struct IndividualJson {
    pub uri: String,
    pub entries: Vec<(String, Vec<JsonObject>)>,
}

pub open spec fn data_type_name(t: DataType) -> Seq<char> {
    match t {
        DataType::Uri => "Uri"@,
        DataType::String => "String"@,
        DataType::Integer => "Integer"@,
        DataType::Datetime => "Datetime"@,
        DataType::Decimal => "Decimal"@,
        DataType::Boolean => "Boolean"@,
        DataType::Binary => "Binary"@,
    }
}

impl DataType {
    /// The name that the `type` field carries.
    pub fn json_name(&self) -> (r: String)
        ensures
            r@ == data_type_name(*self),
    {
        match self {
            DataType::Uri => "Uri".to_owned(),
            DataType::String => "String".to_owned(),
            DataType::Integer => "Integer".to_owned(),
            DataType::Datetime => "Datetime".to_owned(),
            DataType::Decimal => "Decimal".to_owned(),
            DataType::Boolean => "Boolean".to_owned(),
            DataType::Binary => "Binary".to_owned(),
        }
    }
}

/// What chrono renders for a Unix timestamp in UTC, or `None` where it has
/// no such instant.
pub uninterp spec fn utc_timestamp_text(secs: int) -> Option<Seq<char>>;

/// Relies on chrono's `Utc.timestamp_opt(secs, 0).single()` and the `Debug`
/// form of `DateTime<Utc>` (RFC 3339 style in UTC for years 0 to 9999);
/// `None` where chrono finds the instant out of range.
#[verifier::external_body]
fn utc_text(secs: i64) -> (r: Option<String>)
    ensures
        match r {
            Some(s) => utc_timestamp_text(secs as int) == Some(s@),
            None => utc_timestamp_text(secs as int) is None,
        },
{
    match chrono::Utc.timestamp_opt(secs, 0).single() {
        Some(d) => Some(format!("{:?}", d)),
        None => None,
    }
}

/// Receives what the JSON encoding recovers from on its own.
pub trait JsonObserver {
    /// A timestamp that chrono cannot render; its `data` holds a
    /// placeholder instead.
    fn invalid_timestamp(&mut self, secs: i64);
}

/// An observer that ignores what it is told.
pub struct Unobserved;

impl JsonObserver for Unobserved {
    fn invalid_timestamp(&mut self, _secs: i64) {
    }
}

/// The timestamp to report for a resource, given what chrono rendered for
/// it: its seconds exactly when it is a timestamp that was not rendered.
pub fn timestamp_anomaly(r: &Resource, rendered: &Option<String>) -> (a: Option<i64>)
    ensures
        a == (match r.value {
            Value::Datetime(i) => if rendered is None {
                Some(i)
            } else {
                None::<i64>
            },
            _ => None,
        }),
{
    match &r.value {
        Value::Datetime(i) => match rendered {
            Some(_) => None,
            None => Some(*i),
        },
        _ => None,
    }
}

/// The `data` of a decimal: its fixed-point text, or null where it has no
/// fixed-point representation.
pub open spec fn decimal_leaf(m: int, e: int) -> Leaf {
    match scaled_of(m, e) {
        Some(p) => Leaf::Str(fixed_point_text(p.0, p.1)),
        None => Leaf::Null,
    }
}

/// The `data` of a timestamp, given what chrono rendered for it.
pub open spec fn datetime_leaf(secs: int, rendered: Option<Seq<char>>) -> Leaf {
    match rendered {
        Some(t) => Leaf::Str(t),
        None => Leaf::Str("Invalid timestamp: "@ + int_text(secs)),
    }
}

/// The fields of a resource's JSON object, given what chrono rendered for a
/// timestamp: `data` (absent for binary), `lang` only for a tagged string
/// declared `String`, and always `type`.
pub open spec fn resource_fields(r: Resource, rendered: Option<Seq<char>>) -> Seq<(Seq<char>, Leaf)> {
    let data: Seq<(Seq<char>, Leaf)> = match r.value {
        Value::Num(m, e) => seq![("data"@, decimal_leaf(m as int, e as int))],
        Value::Int(i) => seq![("data"@, Leaf::Int(i as int))],
        Value::Datetime(i) => seq![("data"@, datetime_leaf(i as int, rendered))],
        Value::Bool(b) => seq![("data"@, Leaf::Bool(b))],
        Value::Str(s, l) => if r.rtype == DataType::String && l is Some {
            seq![("data"@, Leaf::Str(s@)), ("lang"@, Leaf::Str(l->0.tag@))]
        } else {
            seq![("data"@, Leaf::Str(s@))]
        },
        Value::Uri(s) => seq![("data"@, Leaf::Str(s@))],
        Value::Binary(_) => Seq::empty(),
    };
    data.push(("type"@, Leaf::Str(data_type_name(r.rtype))))
}

/// The fields of a resource's JSON object.
pub open spec fn resource_json(r: Resource) -> Seq<(Seq<char>, Leaf)> {
    resource_fields(
        r,
        match r.value {
            Value::Datetime(i) => utc_timestamp_text(i as int),
            _ => None,
        },
    )
}

fn field(key: &str, v: JsonLeaf) -> (r: (String, JsonLeaf))
    ensures
        r.0@ == key@,
        r.1 == v,
{
    (key.to_owned(), v)
}

fn decimal_json(m: i64, e: i32) -> (r: JsonLeaf)
    ensures
        r@ == decimal_leaf(m as int, e as int),
{
    match decimal_text(m, e) {
        Some(t) => JsonLeaf::Str(t),
        None => JsonLeaf::Null,
    }
}

/// The JSON object of a resource, given what chrono rendered for its
/// timestamp (`rendered` is read only for a `Datetime` value).
pub fn resource_json_with(r: &Resource, rendered: Option<String>) -> (o: JsonObject)
    ensures
        o@ == resource_fields(
            *r,
            match rendered {
                Some(s) => Some(s@),
                None => None,
            },
        ),
{
    let mut fields: Vec<(String, JsonLeaf)> = Vec::new();
    match &r.value {
        Value::Num(m, e) => {
            fields.push(field("data", decimal_json(*m, *e)));
        },
        Value::Int(i) => {
            fields.push(field("data", JsonLeaf::Int(*i)));
        },
        Value::Datetime(i) => {
            let t = match rendered {
                Some(s) => s,
                None => {
                    let mut s = "Invalid timestamp: ".to_owned();
                    let n = i64_text(*i);
                    s.append(n.as_str());
                    s
                },
            };
            fields.push(field("data", JsonLeaf::Str(t)));
        },
        Value::Bool(b) => {
            fields.push(field("data", JsonLeaf::Bool(*b)));
        },
        Value::Str(s, l) => {
            fields.push(field("data", JsonLeaf::Str(s.clone())));
            if r.rtype == DataType::String {
                match l {
                    Some(lang) => {
                        fields.push(field("lang", JsonLeaf::Str(lang.as_string())));
                    },
                    None => {},
                }
            }
        },
        Value::Uri(s) => {
            fields.push(field("data", JsonLeaf::Str(s.clone())));
        },
        Value::Binary(_) => {},
    }
    fields.push(field("type", JsonLeaf::Str(r.rtype.json_name())));
    let o = JsonObject { fields };
    assert(o@ =~= resource_fields(
        *r,
        match rendered {
            Some(s) => Some(s@),
            None => None,
        },
    ));
    o
}

/// Whether encoding `r` reports an anomaly: a timestamp that chrono cannot
/// render.
pub open spec fn has_timestamp_anomaly(r: Resource) -> bool {
    r.value is Datetime && utc_timestamp_text(r.value->Datetime_0 as int) is None
}

impl Resource {
    /// The JSON object of this resource; a timestamp that chrono cannot
    /// render is reported to `observer` (as `timestamp_anomaly` decides).
    pub fn to_json_observed<O: JsonObserver>(&self, observer: &mut O) -> (o: JsonObject)
        ensures
            o@ == resource_json(*self),
            !has_timestamp_anomaly(*self) ==> *final(observer) == *old(observer),
    {
        let rendered = match &self.value {
            Value::Datetime(i) => utc_text(*i),
            _ => None,
        };
        match timestamp_anomaly(self, &rendered) {
            Some(secs) => observer.invalid_timestamp(secs),
            None => {},
        }
        resource_json_with(self, rendered)
    }

    /// The JSON object of this resource.
    pub fn to_json(&self) -> (o: JsonObject)
        ensures
            o@ == resource_json(*self),
    {
        let mut observer = Unobserved;
        self.to_json_observed(&mut observer)
    }
}

/// The mathematical form of a `ValueJson`.
pub enum ValueJsonV {
    Leaf(Leaf),
    Object(Seq<(Seq<char>, Leaf)>),
}

impl View for ValueJson {
    type V = ValueJsonV;

    open spec fn view(&self) -> ValueJsonV {
        match self {
            ValueJson::Leaf(l) => ValueJsonV::Leaf(l@),
            ValueJson::Object(o) => ValueJsonV::Object(o@),
        }
    }
}

/// The JSON form of a bare value: numbers and booleans as scalars (a
/// timestamp as its epoch seconds), a string as `{data, lang?}` with `lang`
/// whenever a tag is set, a URI as `{data}`, and binary as null.
pub open spec fn value_json(v: Value) -> ValueJsonV {
    match v {
        Value::Num(m, e) => ValueJsonV::Leaf(decimal_leaf(m as int, e as int)),
        Value::Int(i) => ValueJsonV::Leaf(Leaf::Int(i as int)),
        Value::Datetime(i) => ValueJsonV::Leaf(Leaf::Int(i as int)),
        Value::Bool(b) => ValueJsonV::Leaf(Leaf::Bool(b)),
        Value::Str(s, l) => ValueJsonV::Object(
            if l is Some {
                seq![("data"@, Leaf::Str(s@)), ("lang"@, Leaf::Str(l->0.tag@))]
            } else {
                seq![("data"@, Leaf::Str(s@))]
            },
        ),
        Value::Uri(s) => ValueJsonV::Object(seq![("data"@, Leaf::Str(s@))]),
        Value::Binary(_) => ValueJsonV::Leaf(Leaf::Null),
    }
}

impl Value {
    /// The JSON form of this value outside a resource.
    pub fn to_json(&self) -> (r: ValueJson)
        ensures
            r@ == value_json(*self),
    {
        match self {
            Value::Num(m, e) => ValueJson::Leaf(decimal_json(*m, *e)),
            Value::Int(i) => ValueJson::Leaf(JsonLeaf::Int(*i)),
            Value::Datetime(i) => ValueJson::Leaf(JsonLeaf::Int(*i)),
            Value::Bool(b) => ValueJson::Leaf(JsonLeaf::Bool(*b)),
            Value::Str(s, l) => {
                let mut fields: Vec<(String, JsonLeaf)> = Vec::new();
                fields.push(field("data", JsonLeaf::Str(s.clone())));
                match l {
                    Some(lang) => {
                        fields.push(field("lang", JsonLeaf::Str(lang.as_string())));
                    },
                    None => {},
                }
                let o = JsonObject { fields };
                assert(o@ =~= match value_json(*self) {
                    ValueJsonV::Object(f) => f,
                    _ => Seq::empty(),
                });
                ValueJson::Object(o)
            },
            Value::Uri(s) => {
                let mut fields: Vec<(String, JsonLeaf)> = Vec::new();
                fields.push(field("data", JsonLeaf::Str(s.clone())));
                let o = JsonObject { fields };
                assert(o@ =~= seq![("data"@, Leaf::Str(s@))]);
                ValueJson::Object(o)
            },
            Value::Binary(_) => ValueJson::Leaf(JsonLeaf::Null),
        }
    }
}

/// `j` encodes `obj`: the same URI, and for each predicate in order the same
/// name and the JSON objects of its resources.
pub open spec fn encodes_individual(j: IndividualJson, obj: IndividualObj) -> bool {
    &&& j.uri@ == obj.uri@
    &&& j.entries@.len() == obj.resources@.len()
    &&& forall|i: int|
        0 <= i < obj.resources@.len() ==> encodes_entry(#[trigger] j.entries@[i], obj.resources@[i])
}

/// One predicate's entry: the same name, and the JSON object of each of its
/// resources in order.
pub open spec fn encodes_entry(e: (String, Vec<JsonObject>), r: (String, Vec<Resource>)) -> bool {
    &&& e.0@ == r.0@
    &&& e.1@.len() == r.1@.len()
    &&& forall|k: int| 0 <= k < r.1@.len() ==> (#[trigger] e.1@[k])@ == resource_json(r.1@[k])
}

fn resources_json<O: JsonObserver>(rs: &Vec<Resource>, observer: &mut O) -> (r: Vec<JsonObject>)
    ensures
        r@.len() == rs@.len(),
        forall|k: int| 0 <= k < rs@.len() ==> (#[trigger] r@[k])@ == resource_json(rs@[k]),
{
    let mut out: Vec<JsonObject> = Vec::new();
    let mut k: usize = 0;
    while k < rs.len()
        invariant
            0 <= k <= rs@.len(),
            out@.len() == k,
            forall|j: int| 0 <= j < k ==> (#[trigger] out@[j])@ == resource_json(rs@[j]),
        decreases rs@.len() - k,
    {
        out.push(rs[k].to_json_observed(observer));
        k = k + 1;
    }
    out
}

impl IndividualJson {
    /// The reserved key that the URI stands under.
    pub fn uri_key() -> (r: String)
        ensures
            r@ == "@"@,
    {
        "@".to_owned()
    }
}

impl IndividualObj {
    /// The JSON form of this individual.
    pub fn to_json(&self) -> (r: IndividualJson)
        ensures
            encodes_individual(r, *self),
    {
        let mut observer = Unobserved;
        self.to_json_observed(&mut observer)
    }

    /// The JSON form of this individual; each timestamp that chrono cannot
    /// render is reported to `observer`.
    pub fn to_json_observed<O: JsonObserver>(&self, observer: &mut O) -> (r: IndividualJson)
        ensures
            encodes_individual(r, *self),
    {
        let mut entries: Vec<(String, Vec<JsonObject>)> = Vec::new();
        let mut i: usize = 0;
        while i < self.resources.len()
            invariant
                0 <= i <= self.resources@.len(),
                entries@.len() == i,
                forall|j: int| 0 <= j < i ==> encodes_entry(#[trigger] entries@[j], self.resources@[j]),
            decreases self.resources@.len() - i,
        {
            let name = self.resources[i].0.clone();
            let objs = resources_json(&self.resources[i].1, observer);
            let ghost prev = entries@;
            entries.push((name, objs));
            assert(forall|j: int| 0 <= j < i ==> entries@[j] == prev[j]);
            assert(encodes_entry(entries@[i as int], self.resources@[i as int]));
            i = i + 1;
        }
        IndividualJson { uri: self.uri.clone(), entries }
    }
}

/// Whether a resource's JSON object has a field of the given name.
pub open spec fn has_field(fields: Seq<(Seq<char>, Leaf)>, key: Seq<char>) -> bool {
    exists|i: int| 0 <= i < fields.len() && #[trigger] fields[i].0 == key
}

/// A string value carries a `lang` field exactly when it is declared
/// `String` and a language tag is set.
pub proof fn lemma_lang_only_for_tagged_strings(r: Resource)
    requires
        r.value is Str,
    ensures
        has_field(resource_json(r), "lang"@) <==> (r.rtype == DataType::String
            && r.value->Str_1 is Some),
{
    reveal_strlit("lang");
    reveal_strlit("data");
    reveal_strlit("type");
    let f = resource_json(r);
    if r.rtype == DataType::String && r.value->Str_1 is Some {
        assert(f[1].0 == "lang"@);
    } else {
        assert(f.len() == 2);
        assert forall|i: int| 0 <= i < f.len() implies f[i].0 != "lang"@ by {
            assert(f[i].0[0] != "lang"@[0]);
        }
    }
}

/// A binary resource encodes to exactly `{"type":"Binary"}`.
pub proof fn lemma_binary_has_only_type(r: Resource)
    requires
        r.value is Binary,
        r.rtype == DataType::Binary,
    ensures
        resource_json(r) == seq![("type"@, Leaf::Str("Binary"@))],
{
    assert(resource_json(r) =~= seq![("type"@, Leaf::Str("Binary"@))]);
}

/// No two data types share a JSON name.
pub proof fn lemma_data_type_names_distinct(a: DataType, b: DataType)
    ensures
        data_type_name(a) == data_type_name(b) <==> a == b,
{
    reveal_strlit("Uri");
    reveal_strlit("String");
    reveal_strlit("Integer");
    reveal_strlit("Datetime");
    reveal_strlit("Decimal");
    reveal_strlit("Boolean");
    reveal_strlit("Binary");
    if a != b {
        let x = data_type_name(a);
        let y = data_type_name(b);
        if x.len() == y.len() {
            assert(x[0] != y[0] || x[1] != y[1] || x[2] != y[2]);
        }
    }
}

/// The `data` of a decimal resource, read back as a fixed-point number, is
/// exactly `mantissa × 10^exponent`, wherever it has a fixed-point form.
pub proof fn lemma_decimal_data_exact(r: Resource)
    requires
        r.value is Num,
        scaled_of(r.value->Num_0 as int, r.value->Num_1 as int) is Some,
    ensures
        ({
            let m = r.value->Num_0;
            let e = r.value->Num_1;
            let d = resource_json(r)[0];
            &&& d.0 == "data"@
            &&& d.1 is Str
            &&& e < 0 ==> parse_fixed_point(d.1->Str_0).0 * pow10((-e) as nat) == m * pow10(
                parse_fixed_point(d.1->Str_0).1,
            )
            &&& e >= 0 ==> parse_fixed_point(d.1->Str_0).1 == 0 && parse_fixed_point(d.1->Str_0).0 == m
                * pow10(e as nat)
        }),
{
    lemma_decimal_text_round_trip(r.value->Num_0, r.value->Num_1);
}

} // verus!
