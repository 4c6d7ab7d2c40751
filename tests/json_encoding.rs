use veda_onto::decimal::{decimal_text, exponent_to_scale};
use veda_onto::json::{IndividualJson, JsonLeaf, JsonObserver, ValueJson};
use veda_onto::resource::{DataType, IndividualObj, Lang, Resource, Value};

fn fields(r: &Resource) -> Vec<(String, JsonLeaf)> {
    r.to_json().fields
}

fn s(x: &str) -> JsonLeaf {
    JsonLeaf::Str(x.to_string())
}

#[test]
fn decimal_negative_exponent_keeps_digits() {
    assert_eq!(exponent_to_scale(12345, -2), Some((12345, 2)));
    assert_eq!(decimal_text(12345, -2), Some("123.45".to_string()));
}

#[test]
fn decimal_small_negative_value() {
    assert_eq!(decimal_text(-5, -2), Some("-0.05".to_string()));
}

#[test]
fn decimal_positive_exponent_scales_up() {
    assert_eq!(exponent_to_scale(5, 2), Some((500, 0)));
    assert_eq!(decimal_text(5, 2), Some("500".to_string()));
}

#[test]
fn decimal_zero_with_scale() {
    assert_eq!(decimal_text(0, -2), Some("0.00".to_string()));
    assert_eq!(decimal_text(0, 40), Some("0".to_string()));
}

#[test]
fn decimal_out_of_range() {
    assert_eq!(exponent_to_scale(1, -29), None);
    assert_eq!(exponent_to_scale(i64::MAX, 1), None);
    assert_eq!(exponent_to_scale(-1, 19), None);
    assert_eq!(exponent_to_scale(-1, 18), Some((-1_000_000_000_000_000_000, 0)));
    let r = Resource { value: Value::Num(1, -29), rtype: DataType::Decimal };
    assert_eq!(fields(&r), vec![("data".to_string(), JsonLeaf::Null), ("type".to_string(), s("Decimal"))]);
}

#[test]
fn decimal_resource_data_is_exact_text() {
    let r = Resource { value: Value::Num(314159, -5), rtype: DataType::Decimal };
    assert_eq!(fields(&r), vec![("data".to_string(), s("3.14159")), ("type".to_string(), s("Decimal"))]);
}

#[test]
fn type_names_are_exact() {
    let all = [
        (DataType::Uri, "Uri"),
        (DataType::String, "String"),
        (DataType::Integer, "Integer"),
        (DataType::Datetime, "Datetime"),
        (DataType::Decimal, "Decimal"),
        (DataType::Boolean, "Boolean"),
        (DataType::Binary, "Binary"),
    ];
    for (t, name) in all.iter() {
        assert_eq!(t.json_name(), name.to_string());
    }
}

#[test]
fn tagged_string_has_lang() {
    let r = Resource { value: Value::Str("hello".to_string(), Some(Lang::new("en"))), rtype: DataType::String };
    assert_eq!(
        fields(&r),
        vec![("data".to_string(), s("hello")), ("lang".to_string(), s("en")), ("type".to_string(), s("String"))]
    );
}

#[test]
fn untagged_or_other_type_has_no_lang() {
    let r = Resource { value: Value::Str("hello".to_string(), None), rtype: DataType::String };
    assert_eq!(fields(&r), vec![("data".to_string(), s("hello")), ("type".to_string(), s("String"))]);
    let r = Resource { value: Value::Str("hello".to_string(), Some(Lang::new("ru"))), rtype: DataType::Uri };
    assert_eq!(fields(&r), vec![("data".to_string(), s("hello")), ("type".to_string(), s("Uri"))]);
}

#[test]
fn binary_resource_has_only_type() {
    let r = Resource { value: Value::Binary(vec![1, 2, 3]), rtype: DataType::Binary };
    assert_eq!(fields(&r), vec![("type".to_string(), s("Binary"))]);
}

#[test]
fn scalar_resources() {
    let r = Resource { value: Value::Int(-42), rtype: DataType::Integer };
    assert_eq!(fields(&r), vec![("data".to_string(), JsonLeaf::Int(-42)), ("type".to_string(), s("Integer"))]);
    let r = Resource { value: Value::Bool(true), rtype: DataType::Boolean };
    assert_eq!(fields(&r), vec![("data".to_string(), JsonLeaf::Bool(true)), ("type".to_string(), s("Boolean"))]);
    let r = Resource { value: Value::Uri("d:a".to_string()), rtype: DataType::Uri };
    assert_eq!(fields(&r), vec![("data".to_string(), s("d:a")), ("type".to_string(), s("Uri"))]);
}

#[test]
fn datetime_resource_renders_utc() {
    let r = Resource { value: Value::Datetime(0), rtype: DataType::Datetime };
    assert_eq!(fields(&r), vec![("data".to_string(), s("1970-01-01T00:00:00Z")), ("type".to_string(), s("Datetime"))]);
    let r = Resource { value: Value::Datetime(1700000000), rtype: DataType::Datetime };
    assert_eq!(fields(&r)[0].1, s("2023-11-14T22:13:20Z"));
}

#[test]
fn datetime_out_of_range_gives_placeholder() {
    let r = Resource { value: Value::Datetime(i64::MAX), rtype: DataType::Datetime };
    assert_eq!(fields(&r)[0].1, s("Invalid timestamp: 9223372036854775807"));
    let r = Resource { value: Value::Datetime(i64::MIN), rtype: DataType::Datetime };
    assert_eq!(fields(&r)[0].1, s("Invalid timestamp: -9223372036854775808"));
}

#[test]
fn bare_values() {
    match Value::Datetime(7).to_json() {
        ValueJson::Leaf(l) => assert_eq!(l, JsonLeaf::Int(7)),
        _ => panic!("expected a scalar"),
    }
    match Value::Num(15, -1).to_json() {
        ValueJson::Leaf(l) => assert_eq!(l, s("1.5")),
        _ => panic!("expected a scalar"),
    }
    match Value::Binary(vec![9]).to_json() {
        ValueJson::Leaf(l) => assert_eq!(l, JsonLeaf::Null),
        _ => panic!("expected a scalar"),
    }
    match Value::Str("x".to_string(), Some(Lang::new("en"))).to_json() {
        ValueJson::Object(o) => {
            assert_eq!(o.fields, vec![("data".to_string(), s("x")), ("lang".to_string(), s("en"))])
        },
        _ => panic!("expected an object"),
    }
    match Value::Uri("d:b".to_string()).to_json() {
        ValueJson::Object(o) => assert_eq!(o.fields, vec![("data".to_string(), s("d:b"))]),
        _ => panic!("expected an object"),
    }
}

#[test]
fn individual_keeps_predicate_order() {
    let mut obj = IndividualObj::new("d:ind");
    obj.resources.push(("v-s:b".to_string(), vec![Resource { value: Value::Int(1), rtype: DataType::Integer }]));
    obj.resources.push((
        "rdf:type".to_string(),
        vec![
            Resource { value: Value::Uri("v-s:A".to_string()), rtype: DataType::Uri },
            Resource { value: Value::Uri("v-s:B".to_string()), rtype: DataType::Uri },
        ],
    ));
    let j = obj.to_json();
    assert_eq!(j.uri, "d:ind");
    assert_eq!(j.entries.len(), 2);
    assert_eq!(j.entries[0].0, "v-s:b");
    assert_eq!(j.entries[1].0, "rdf:type");
    assert_eq!(j.entries[1].1.len(), 2);
    assert_eq!(j.entries[1].1[1].fields[0].1, s("v-s:B"));
}

#[test]
fn decimal_large_scale_drops_trailing_zeros() {
    assert_eq!(exponent_to_scale(100, -29), Some((10, 28)));
    assert_eq!(decimal_text(100, -29), Some("0.0000000000000000000000000010".to_string()));
    assert_eq!(exponent_to_scale(-1230, -30), None);
    assert_eq!(exponent_to_scale(-12300, -30), Some((-123, 28)));
    assert_eq!(exponent_to_scale(0, -40), Some((0, 28)));
    assert_eq!(exponent_to_scale(0, i32::MIN), Some((0, 28)));
    assert_eq!(exponent_to_scale(7, i32::MIN), None);
    let r = Resource { value: Value::Num(100, -29), rtype: DataType::Decimal };
    assert_eq!(fields(&r)[0].1, s("0.0000000000000000000000000010"));
}

struct Recorder {
    seen: Vec<i64>,
}

impl JsonObserver for Recorder {
    fn invalid_timestamp(&mut self, secs: i64) {
        self.seen.push(secs);
    }
}

#[test]
fn invalid_timestamp_is_reported() {
    let mut rec = Recorder { seen: Vec::new() };
    let bad = Resource { value: Value::Datetime(i64::MAX), rtype: DataType::Datetime };
    let good = Resource { value: Value::Datetime(0), rtype: DataType::Datetime };
    assert_eq!(bad.to_json_observed(&mut rec).fields[0].1, s("Invalid timestamp: 9223372036854775807"));
    good.to_json_observed(&mut rec);
    let mut obj = IndividualObj::new("d:t");
    obj.resources.push(("v-s:created".to_string(), vec![good.clone(), bad.clone()]));
    obj.to_json_observed(&mut rec);
    assert_eq!(rec.seen, vec![i64::MAX, i64::MAX]);
}

#[test]
fn uri_key_is_at_sign() {
    assert_eq!(IndividualJson::uri_key(), "@");
}
