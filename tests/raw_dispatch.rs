use veda_onto::parser::{
    classify_payload, parse_raw, parse_to_predicate, predicate_outcome, predicate_route, Individual, RawDecoder, RawType,
};
use veda_onto::resource::IndividualObj;

struct Fake {
    whole: Result<String, String>,
    seen: Vec<RawType>,
    failing: &'static str,
    reported: Vec<(String, String)>,
}

impl RawDecoder for Fake {
    fn decode_whole(&mut self, format: RawType, _data: &Vec<u8>) -> Result<String, String> {
        self.seen.push(format);
        self.whole.clone()
    }

    fn decode_predicate(
        &mut self,
        format: RawType,
        _data: &Vec<u8>,
        expect_predicate: &str,
        obj: &mut IndividualObj,
    ) -> Result<(), String> {
        self.seen.push(format);
        if expect_predicate == self.failing {
            return Err("broken".to_string());
        }
        if expect_predicate == "quiet" {
            return Err(String::new());
        }
        obj.resources.push((expect_predicate.to_string(), Vec::new()));
        Ok(())
    }

    fn report_error(&mut self, expect_predicate: &str, message: &str) {
        self.reported.push((expect_predicate.to_string(), message.to_string()));
    }
}

fn fake(whole: Result<String, String>) -> Fake {
    Fake { whole, seen: Vec::new(), failing: "bad", reported: Vec::new() }
}

#[test]
fn magic_byte_selects_msgpack() {
    let mut ind = Individual::new(vec![146, 1, 2]);
    let mut d = fake(Ok("d:x".to_string()));
    assert_eq!(parse_raw(&mut ind, &mut d), Ok(()));
    assert_eq!(ind.raw.raw_type, RawType::Msgpack);
    assert_eq!(ind.obj.uri, "d:x");
    assert_eq!(d.seen, vec![RawType::Msgpack]);
}

#[test]
fn other_first_byte_selects_cbor() {
    for b in [0u8, 145, 147, 255] {
        let mut ind = Individual::new(vec![b]);
        let mut d = fake(Ok("d:y".to_string()));
        assert_eq!(parse_raw(&mut ind, &mut d), Ok(()));
        assert_eq!(ind.raw.raw_type, RawType::Cbor);
    }
}

#[test]
fn empty_payload_is_left_alone() {
    let mut ind = Individual::new(Vec::new());
    let mut d = fake(Ok("d:z".to_string()));
    assert_eq!(parse_raw(&mut ind, &mut d), Ok(()));
    assert_eq!(ind.raw.raw_type, RawType::Unknown);
    assert_eq!(ind.obj.uri, "");
    assert!(d.seen.is_empty());
}

#[test]
fn failed_decode_gives_minus_one() {
    let mut ind = Individual::new(vec![146]);
    let mut d = fake(Err("nope".to_string()));
    assert_eq!(parse_raw(&mut ind, &mut d), Err(-1));
    assert_eq!(ind.obj.uri, "");
}

#[test]
fn predicate_failure_does_not_touch_others() {
    let mut ind = Individual::new(vec![146]);
    let mut d = fake(Ok("d:x".to_string()));
    parse_raw(&mut ind, &mut d).unwrap();
    assert!(!parse_to_predicate("bad", &mut ind, &mut d));
    assert!(parse_to_predicate("rdf:type", &mut ind, &mut d));
    assert_eq!(ind.raw.raw_type, RawType::Msgpack);
    assert_eq!(ind.obj.resources.len(), 1);
    assert_eq!(ind.obj.resources[0].0, "rdf:type");
    assert_eq!(d.reported, vec![("bad".to_string(), "broken".to_string())]);
}

#[test]
fn empty_error_message_is_not_reported() {
    let mut ind = Individual::new(vec![0]);
    let mut d = fake(Ok("d:x".to_string()));
    parse_raw(&mut ind, &mut d).unwrap();
    assert!(!parse_to_predicate("quiet", &mut ind, &mut d));
    assert!(d.reported.is_empty());
}

#[test]
fn unclassified_payload_fails_predicate_parse() {
    let mut ind = Individual::new(vec![146]);
    let mut d = fake(Ok("d:x".to_string()));
    assert!(!parse_to_predicate("rdf:type", &mut ind, &mut d));
    ind.raw.raw_type = RawType::Json;
    assert!(!parse_to_predicate("rdf:type", &mut ind, &mut d));
    assert!(d.seen.is_empty());
}

#[test]
fn payload_classification() {
    assert_eq!(classify_payload(&Vec::new()), None);
    assert_eq!(classify_payload(&vec![146, 0]), Some(RawType::Msgpack));
    assert_eq!(classify_payload(&vec![161]), Some(RawType::Cbor));
}

#[test]
fn predicate_routing_and_outcome() {
    assert_eq!(predicate_route(RawType::Msgpack), Some(RawType::Msgpack));
    assert_eq!(predicate_route(RawType::Cbor), Some(RawType::Cbor));
    assert_eq!(predicate_route(RawType::Json), None);
    assert_eq!(predicate_route(RawType::Unknown), None);
    assert_eq!(predicate_outcome(&Ok(())), (true, false));
    assert_eq!(predicate_outcome(&Err(String::new())), (false, false));
    assert_eq!(predicate_outcome(&Err("x".to_string())), (false, true));
}
