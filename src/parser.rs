//! Classifies a raw payload by its first byte and hands it to the matching
//! binary decoder.
use crate::resource::IndividualObj;
use vstd::prelude::*;

verus! {

/// The wire format of a raw payload.
#[derive(Clone, Copy, Debug, PartialEq, Eq, Structural)]
pub enum RawType {
    Cbor,
    Json,
    Msgpack,
    Unknown,
}

/// First byte of a MessagePack-encoded individual.
pub const MSGPACK_MAGIC_HEADER: u8 = 146;

/// A payload not yet decoded, with its format once known.
#[derive(Clone, Debug)]
pub struct RawObj {
    pub data: Vec<u8>,
    pub raw_type: RawType,
}

/// An individual together with the payload that it is decoded from.
#[derive(Clone, Debug)]
pub struct Individual {
    pub raw: RawObj,
    pub obj: IndividualObj,
}

/// The binary decoders that the dispatcher hands a payload to.
pub trait RawDecoder {
    /// Decodes a whole payload of the given format, returning the subject URI.
    fn decode_whole(&mut self, format: RawType, data: &Vec<u8>) -> Result<String, String>;

    /// Decodes the resources of one predicate into `obj`; the error carries
    /// a message, empty where there is nothing to report.
    fn decode_predicate(
        &mut self,
        format: RawType,
        data: &Vec<u8>,
        expect_predicate: &str,
        obj: &mut IndividualObj,
    ) -> Result<(), String>;

    /// Receives the message of a failed predicate decode, with the predicate.
    fn report_error(&mut self, expect_predicate: &str, message: &str);
}

/// The format that a non-empty payload is taken for.
pub open spec fn classify(first: u8) -> RawType {
    if first == MSGPACK_MAGIC_HEADER {
        RawType::Msgpack
    } else {
        RawType::Cbor
    }
}

impl Individual {
    pub fn new(data: Vec<u8>) -> (r: Individual)
        ensures
            r.raw.data == data,
            r.raw.raw_type == RawType::Unknown,
            r.obj.uri@.len() == 0,
            r.obj.resources@.len() == 0,
    {
        Individual {
            raw: RawObj { data, raw_type: RawType::Unknown },
            obj: IndividualObj { uri: String::new(), resources: Vec::new() },
        }
    }
}

/// Takes in what a whole-payload decoder returned: its URI on success, `-1`
/// on failure with the individual left as it was.
pub fn adopt_decoded(iraw: &mut Individual, res: Result<String, String>) -> (r: Result<(), i8>)
    ensures
        match res {
            Ok(uri) => r == Ok::<(), i8>(()) && final(iraw).obj.uri == uri,
            Err(_) => r == Err::<(), i8>(-1i8) && final(iraw).obj.uri == old(iraw).obj.uri,
        },
        final(iraw).obj.resources == old(iraw).obj.resources,
        final(iraw).raw == old(iraw).raw,
{
    match res {
        Ok(uri) => {
            iraw.obj.uri = uri;
            Ok(())
        },
        Err(_) => Err(-1),
    }
}

/// The format that a payload is taken for: none for an empty payload, which
/// has nothing to decode, and otherwise the format of its first byte.
pub fn classify_payload(data: &Vec<u8>) -> (r: Option<RawType>)
    ensures
        data@.len() == 0 ==> r is None,
        data@.len() > 0 ==> r == Some(classify(data@[0])),
{
    if data.len() == 0 {
        None
    } else if data[0] == MSGPACK_MAGIC_HEADER {
        Some(RawType::Msgpack)
    } else {
        Some(RawType::Cbor)
    }
}

/// Classifies the payload with `classify_payload` and hands it, with that
/// format, to the decoder; an empty payload is left alone, the decoder
/// untouched, and counts as success. A failed decode gives `-1`
/// (`adopt_decoded`).
pub fn parse_raw<D: RawDecoder>(iraw: &mut Individual, decoder: &mut D) -> (r: Result<(), i8>)
    ensures
        old(iraw).raw.data@.len() == 0 ==> {
            &&& r == Ok::<(), i8>(())
            &&& *final(iraw) == *old(iraw)
            &&& *final(decoder) == *old(decoder)
        },
        old(iraw).raw.data@.len() > 0 ==> {
            &&& final(iraw).raw.raw_type == classify(old(iraw).raw.data@[0])
            &&& final(iraw).raw.data == old(iraw).raw.data
            &&& final(iraw).obj.resources == old(iraw).obj.resources
            &&& (r is Ok || r == Err::<(), i8>(-1i8))
            &&& (r is Err ==> final(iraw).obj.uri == old(iraw).obj.uri)
        },
{
    match classify_payload(&iraw.raw.data) {
        None => Ok(()),
        Some(format) => {
            iraw.raw.raw_type = format;
            let res = decoder.decode_whole(format, &iraw.raw.data);
            adopt_decoded(iraw, res)
        },
    }
}

/// The format handed to a predicate decoder: the payload's own format where
/// it is MessagePack or CBOR; for any other no decoder runs.
pub open spec fn predicate_route_of(t: RawType) -> Option<RawType> {
    if t == RawType::Msgpack || t == RawType::Cbor {
        Some(t)
    } else {
        None
    }
}

/// The format handed to a predicate decoder (see `predicate_route_of`).
pub fn predicate_route(t: RawType) -> (r: Option<RawType>)
    ensures
        r == predicate_route_of(t),
{
    if t == RawType::Msgpack || t == RawType::Cbor {
        Some(t)
    } else {
        None
    }
}

/// What a predicate decode comes to: whether it succeeded, and whether its
/// error message is to be reported (exactly when it failed with a non-empty
/// message).
pub fn predicate_outcome(res: &Result<(), String>) -> (r: (bool, bool))
    ensures
        r.0 == res is Ok,
        r.1 == (res is Err && res->Err_0@.len() > 0),
{
    match res {
        Ok(()) => (true, false),
        Err(message) => (false, !message.as_str().is_empty()),
    }
}

/// Decodes the resources of one predicate: the decoder is handed the format
/// from `predicate_route`, and where there is none (JSON, unknown) the call
/// fails with the individual and the decoder untouched. The result and the
/// report of an error message follow `predicate_outcome` on what the decoder
/// returned, so a failure is reported (when it has a message) and gives
/// `false`. The payload and its format are never changed, so a failure
/// leaves every later decode of this or another predicate as it would have
/// been.
pub fn parse_to_predicate<D: RawDecoder>(
    expect_predicate: &str,
    iraw: &mut Individual,
    decoder: &mut D,
) -> (r: bool)
    ensures
        final(iraw).raw == old(iraw).raw,
        predicate_route_of(old(iraw).raw.raw_type) is None ==> {
            &&& !r
            &&& *final(iraw) == *old(iraw)
            &&& *final(decoder) == *old(decoder)
        },
{
    match predicate_route(iraw.raw.raw_type) {
        None => false,
        Some(format) => {
            let res = decoder.decode_predicate(format, &iraw.raw.data, expect_predicate, &mut iraw.obj);
            let (ok, report) = predicate_outcome(&res);
            if report {
                match &res {
                    Err(message) => decoder.report_error(expect_predicate, message.as_str()),
                    Ok(()) => {},
                }
            }
            ok
        },
    }
}

} // verus!
