//! The typed value model: data types, language tags, values, resources and
//! individuals.
use vstd::prelude::*;

verus! {

/// The logical kind that a resource declares.
#[derive(Clone, Copy, Debug, PartialEq, Eq, Structural)]
pub enum DataType {
    Uri,
    String,
    Integer,
    Datetime,
    Decimal,
    Boolean,
    Binary,
}

/// A language tag such as `en` or `ru`.
#[derive(Clone, Debug)]
pub struct Lang {
    pub tag: String,
}

impl Lang {
    pub fn new(tag: &str) -> (r: Lang)
        ensures
            r.tag@ == tag@,
    {
        Lang { tag: tag.to_owned() }
    }

    /// The bare tag.
    pub fn as_string(&self) -> (r: String)
        ensures
            r@ == self.tag@,
    {
        self.tag.clone()
    }
}

/// The payload of a resource, one variant per kind of data.
#[derive(Clone, Debug)]
pub enum Value {
    /// `mantissa × 10^exponent`.
    Num(i64, i32),
    Int(i64),
    /// Unix epoch seconds, UTC.
    Datetime(i64),
    Bool(bool),
    Str(String, Option<Lang>),
    Uri(String),
    Binary(Vec<u8>),
}

/// A value together with the data type it is declared as.
#[derive(Clone, Debug)]
pub struct Resource {
    pub value: Value,
    pub rtype: DataType,
}

/// An addressable entity: a URI and, for each predicate in insertion order,
/// the resources stored under it.
#[derive(Clone, Debug)]
pub struct IndividualObj {
    pub uri: String,
    pub resources: Vec<(String, Vec<Resource>)>,
}

impl IndividualObj {
    pub fn new(uri: &str) -> (r: IndividualObj)
        ensures
            r.uri@ == uri@,
            r.resources@.len() == 0,
    {
        IndividualObj { uri: uri.to_owned(), resources: Vec::new() }
    }
}

} // verus!
