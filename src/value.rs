//! The structural value model: what a value to be written as a row is made
//! of, and how it flattens into fields and header names.
use vstd::prelude::*;

verus! {

/// A structured value, as the flattening serializer sees it.
#[derive(Debug)]
pub enum Value {
    /// A scalar (boolean, number, character, string, byte string, unit,
    /// unit-like variant, empty optional) given by its text: one field.
    Scalar(Vec<u8>),
    /// An ordered container (sequence, tuple, tuple struct): its elements
    /// flatten left to right and carry no names.
    Sequence(Vec<Value>),
    /// A named-field aggregate: each field's name (the declared one, or an
    /// override) and its value, in declaration order.
    Aggregate(Vec<(Vec<u8>, Value)>),
    /// A tagged-union variant that carries a payload. It has no flat form.
    Variant(Payload),
    /// An associative (keyed) container. It has no flat form.
    Keyed,
}

/// The payload of a tagged-union variant.
#[derive(Clone, Copy, Debug, PartialEq, Eq, Structural)]
pub enum Payload {
    /// Ordered fields, as in `E::V(a, b)`.
    Tuple,
    /// Named fields, as in `E::V { a, b }`.
    Struct,
}

/// Why a value has no flat form.
pub open spec fn unsupported_message(v: Value) -> Seq<char> {
    match v {
        Value::Variant(Payload::Tuple) => "serializing enum tuple variants is not supported"@,
        Value::Variant(Payload::Struct) => "serializing enum struct variants is not supported"@,
        _ => "serializing maps is not supported"@,
    }
}

/// The fields of a value, depth first and left to right: one per scalar.
/// The first variant with a payload or map met on the way makes it an error.
pub open spec fn flatten(v: Value) -> Result<Seq<Seq<u8>>, Seq<char>>
    decreases v,
{
    match v {
        Value::Scalar(text) => Ok(seq![text@]),
        Value::Sequence(items) => flatten_all(items@),
        Value::Aggregate(fields) => flatten_fields(fields@),
        _ => Err(unsupported_message(v)),
    }
}

/// The fields of a run of values, one after the other.
pub open spec fn flatten_all(items: Seq<Value>) -> Result<Seq<Seq<u8>>, Seq<char>>
    decreases items,
{
    if items.len() == 0 {
        Ok(Seq::empty())
    } else {
        match flatten_all(items.drop_last()) {
            Err(m) => Err(m),
            Ok(init) => match flatten(items.last()) {
                Err(m) => Err(m),
                Ok(last) => Ok(init + last),
            },
        }
    }
}

/// The fields of a run of named fields: the names play no part.
pub open spec fn flatten_fields(fields: Seq<(Vec<u8>, Value)>) -> Result<Seq<Seq<u8>>, Seq<char>>
    decreases fields,
{
    if fields.len() == 0 {
        Ok(Seq::empty())
    } else {
        match flatten_fields(fields.drop_last()) {
            Err(m) => Err(m),
            Ok(init) => match flatten(fields.last().1) {
                Err(m) => Err(m),
                Ok(last) => Ok(init + last),
            },
        }
    }
}

/// Whether every named field's value is a scalar.
pub open spec fn scalar_fields(fields: Seq<(Vec<u8>, Value)>) -> bool {
    forall|i: int| 0 <= i < fields.len() ==> (#[trigger] fields[i]).1 is Scalar
}

/// The header names of a value, where its shape admits a header row: a named
/// aggregate whose fields are all scalars gives its field names, and an
/// ordered container of such values gives theirs one after the other. Any
/// other shape (a scalar outside a named field, a container inside one, a
/// variant with a payload, a map) admits none.
pub open spec fn header_names(v: Value) -> Option<Seq<Seq<u8>>>
    decreases v,
{
    match v {
        Value::Sequence(items) => header_names_all(items@),
        Value::Aggregate(fields) => if scalar_fields(fields@) {
            Some(fields@.map_values(|f: (Vec<u8>, Value)| f.0@))
        } else {
            None
        },
        _ => None,
    }
}

/// The header names of a run of values, one after the other.
pub open spec fn header_names_all(items: Seq<Value>) -> Option<Seq<Seq<u8>>>
    decreases items,
{
    if items.len() == 0 {
        Some(Seq::empty())
    } else {
        match header_names_all(items.drop_last()) {
            None => None,
            Some(init) => match header_names(items.last()) {
                None => None,
                Some(last) => Some(init + last),
            },
        }
    }
}

/// The header row that a value gives: its names, when it admits a header and
/// has at least one named field.
pub open spec fn header_row(v: Value) -> Option<Seq<Seq<u8>>> {
    match header_names(v) {
        Some(names) => if names.len() > 0 {
            Some(names)
        } else {
            None
        },
        None => None,
    }
}

} // verus!
