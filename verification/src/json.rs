//! Numbers read out of JSON documents.

use vstd::prelude::*;

verus! {

/// What `serde_json` finds under a field of a document: the unsigned number
/// that the field holds, if the document is an object and the field such a
/// number, or, where the bytes are no JSON document, the sentence that says so.
pub uninterp spec fn number_field(document: Seq<u8>, field: Seq<char>) -> Result<
    Option<u64>,
    Seq<char>,
>;

/// `serde_json::from_slice` into a `serde_json::Value`, then `Value::get` and
/// `Value::as_u64` on one field. What comes of it is named, not described: the
/// number and the sentence of an error alike depend on the bytes and the name
/// of the field alone.
#[verifier::external_body]
pub(crate) fn read_number_field(document: &Vec<u8>, field: &str) -> (number: Result<
    Option<u64>,
    String,
>)
    ensures
        match number {
            Ok(value) => number_field(document@, field@) == Ok::<Option<u64>, Seq<char>>(value),
            Err(refusal) => number_field(document@, field@) == Err::<Option<u64>, Seq<char>>(
                refusal@,
            ),
        },
{
    match serde_json::from_slice::<serde_json::Value>(document.as_slice()) {
        Ok(value) => Ok(value.get(field).and_then(serde_json::Value::as_u64)),
        Err(error) => Err(error.to_string()),
    }
}

/// What `serde_json` finds under a field of the value at the start of some
/// bytes, whatever stands behind that value: the unsigned number that the
/// field holds, if the value is an object and the field such a number, or,
/// where no value stands there, the sentence that says so.
pub uninterp spec fn leading_number_field(document: Seq<u8>, field: Seq<char>) -> Result<
    Option<u64>,
    Seq<char>,
>;

/// `serde::Deserialize::deserialize` of a `serde_json::Value` from a
/// `serde_json::Deserializer` over the bytes, then `Value::get` and
/// `Value::as_u64` on one field. Unlike `serde_json::from_slice` it does not
/// ask that the bytes end with the value. What comes of it is named, not
/// described: the number and the sentence of an error alike depend on the bytes
/// and the name of the field alone.
#[verifier::external_body]
pub(crate) fn read_leading_number_field(document: &Vec<u8>, field: &str) -> (number: Result<
    Option<u64>,
    String,
>)
    ensures
        match number {
            Ok(value) => leading_number_field(document@, field@) == Ok::<Option<u64>, Seq<char>>(
                value,
            ),
            Err(refusal) => leading_number_field(document@, field@) == Err::<
                Option<u64>,
                Seq<char>,
            >(refusal@),
        },
{
    let mut reader = serde_json::Deserializer::from_slice(document.as_slice());
    let read: Result<serde_json::Value, serde_json::Error> = serde::Deserialize::deserialize(
        &mut reader,
    );
    match read {
        Ok(value) => Ok(value.get(field).and_then(serde_json::Value::as_u64)),
        Err(error) => Err(error.to_string()),
    }
}

} // verus!
