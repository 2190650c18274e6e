use vstd::prelude::*;
use crate::classify::Attribute;

verus! {

// Item metadata arrives from the registry as a JSON document.  The document
// is navigated through serde_json; its values are opaque here, so nothing is
// assumed about their contents: every conclusion about classification is
// drawn only after the relevant fields have been extracted into plain
// `Attribute` values.

#[verifier::external_type_specification]
#[verifier::external_body]
pub struct ExValue(serde_json::Value);

#[verifier::external_type_specification]
#[verifier::external_body]
pub struct ExJsonError(serde_json::Error);

/// Whether a text is a well-formed JSON document.  Whether parsing succeeds
/// is a function of the text alone; the name lets callers owe success on
/// well-formed input without spelling out the JSON grammar.
pub uninterp spec fn json_parses(s: Seq<char>) -> bool;

/// Relies on serde_json::from_str::<Value>: parses a JSON document,
/// succeeding exactly on well-formed input.
#[verifier::external_body]
pub(crate) fn parse_json(s: &str) -> (r: Result<serde_json::Value, serde_json::Error>)
    ensures
        r is Ok <==> json_parses(s@),
{
    serde_json::from_str(s)
}

/// Relies on serde_json::Value::get: looks a key up in a JSON object,
/// returning nothing when the value is no object or lacks the key.
#[verifier::external_body]
fn value_get<'a>(v: &'a serde_json::Value, key: &str) -> (r: Option<&'a serde_json::Value>) {
    v.get(key)
}

/// Relies on serde_json::Value::as_array: the element vector of a JSON
/// array, or nothing for any other kind of value.
#[verifier::external_body]
fn value_as_array(v: &serde_json::Value) -> (r: Option<&Vec<serde_json::Value>>) {
    v.as_array()
}

/// Relies on serde_json::Value::as_str: the content of a JSON string, or
/// nothing for any other kind of value.
#[verifier::external_body]
fn value_as_str(v: &serde_json::Value) -> (r: Option<&str>) {
    v.as_str()
}

/// Extracts the attribute list from an item's metadata document.
///
/// The attributes live under `reference_blob.attributes`, each entry an
/// object with string fields `trait_type` and `value`.  A missing or
/// malformed attribute list yields an empty list rather than an error, so a
/// metadata shape drift downgrades an item's classification instead of
/// losing the stake; entries of the wrong shape are skipped.  No contract
/// relates the result to the document: the document is opaque, and every
/// later conclusion is stated over the returned attributes.
pub fn extract_attributes(meta: &serde_json::Value) -> (attrs: Vec<Attribute>) {
    let mut attrs: Vec<Attribute> = Vec::new();
    let blob = match value_get(meta, "reference_blob") {
        Some(b) => b,
        None => { return attrs },
    };
    let list = match value_get(blob, "attributes") {
        Some(l) => l,
        None => { return attrs },
    };
    let arr = match value_as_array(list) {
        Some(a) => a,
        None => { return attrs },
    };
    let mut i: usize = 0;
    while i < arr.len()
        decreases arr.len() - i,
    {
        let entry = &arr[i];
        if let Some(trait_value) = value_get(entry, "trait_type") {
            if let Some(trait_str) = value_as_str(trait_value) {
                if let Some(value_value) = value_get(entry, "value") {
                    if let Some(value_str) = value_as_str(value_value) {
                        attrs.push(
                            Attribute {
                                trait_type: trait_str.to_owned(),
                                value: value_str.to_owned(),
                            },
                        );
                    }
                }
            }
        }
        i = i + 1;
    }
    attrs
}

} // verus!
