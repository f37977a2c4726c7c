//! Reading registration bodies and bootstrap self-descriptions: the JSON
//! reading is serde_json's, behind trusted wrappers whose results are
//! named, since what a given text parses to is a function of the text
//! alone; the records are assembled from those results by verified code.

use vstd::prelude::*;
use crate::record::{ModelRecord, ModelRecordView};

verus! {

/// What the serde_json reading of a registration body yields: the four
/// record fields exactly when the body is a JSON object with string
/// `name`, `address` and `owner` members and a boolean `is_quantized`
/// member.  A function of the text alone.
pub uninterp spec fn record_of_body(s: Seq<char>) -> Option<ModelRecordView>;

/// Relies on serde_json::from_str::<Value> and Value::{get, as_str,
/// as_bool}: parses the body and takes the four members out.  The parsed
/// value is deterministic in the text (serde_json's objects are ordered
/// maps; a duplicate member keeps its last value), so the outcome is
/// named by [`record_of_body`].  The accessor chain only tells the
/// value's variants apart and moves fields; it decides nothing else.
#[verifier::external_body]
fn read_record_parts(s: &str) -> (r: Option<(String, String, String, bool)>)
    ensures
        match r {
            Some(p) => record_of_body(s@) == Some(ModelRecordView {
                name: p.0@,
                address: p.1@,
                owner: p.2@,
                is_quantized: p.3,
            }),
            None => record_of_body(s@) is None,
        },
{
    let v: serde_json::Value = serde_json::from_str(s).ok()?;
    Some((
        v.get("name")?.as_str()?.to_string(),
        v.get("address")?.as_str()?.to_string(),
        v.get("owner")?.as_str()?.to_string(),
        v.get("is_quantized")?.as_bool()?,
    ))
}

/// What the serde_json reading of a self-description body yields: the
/// text of its `model_id` member, exactly when the body is a JSON object
/// with a string `model_id` member.  A function of the text alone.
pub uninterp spec fn model_id_of(s: Seq<char>) -> Option<Seq<char>>;

/// Relies on serde_json::from_str::<Value>, Value::get and Value::as_str:
/// parses the body and takes the `model_id` member out; the outcome is a
/// function of the text alone, named by [`model_id_of`].
#[verifier::external_body]
fn read_model_id(s: &str) -> (r: Option<String>)
    ensures
        match r {
            Some(t) => model_id_of(s@) == Some(t@),
            None => model_id_of(s@) is None,
        },
{
    let v: serde_json::Value = serde_json::from_str(s).ok()?;
    Some(v.get("model_id")?.as_str()?.to_string())
}

/// Read a registration body: the record it describes, exactly when it
/// describes one.
pub fn record_from_body(body: &str) -> (r: Option<ModelRecord>)
    ensures
        match r {
            Some(rec) => record_of_body(body@) == Some(rec@),
            None => record_of_body(body@) is None,
        },
{
    match read_record_parts(body) {
        Some((name, address, owner, is_quantized)) => Some(
            ModelRecord { name, address, owner, is_quantized },
        ),
        None => None,
    }
}

/// Synthesize the record a bootstrap probe registers, from the probed
/// backend's self-description body: the `model_id` member names it, the
/// probed `host:port` is its address, the given user owns it, and it is
/// not marked quantized.  A body without a string `model_id` member gives
/// none.
pub fn bootstrap_record(body: &str, host: &str, port: &str, user: &str) -> (r: Option<ModelRecord>)
    ensures
        r is Some <==> model_id_of(body@) is Some,
        r is Some ==> r->0@ == (ModelRecordView {
            name: model_id_of(body@)->0,
            address: host@ + seq![':'] + port@,
            owner: user@,
            is_quantized: false,
        }),
{
    match read_model_id(body) {
        None => None,
        Some(name) => {
            let mut address = String::new();
            address.append(host);
            crate::text::push_char(&mut address, ':');
            address.append(port);
            Some(ModelRecord { name, address, owner: user.to_owned(), is_quantized: false })
        },
    }
}

} // verus!
