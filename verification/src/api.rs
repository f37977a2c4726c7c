//! The HTTP-facing operations: register-or-update a model, list all
//! models, and the catch-all for unrecognized paths.  The server plumbing
//! hands in the method, the path segments and the body as plain values;
//! everything decided here is verified.

use vstd::prelude::*;
use crate::json::{json_records, models_json};
use crate::parse::{record_of_body, record_from_body};
use crate::record::{ModelRecord, ModelRecordView};
use crate::registry::{record_listed, upsert_view, Registry, RegistryView};

verus! {

/// What urlencoding::decode returns for a given identifier: the decoding
/// is a function of the text alone.
pub uninterp spec fn percent_decoded(s: Seq<char>) -> Option<Seq<char>>;

/// Relies on urlencoding::decode: percent-decodes the identifier; it
/// fails exactly when the decoded bytes are not valid UTF-8, and its
/// source returns text without a `%` unchanged.
#[verifier::external_body]
fn percent_decode(s: &str) -> (r: Option<String>)
    ensures
        match r {
            Some(t) => percent_decoded(s@) == Some(t@) && ((forall|i: int|
                0 <= i < s@.len() ==> s@[i] != '%') ==> t@ == s@),
            None => percent_decoded(s@) is None && exists|i: int|
                0 <= i < s@.len() && s@[i] == '%',
        },
{
    match urlencoding::decode(s) {
        Ok(t) => Some(t.into_owned()),
        Err(_) => None,
    }
}

/// A response handed back to the HTTP layer: a status code and a plain
/// body.
pub struct Response {
    pub status: u16,
    pub body: String,
}

/// Register a model under an already-decoded identifier, given the
/// outcome of decoding and of reading the body: both there means the
/// registration is applied and confirmed; anything missing means a bad
/// request and an untouched registry.
pub fn register_decoded(reg: &mut Registry, id: Option<String>, rec: Option<ModelRecord>) -> (resp:
    Response)
    requires
        old(reg).wf(),
    ensures
        final(reg).wf(),
        (id is Some && rec is Some) ==> resp.status == 200 && resp.body@
            == "Model registered successfully"@ && final(reg)@ == upsert_view(
            old(reg)@,
            id->0@,
            rec->0@,
        ),
        !(id is Some && rec is Some) ==> resp.status == 400 && resp.body@ == "Bad request"@
            && final(reg)@ == old(reg)@,
{
    match (id, rec) {
        (Some(id), Some(rec)) => {
            reg.upsert(id, rec);
            Response { status: 200, body: "Model registered successfully".to_owned() }
        },
        _ => Response { status: 400, body: "Bad request".to_owned() },
    }
}

/// Handle a registration request: percent-decode the path-carried
/// identifier, read the body as a record, and upsert.  It succeeds, with
/// the registry mapping the decoded identifier to the record the body
/// describes, exactly when the identifier decodes and the body describes
/// a record; otherwise it is a bad request and changes nothing.
pub fn handle_register(reg: &mut Registry, encoded_id: &String, body: &String) -> (resp: Response)
    requires
        old(reg).wf(),
    ensures
        final(reg).wf(),
        resp.status == 200 || resp.status == 400,
        resp.status == 200 <==> (percent_decoded(encoded_id@) is Some && record_of_body(body@)
            is Some),
        resp.status == 400 ==> resp.body@ == "Bad request"@ && final(reg)@ == old(reg)@,
        resp.status == 200 ==> resp.body@ == "Model registered successfully"@ && final(reg)@
            == upsert_view(
            old(reg)@,
            percent_decoded(encoded_id@)->0,
            record_of_body(body@)->0,
        ),
{
    let id = percent_decode(encoded_id.as_str());
    let rec = record_from_body(body.as_str());
    register_decoded(reg, id, rec)
}

/// What a listing holds of a registry state: one record per registered
/// identifier, each under some identifier, in some order.
pub open spec fn listing_of(v: RegistryView, rs: Seq<ModelRecordView>) -> bool {
    &&& rs.len() == v.records.dom().len()
    &&& (forall|i: int| 0 <= i < rs.len() ==> record_listed(v, #[trigger] rs[i]))
    &&& (forall|k: Seq<char>|
        v.records.contains_key(k) ==> exists|i: int| 0 <= i < rs.len() && rs[i] == v.records[k])
}

/// Handle a listing request: always 200, the body a JSON array holding
/// exactly the registered records.
pub fn handle_list(reg: &Registry) -> (resp: Response)
    requires
        reg.wf(),
    ensures
        resp.status == 200,
        exists|rs: Seq<ModelRecordView>| listing_of(reg@, rs) && resp.body@ == json_records(rs),
{
    let snap = reg.snapshot();
    let body = models_json(&snap);
    proof {
        let rs = snap@.map_values(|r: ModelRecord| r@);
        assert forall|i: int| 0 <= i < rs.len() implies record_listed(reg@, #[trigger] rs[i]) by {
            assert(rs[i] == snap@[i]@);
        }
        assert forall|k: Seq<char>| reg@.records.contains_key(k) implies exists|i: int|
            0 <= i < rs.len() && rs[i] == reg@.records[k] by {
            let j = choose|j: int| 0 <= j < snap@.len() && snap@[j]@ == reg@.records[k];
            assert(rs[j] == reg@.records[k]);
        }
        assert(listing_of(reg@, rs));
    }
    Response { status: 200, body }
}

/// The path segments as plain character sequences.
pub open spec fn segs_view(segs: Seq<String>) -> Seq<Seq<char>> {
    segs.map_values(|s: String| s@)
}

/// A registration request: `POST /model_up/{encoded_id}`.
pub open spec fn is_register_req(method: Seq<char>, segs: Seq<Seq<char>>) -> bool {
    method == "POST"@ && segs.len() == 2 && segs[0] == "model_up"@
}

/// A listing request: `GET /list_models`.
pub open spec fn is_list_req(method: Seq<char>, segs: Seq<Seq<char>>) -> bool {
    method == "GET"@ && segs.len() == 1 && segs[0] == "list_models"@
}

/// Dispatch one request, given its method, its path split into segments,
/// and its body: registration and listing behave as their handlers say,
/// and any other request is answered 404 with the registry untouched.
pub fn route(reg: &mut Registry, method: &String, segments: &Vec<String>, body: &String) -> (resp:
    Response)
    requires
        old(reg).wf(),
    ensures
        final(reg).wf(),
        ({
            let m = method@;
            let segs = segs_view(segments@);
            &&& (is_register_req(m, segs) ==> {
                &&& resp.status == 200 || resp.status == 400
                &&& (resp.status == 200 <==> (percent_decoded(segs[1]) is Some && record_of_body(
                    body@,
                ) is Some))
                &&& (resp.status == 400 ==> resp.body@ == "Bad request"@ && final(reg)@ == old(
                    reg,
                )@)
                &&& (resp.status == 200 ==> resp.body@ == "Model registered successfully"@
                    && final(reg)@ == upsert_view(
                    old(reg)@,
                    percent_decoded(segs[1])->0,
                    record_of_body(body@)->0,
                ))
            })
            &&& (is_list_req(m, segs) ==> {
                &&& resp.status == 200
                &&& final(reg)@ == old(reg)@
                &&& exists|rs: Seq<ModelRecordView>|
                    listing_of(old(reg)@, rs) && resp.body@ == json_records(rs)
            })
            &&& (!is_register_req(m, segs) && !is_list_req(m, segs) ==> {
                &&& resp.status == 404
                &&& resp.body@ == "Unhandled route!"@
                &&& final(reg)@ == old(reg)@
            })
        }),
{
    let post = String::from_str("POST");
    let get = String::from_str("GET");
    let model_up = String::from_str("model_up");
    let list_models = String::from_str("list_models");
    if *method == post && segments.len() == 2 && segments[0] == model_up {
        proof {
            assert(segs_view(segments@)[1] == segments@[1]@);
        }
        handle_register(reg, &segments[1], body)
    } else if *method == get && segments.len() == 1 && segments[0] == list_models {
        handle_list(reg)
    } else {
        Response { status: 404, body: "Unhandled route!".to_owned() }
    }
}

} // verus!
