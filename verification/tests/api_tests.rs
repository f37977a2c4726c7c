use central::api::{handle_list, handle_register, route};
use central::record::ModelRecord;
use central::registry::Registry;

fn segs(parts: &[&str]) -> Vec<String> {
    parts.iter().map(|s| s.to_string()).collect()
}

const ALICE_BODY: &str =
    "{\"name\":\"m1\",\"address\":\"10.0.0.1:9000\",\"owner\":\"u1\",\"is_quantized\":false}";

#[test]
fn register_then_list_scenario() {
    let mut reg = Registry::new();
    let resp = route(
        &mut reg,
        &"POST".to_string(),
        &segs(&["model_up", "alice"]),
        &ALICE_BODY.to_string(),
    );
    assert_eq!(resp.status, 200);
    assert_eq!(resp.body, "Model registered successfully");

    let listing = route(&mut reg, &"GET".to_string(), &segs(&["list_models"]), &String::new());
    assert_eq!(listing.status, 200);
    assert_eq!(
        listing.body,
        "[{\"name\":\"m1\",\"address\":\"10.0.0.1:9000\",\"owner\":\"u1\",\"is_quantized\":false}]"
    );

    // Three consecutive sweep rounds in which the backend is unreachable
    // reach the threshold and evict it.
    let outcomes = vec![("alice".to_string(), false)];
    for _ in 0..3 {
        reg.apply_probe_results(&outcomes, 3);
    }
    let after = route(&mut reg, &"GET".to_string(), &segs(&["list_models"]), &String::new());
    assert_eq!(after.status, 200);
    assert_eq!(after.body, "[]");
}

#[test]
fn unmatched_route_is_404_and_harmless() {
    let mut reg = Registry::new();
    route(
        &mut reg,
        &"POST".to_string(),
        &segs(&["model_up", "alice"]),
        &ALICE_BODY.to_string(),
    );
    let resp = route(&mut reg, &"GET".to_string(), &segs(&["bogus"]), &String::new());
    assert_eq!(resp.status, 404);
    assert_eq!(resp.body, "Unhandled route!");
    assert_eq!(reg.snapshot().len(), 1);

    let wrong_method = route(
        &mut reg,
        &"GET".to_string(),
        &segs(&["model_up", "alice"]),
        &String::new(),
    );
    assert_eq!(wrong_method.status, 404);
    assert_eq!(reg.snapshot().len(), 1);
}

#[test]
fn malformed_body_is_400_and_harmless() {
    let mut reg = Registry::new();
    let resp = handle_register(&mut reg, &"alice".to_string(), &"not json".to_string());
    assert_eq!(resp.status, 400);
    assert_eq!(resp.body, "Bad request");
    assert_eq!(reg.snapshot().len(), 0);

    let missing_field = handle_register(
        &mut reg,
        &"alice".to_string(),
        &"{\"name\":\"m1\",\"address\":\"a:1\",\"owner\":\"u1\"}".to_string(),
    );
    assert_eq!(missing_field.status, 400);
    assert_eq!(reg.snapshot().len(), 0);

    let wrong_type = handle_register(
        &mut reg,
        &"alice".to_string(),
        &"{\"name\":\"m1\",\"address\":\"a:1\",\"owner\":\"u1\",\"is_quantized\":\"yes\"}"
            .to_string(),
    );
    assert_eq!(wrong_type.status, 400);
    assert_eq!(reg.snapshot().len(), 0);
}

#[test]
fn listing_empty_registry_is_ok() {
    let reg = Registry::new();
    let resp = handle_list(&reg);
    assert_eq!(resp.status, 200);
    assert_eq!(resp.body, "[]");
}

#[test]
fn identifier_is_percent_decoded() {
    let mut reg = Registry::new();
    let resp = handle_register(
        &mut reg,
        &"hello%20world".to_string(),
        &ALICE_BODY.to_string(),
    );
    assert_eq!(resp.status, 200);
    assert!(reg.contains_id(&"hello world".to_string()));
    assert!(!reg.contains_id(&"hello%20world".to_string()));
}

#[test]
fn undecodable_identifier_is_400() {
    let mut reg = Registry::new();
    // %ff is not valid UTF-8 once decoded.
    let resp = handle_register(&mut reg, &"%ff".to_string(), &ALICE_BODY.to_string());
    assert_eq!(resp.status, 400);
    assert_eq!(reg.snapshot().len(), 0);
}

#[test]
fn registered_record_carries_body_fields() {
    let mut reg = Registry::new();
    let body = "{\"owner\":\"o2\",\"is_quantized\":true,\"name\":\"n2\",\"address\":\"h:2\",\"extra\":7}";
    let resp = handle_register(&mut reg, &"m".to_string(), &body.to_string());
    assert_eq!(resp.status, 200);
    let snap = reg.snapshot();
    assert_eq!(snap.len(), 1);
    let expected = ModelRecord {
        name: "n2".to_string(),
        address: "h:2".to_string(),
        owner: "o2".to_string(),
        is_quantized: true,
    };
    assert_eq!(snap[0], expected);
}
