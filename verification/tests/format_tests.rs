use central::json::models_json;
use central::monitor::{health_url, info_url, summary_lines};
use central::parse::bootstrap_record;
use central::record::ModelRecord;
use central::text::split_host_port;

fn record(name: &str, address: &str, owner: &str, is_quantized: bool) -> ModelRecord {
    ModelRecord {
        name: name.to_string(),
        address: address.to_string(),
        owner: owner.to_string(),
        is_quantized,
    }
}

#[test]
fn listing_serialization() {
    let records = vec![
        record("m1", "10.0.0.1:9000", "u1", false),
        record("m2", "10.0.0.2:9001", "u2", true),
    ];
    assert_eq!(
        models_json(&records),
        "[{\"name\":\"m1\",\"address\":\"10.0.0.1:9000\",\"owner\":\"u1\",\"is_quantized\":false},\
{\"name\":\"m2\",\"address\":\"10.0.0.2:9001\",\"owner\":\"u2\",\"is_quantized\":true}]"
    );
    // serde_json reads the listing back as the same values.
    let parsed: serde_json::Value = serde_json::from_str(&models_json(&records)).unwrap();
    assert_eq!(parsed[0]["name"], serde_json::Value::String("m1".to_string()));
    assert_eq!(parsed[1]["is_quantized"], serde_json::Value::Bool(true));
    assert_eq!(parsed.as_array().unwrap().len(), 2);
}

#[test]
fn string_escaping_in_listing() {
    let records = vec![record("a\"b\\c", "h:1\n", "\u{1}", false)];
    assert_eq!(
        models_json(&records),
        "[{\"name\":\"a\\\"b\\\\c\",\"address\":\"h:1\\n\",\"owner\":\"\\u0001\",\"is_quantized\":false}]"
    );
    let round_trip: serde_json::Value = serde_json::from_str(&models_json(&records)).unwrap();
    assert_eq!(round_trip[0]["name"], serde_json::Value::String("a\"b\\c".to_string()));
}

#[test]
fn host_port_splitting() {
    assert_eq!(
        split_host_port("10.0.0.1:9000"),
        Some(("10.0.0.1".to_string(), "9000".to_string()))
    );
    assert_eq!(split_host_port("a:b:c"), Some(("a".to_string(), "b".to_string())));
    assert_eq!(split_host_port("nocolon"), None);
    assert_eq!(split_host_port(":9000"), Some(("".to_string(), "9000".to_string())));
}

#[test]
fn probe_urls() {
    assert_eq!(health_url("10.0.0.1:9000"), "http://10.0.0.1:9000/health");
    assert_eq!(info_url("10.0.0.1", "9000"), "http://10.0.0.1:9000/info");
}

#[test]
fn record_descriptions() {
    assert_eq!(
        record("m1", "h:1", "u1", false).describe(),
        "\tm1 - h:1 by u1"
    );
    assert_eq!(
        record("m2", "h:2", "u2", true).describe(),
        "\tm2 (quant) - h:2 by u2"
    );
}

#[test]
fn sweep_summary_layout() {
    let kept = vec![record("m1", "h:1", "u1", false)];
    let dropped = vec![record("m2", "h:2", "u2", true)];
    let lines = summary_lines(&"2020-01-01 00:00:00".to_string(), &kept, &dropped);
    assert_eq!(
        lines,
        vec![
            "------------------".to_string(),
            "Current time: 2020-01-01 00:00:00".to_string(),
            "Current Models:".to_string(),
            "\tm1 - h:1 by u1".to_string(),
            "Dropped Models:".to_string(),
            "\tm2 (quant) - h:2 by u2".to_string(),
        ]
    );
}

#[test]
fn bootstrap_record_from_self_description() {
    let body = "{\"model_id\":\"bigscience/bloom\",\"model_dtype\":\"float16\",\"version\":\"1\"}";
    let rec = bootstrap_record(body, "10.0.0.5", "8080", "operator").unwrap();
    assert_eq!(rec.name, "bigscience/bloom");
    assert_eq!(rec.address, "10.0.0.5:8080");
    assert_eq!(rec.owner, "operator");
    assert!(!rec.is_quantized);

    assert!(bootstrap_record("{\"version\":\"1\"}", "h", "1", "u").is_none());
    assert!(bootstrap_record("not json", "h", "1", "u").is_none());
    assert!(bootstrap_record("{\"model_id\":7}", "h", "1", "u").is_none());
}
