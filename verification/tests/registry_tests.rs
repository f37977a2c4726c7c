use central::record::ModelRecord;
use central::registry::Registry;

fn record(name: &str, address: &str, owner: &str, is_quantized: bool) -> ModelRecord {
    ModelRecord {
        name: name.to_string(),
        address: address.to_string(),
        owner: owner.to_string(),
        is_quantized,
    }
}

#[test]
fn reregister_replaces_record() {
    let mut reg = Registry::new();
    reg.upsert("alice".to_string(), record("m1", "10.0.0.1:9000", "u1", false));
    reg.upsert("alice".to_string(), record("m2", "10.0.0.2:9001", "u2", true));
    let snap = reg.snapshot();
    assert_eq!(snap.len(), 1);
    assert_eq!(snap[0], record("m2", "10.0.0.2:9001", "u2", true));
}

#[test]
fn eviction_after_threshold_failures() {
    let mut reg = Registry::new();
    let id = "alice".to_string();
    reg.upsert(id.clone(), record("m1", "10.0.0.1:9000", "u1", false));
    assert!(reg.probe_failed(&id, 3).is_none());
    assert!(reg.probe_failed(&id, 3).is_none());
    assert!(reg.contains_id(&id));
    let dropped = reg.probe_failed(&id, 3);
    assert_eq!(dropped, Some(record("m1", "10.0.0.1:9000", "u1", false)));
    assert!(!reg.contains_id(&id));
    assert_eq!(reg.snapshot().len(), 0);
}

#[test]
fn fewer_failures_keep_record() {
    let mut reg = Registry::new();
    let id = "alice".to_string();
    reg.upsert(id.clone(), record("m1", "10.0.0.1:9000", "u1", false));
    assert!(reg.probe_failed(&id, 3).is_none());
    assert!(reg.probe_failed(&id, 3).is_none());
    assert!(reg.contains_id(&id));
    assert_eq!(reg.failure_count(&id), Some(2));
    let snap = reg.snapshot();
    assert_eq!(snap.len(), 1);
    assert_eq!(snap[0], record("m1", "10.0.0.1:9000", "u1", false));
}

#[test]
fn success_resets_failure_counter() {
    let mut reg = Registry::new();
    let id = "alice".to_string();
    reg.upsert(id.clone(), record("m1", "10.0.0.1:9000", "u1", false));
    assert!(reg.probe_failed(&id, 3).is_none());
    assert!(reg.probe_failed(&id, 3).is_none());
    reg.probe_succeeded(&id);
    assert_eq!(reg.failure_count(&id), Some(0));
    assert!(reg.probe_failed(&id, 3).is_none());
    assert!(reg.probe_failed(&id, 3).is_none());
    assert!(reg.contains_id(&id));
    assert_eq!(reg.snapshot().len(), 1);
}

#[test]
fn listing_includes_fresh_registration() {
    let mut reg = Registry::new();
    reg.upsert("alice".to_string(), record("m1", "10.0.0.1:9000", "u1", false));
    let snap = reg.snapshot();
    assert!(snap.contains(&record("m1", "10.0.0.1:9000", "u1", false)));
}

#[test]
fn empty_registry_lists_nothing() {
    let reg = Registry::new();
    assert_eq!(reg.snapshot().len(), 0);
}

#[test]
fn batch_sweep_applies_all_outcomes() {
    let mut reg = Registry::new();
    reg.upsert("a".to_string(), record("ma", "h1:1", "u", false));
    reg.upsert("b".to_string(), record("mb", "h2:2", "u", false));
    reg.upsert("c".to_string(), record("mc", "h3:3", "u", false));
    let outcomes = vec![
        ("a".to_string(), false),
        ("b".to_string(), true),
        ("c".to_string(), false),
        ("ghost".to_string(), false),
    ];
    let dropped = reg.apply_probe_results(&outcomes, 1);
    assert_eq!(dropped.len(), 2);
    assert!(dropped.contains(&record("ma", "h1:1", "u", false)));
    assert!(dropped.contains(&record("mc", "h3:3", "u", false)));
    assert!(reg.contains_id(&"b".to_string()));
    assert_eq!(reg.snapshot().len(), 1);
}

#[test]
fn batch_sweep_respects_threshold() {
    let mut reg = Registry::new();
    reg.upsert("a".to_string(), record("ma", "h1:1", "u", false));
    let outcomes = vec![("a".to_string(), false)];
    assert_eq!(reg.apply_probe_results(&outcomes, 2).len(), 0);
    assert!(reg.contains_id(&"a".to_string()));
    let dropped = reg.apply_probe_results(&outcomes, 2);
    assert_eq!(dropped.len(), 1);
    assert!(!reg.contains_id(&"a".to_string()));
}

#[test]
fn failure_count_absent_identifier() {
    let reg = Registry::new();
    assert_eq!(reg.failure_count(&"nobody".to_string()), None);
    let mut reg2 = Registry::new();
    assert!(reg2.probe_failed(&"nobody".to_string(), 3).is_none());
    reg2.probe_succeeded(&"nobody".to_string());
    assert_eq!(reg2.snapshot().len(), 0);
}
