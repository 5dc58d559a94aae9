use latex_extract::timing::{stage_start, StageTimings};

#[test]
fn test_time_returns_value() {
    let mut t = StageTimings::new();
    let val = t.time("add", || 2 + 2);
    assert_eq!(val, 4);
    assert_eq!(t.entries().len(), 1);
    assert_eq!(t.entries()[0].0, "add");
}

#[test]
fn test_to_json() {
    let mut t = StageTimings::new();
    t.time("x", || {});
    t.time("y", || {});
    let json = t.to_json();
    assert!(json.starts_with('{'));
    assert!(json.ends_with('}'));
    assert!(json.contains("\"x\":"));
    assert!(json.contains("\"y\":"));
}

#[test]
fn test_empty() {
    let t = StageTimings::new();
    assert_eq!(t.total_us(), 0);
    assert_eq!(t.to_json(), "{}");
}

#[test]
fn record_appends_named_stage() {
    let mut t = StageTimings::new();
    let start = stage_start();
    t.record("parse", &start);
    t.record("emit", &start);
    let names: Vec<&str> = t.entries().iter().map(|e| e.0).collect();
    assert_eq!(names, vec!["parse", "emit"]);
    let sum: u64 = t.entries().iter().map(|e| e.1).sum();
    assert_eq!(t.total_us(), sum);
    assert_eq!(t.total_us_saturating(), sum);
    assert!(t.to_json().starts_with("{\"parse\":"));
}
