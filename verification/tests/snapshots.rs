use basket_grid_engine::api::snapshots::{frozen, frozen_snapshot};
use serde_json::Value;

#[test]
fn a_saved_snapshot_is_shown_frozen() {
    let v = frozen_snapshot("{ \"running\": true, \"mid_price\": 12.5, \"log\": [\"a\"] }").unwrap();
    assert_eq!(v["frozen"], Value::Bool(true));
    assert_eq!(v["running"], Value::Bool(false));
    assert_eq!(v["mid_price"].as_f64(), Some(12.5));
    assert_eq!(v["log"][0].as_str(), Some("a"));
    assert_eq!(v.as_object().unwrap().len(), 4);
}

#[test]
fn a_corrupt_snapshot_is_none() {
    assert!(frozen_snapshot("{ \"running\": tr").is_none());
    assert!(frozen_snapshot("").is_none());
}

#[test]
fn only_objects_are_marked() {
    assert_eq!(frozen_snapshot("[1, 2]").unwrap().as_array().unwrap().len(), 2);
    assert_eq!(frozen(Value::Null), Value::Null);
}
