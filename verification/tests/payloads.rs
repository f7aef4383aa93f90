use dashboard_store::json::{default_data, normalize_data};
use serde_json::Value;

fn parse(text: &str) -> Value {
    serde_json::from_str(text).unwrap()
}

#[test]
fn the_default_payload_has_six_empty_arrays() {
    let expected = parse(
        r#"{"nodes": [], "edges": [], "nodeTypes": [], "groups": [], "vms": [], "domains": []}"#,
    );
    assert_eq!(default_data(), expected);
    let object = default_data();
    let members = object.as_object().unwrap();
    assert_eq!(members.len(), 6);
    for key in ["nodes", "edges", "nodeTypes", "groups", "vms", "domains"] {
        assert_eq!(members.get(key), Some(&Value::Array(Vec::new())), "{}", key);
    }
}

#[test]
fn an_empty_object_gains_the_six_keys() {
    assert_eq!(normalize_data(parse("{}")), default_data());
}

#[test]
fn what_is_no_object_gives_way_to_the_default() {
    for text in ["null", "true", "12", "1.5", r#""not-an-object""#, "[]", r#"[{"nodes": 1}]"#] {
        assert_eq!(normalize_data(parse(text)), default_data(), "{}", text);
    }
}

#[test]
fn members_that_are_there_stay_as_they_are() {
    let given = parse(r#"{"nodes": [1, 2], "extra": "x"}"#);
    let expected = parse(
        r#"{"nodes": [1, 2], "extra": "x", "edges": [], "nodeTypes": [], "groups": [],
            "vms": [], "domains": []}"#,
    );
    assert_eq!(normalize_data(given), expected);
}

#[test]
fn recognized_keys_keep_values_that_are_no_arrays() {
    let given = parse(
        r#"{"nodes": null, "edges": "e", "nodeTypes": {"a": 1}, "groups": 3, "vms": false,
            "domains": [[]]}"#,
    );
    assert_eq!(normalize_data(given.clone()), given);
}

#[test]
fn a_complete_payload_is_left_alone() {
    let given = parse(
        r#"{"nodes": [{"id": "n1"}], "edges": [{"from": "n1", "to": "n1"}], "nodeTypes": [],
            "groups": [], "vms": ["vm"], "domains": []}"#,
    );
    assert_eq!(normalize_data(given.clone()), given);
}

#[test]
fn keys_are_told_apart_by_case() {
    let given = parse(r#"{"Nodes": [1], "nodetypes": [2]}"#);
    let expected = parse(
        r#"{"Nodes": [1], "nodetypes": [2], "nodes": [], "edges": [], "nodeTypes": [],
            "groups": [], "vms": [], "domains": []}"#,
    );
    assert_eq!(normalize_data(given), expected);
}

#[test]
fn normalizing_twice_changes_nothing_more() {
    let once = normalize_data(parse(r#"{"vms": [1], "other": {"deep": [1, 2, 3]}}"#));
    assert_eq!(normalize_data(once.clone()), once);
}
