use sidekick::db::k8s_tekton::{
    condition_reason, condition_status, first_condition, json_get, json_str,
};
use sidekick::json::{from_value, integer, parse, text_list, Json};

fn text(s: &str) -> Json {
    Json::Text(s.to_string())
}

#[test]
fn a_text_is_read_all_the_way_down() {
    let doc = parse(r#"{"b": [1, -2, 2.5, 18446744073709551615], "a": {"x": null, "y": true}}"#);
    assert_eq!(
        doc,
        Ok(Json::Object(vec![
            (
                "a".to_string(),
                Json::Object(vec![
                    ("x".to_string(), Json::Null),
                    ("y".to_string(), Json::Bool(true)),
                ]),
            ),
            (
                "b".to_string(),
                Json::Array(vec![
                    Json::Number(Some(1)),
                    Json::Number(Some(-2)),
                    Json::Number(None),
                    Json::Number(None),
                ]),
            ),
        ]))
    );
}

#[test]
fn a_key_that_occurs_twice_keeps_its_last_value() {
    assert_eq!(
        parse(r#"{"k": 1, "k": "v"}"#),
        Ok(Json::Object(vec![("k".to_string(), text("v"))]))
    );
}

#[test]
fn what_is_no_document_is_an_error() {
    let expected = serde_json::from_str::<serde_json::Value>("{").unwrap_err().to_string();
    assert_eq!(parse("{"), Err(expected));
}

#[test]
fn a_value_is_taken_apart() {
    let value = serde_json::Value::Array(vec![
        serde_json::Value::String("s".to_string()),
        serde_json::Value::from(7),
    ]);
    assert_eq!(from_value(value), Json::Array(vec![text("s"), Json::Number(Some(7))]));
}

#[test]
fn copies_are_equal() {
    let doc = parse(r#"{"a": [1, "x", null, false, {"b": []}]}"#).unwrap();
    assert_eq!(doc.copy(), doc);
}

#[test]
fn paths_lead_into_objects_only() {
    let doc = parse(r#"{"spec": {"ref": {"name": "n", "n": 3}, "list": ["a", 1, "b"]}}"#).unwrap();
    assert_eq!(json_get(&doc, &["spec", "ref", "name"]), Some(&text("n")));
    assert_eq!(json_get(&doc, &["spec", "list", "0"]), None);
    assert_eq!(json_get(&doc, &[]), Some(&doc));
    assert_eq!(json_str(&doc, &["spec", "ref", "name"]), Some("n".to_string()));
    assert_eq!(json_str(&doc, &["spec", "ref", "n"]), None);
    assert_eq!(integer(json_get(&doc, &["spec", "ref", "n"])), Some(3));
    assert_eq!(text_list(json_get(&doc, &["spec", "list"])), vec!["a", "b"]);
    assert_eq!(text_list(json_get(&doc, &["spec", "none"])), Vec::<String>::new());
}

#[test]
fn the_first_condition_is_read() {
    let doc = parse(
        r#"{"status": {"conditions": [
            {"status": "False", "reason": "Failed"},
            {"status": "True", "reason": "Other"}
        ]}}"#,
    )
    .unwrap();
    assert!(first_condition(&doc).is_some());
    assert_eq!(condition_status(&doc), Some("False".to_string()));
    assert_eq!(condition_reason(&doc), Some("Failed".to_string()));
    let none = parse(r#"{"status": {"conditions": []}}"#).unwrap();
    assert_eq!(condition_status(&none), None);
    assert_eq!(condition_reason(&none), None);
}
