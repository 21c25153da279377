use ha_core::json::{Json, JsonObject};
use ha_core::json_text::{json_from_value, parse_json};

#[test]
fn json_text_is_read_by_layers() {
    let value = parse_json(
        r#"{"a":[null,true,-1.5e3,"xé",{"b":{}}],"c":12345678901234567890,"d":"first","d":"last"}"#,
    )
    .unwrap();
    assert!(value.is_object());
    let items = value.get("a").unwrap().as_array().unwrap();
    assert_eq!(items.len(), 5);
    assert!(matches!(items[0], Json::Null));
    assert!(matches!(items[1], Json::Bool(true)));
    assert!(matches!(&items[2], Json::Number(digits) if digits == "-1500.0"));
    assert_eq!(items[3].as_str(), Some("xé"));
    assert!(items[4].get("b").unwrap().is_object());
    assert!(matches!(
        value.get("c"),
        Some(Json::Number(digits)) if digits == "12345678901234567890"
    ));
    assert_eq!(value.get_str("d"), Some("last"));
    assert!(value.get("e").is_none());
    assert!(value.get_str("a").is_none());
}

#[test]
fn text_that_is_no_json_is_refused() {
    for text in ["", "{", "{} x", "'a'", "nul"] {
        assert!(parse_json(text).is_err());
    }
    let deep = "[".repeat(200) + &"]".repeat(200);
    assert!(parse_json(&deep).is_err());
}

#[test]
fn values_are_taken_over() {
    let value: serde_json::Value = serde_json::from_str(r#"{"a":[1,{"b":"c"}]}"#).unwrap();
    let json = json_from_value(value);
    let items = json.get("a").unwrap().as_array().unwrap();
    assert!(matches!(&items[0], Json::Number(digits) if digits == "1"));
    assert_eq!(items[1].get_str("b"), Some("c"));
}

#[test]
fn members_are_set_and_removed() {
    let mut object = JsonObject::new();
    object.insert("a", Json::text("1"));
    object.insert("b", Json::number("2"));
    object.insert("a", Json::text("3"));
    assert_eq!(object.get("a").unwrap().as_str(), Some("3"));
    assert_eq!(object.entries.len(), 2);
    object.remove("a");
    object.remove("c");
    assert!(object.get("a").is_none());
    assert!(matches!(object.get("b"), Some(Json::Number(digits)) if digits == "2"));
}

#[test]
fn a_later_entry_hides_an_earlier_one() {
    let mut object = JsonObject {
        entries: vec![
            ("a".to_string(), Json::Null),
            ("b".to_string(), Json::Null),
            ("a".to_string(), Json::text("x")),
        ],
    };
    assert_eq!(object.get("a").unwrap().as_str(), Some("x"));
    object.remove("a");
    assert!(object.get("a").is_none());
    assert!(object.get("b").is_some());
}

#[test]
fn arrays_of_text_keep_their_order() {
    let array = Json::text_array(&["a", "b"]);
    let items = array.as_array().unwrap();
    assert_eq!(items[0].as_str(), Some("a"));
    assert_eq!(items[1].as_str(), Some("b"));
    assert!(array.get("a").is_none());
    assert!(array.as_str().is_none());
}
