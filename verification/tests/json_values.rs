use serde_json::Value;
use vertex_ai_proxy::json::{Json, JsonObject};
use vertex_ai_proxy::json_text::{from_value, parse_text, to_text, to_value};

fn read(text: &str) -> Value {
    serde_json::from_str(text).unwrap()
}

const SAMPLE: &str = r#"{"a":[1,-2,2.5,true,false,null,"x\n\"é"],"b":{"c":{},"d":[]},"":""}"#;

#[test]
fn values_survive_both_conversions() {
    let value = read(SAMPLE);
    let json = from_value(value.clone());
    assert_eq!(to_value(&json), value);
    assert_eq!(to_value(&json.clone()), value);
    for text in ["null", "true", "0", "18446744073709551615", "-1", "1e300", "\"\"", "[]", "{}"] {
        assert_eq!(to_value(&from_value(read(text))), read(text));
    }
}

#[test]
fn text_is_compact_with_sorted_keys() {
    let object = JsonObject::new().with("b", Json::string("2")).with("a", Json::Array(vec![
        Json::Null,
        Json::Bool(true),
        Json::string("\"q\"\n"),
    ]));
    assert_eq!(to_text(&Json::Object(object)), r#"{"a":[null,true,"\"q\"\n"],"b":"2"}"#);
    assert_eq!(to_text(&Json::string("é")), "\"é\"");
}

#[test]
fn text_is_parsed_or_refused() {
    assert_eq!(to_value(&parse_text(SAMPLE).unwrap()), read(SAMPLE));
    assert_eq!(to_text(&parse_text(" { \"k\" : [ 1 , 2 ] } ").unwrap()), r#"{"k":[1,2]}"#);
    assert!(parse_text("").is_none());
    assert!(parse_text("{").is_none());
    assert!(parse_text("{} x").is_none());
    assert!(parse_text("nul").is_none());
    let twice = parse_text(r#"{"k":1,"k":2}"#).unwrap();
    assert_eq!(to_text(&twice), r#"{"k":2}"#);
}

#[test]
fn written_values_read_back() {
    let json = parse_text(SAMPLE).unwrap();
    let again = parse_text(&to_text(&json)).unwrap();
    assert_eq!(to_value(&again), to_value(&json));
}

#[test]
fn later_entries_shadow_earlier_ones() {
    let object = JsonObject::new().with("k", Json::string("old")).with("k", Json::string("new"));
    assert_eq!(object.get("k").unwrap().as_str(), Some("new"));
    assert_eq!(to_text(&Json::Object(object)), r#"{"k":"new"}"#);
    let object = JsonObject::new()
        .with("a", Json::string("1"))
        .with("k", Json::string("old"))
        .with("b", Json::string("2"))
        .with("k", Json::string("newer"))
        .with("a", Json::Null)
        .with("k", Json::string("newest"));
    assert_eq!(to_text(&Json::Object(object)), r#"{"a":null,"b":"2","k":"newest"}"#);
}

#[test]
fn members_are_looked_up() {
    let json = parse_text(r#"{"s":"text","n":1,"b":true,"f":false,"z":null}"#).unwrap();
    assert_eq!(json.get_str("s"), Some("text"));
    assert_eq!(json.get_str("n"), None);
    assert_eq!(json.get_str("missing"), None);
    assert!(json.get("z").is_some());
    assert!(json.get("missing").is_none());
    assert_eq!(json.get("b").unwrap().as_bool(), Some(true));
    assert_eq!(json.get("f").unwrap().as_bool(), Some(false));
    assert_eq!(json.get("s").unwrap().as_bool(), None);
    assert!(json.has_text("s", "text"));
    assert!(!json.has_text("s", "other"));
    assert!(!json.has_text("n", "1"));
    assert_eq!(json.get_str_or_empty("s"), "text");
    assert_eq!(json.get_str_or_empty("missing"), "");
    assert!(Json::string("s").get("s").is_none());
    assert!(Json::Array(Vec::new()).get("s").is_none());
}
