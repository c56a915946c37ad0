// Values of the types generated for the schema below, written as the JSON that
// serde gives them, checked against that schema.
use schemask::json::{JsonNumber, JsonValue};
use schemask::strmap::StrMap;
use schemask::v1::{Maskoid, MaskoidField, SchemaskV1};

fn test_schema() -> SchemaskV1 {
    let mut bindings = StrMap::new();
    bindings.insert("Label".to_string(), Maskoid::string());
    bindings.insert("Active".to_string(), Maskoid::bool());
    bindings.insert("Count".to_string(), Maskoid::int_());
    bindings.insert("Ratio".to_string(), Maskoid::float());
    bindings.insert("Tags".to_string(), Maskoid::list(Maskoid::string()));
    bindings.insert(
        "Coords".to_string(),
        Maskoid::tuple(vec![MaskoidField::new(Maskoid::float()), MaskoidField::new(Maskoid::float())]),
    );
    bindings.insert("Meta".to_string(), Maskoid::string_map(Maskoid::string()));
    bindings.insert("Name".to_string(), Maskoid::ref_("Label"));
    bindings.insert("Player".to_string(), Maskoid::record({
        let mut f = StrMap::new();
        f.insert("name".to_string(), MaskoidField::new(Maskoid::ref_("Label")));
        f.insert("score".to_string(), MaskoidField::new(Maskoid::option(Maskoid::int_())));
        f.insert("tags".to_string(), MaskoidField::new(Maskoid::ref_("Tags")));
        f
    }));
    bindings.insert("Event".to_string(), Maskoid::tagged_union({
        let mut v = StrMap::new();
        v.insert("Join".to_string(), MaskoidField::new(Maskoid::ref_("Player")));
        v.insert("Leave".to_string(), MaskoidField::new(Maskoid::ref_("Label")));
        v
    }));
    SchemaskV1 {
        bindings: bindings,
        default: Some("Player".to_string()),
    }
}

fn check(root: &str, value: JsonValue) {
    schemask::validate(&test_schema().to_versioned(), Some(root.to_string()), &value).unwrap();
}

fn s(v: &str) -> JsonValue {
    JsonValue::String(v.to_string())
}

fn n(v: u64) -> JsonValue {
    JsonValue::Number(JsonNumber::PosInt(v))
}

fn x(v: f64) -> JsonValue {
    JsonValue::Number(JsonNumber::Float(v.to_bits()))
}

fn o(entries: Vec<(&str, JsonValue)>) -> JsonValue {
    let mut m = StrMap::new();
    for (k, v) in entries {
        m.insert(k.to_string(), v);
    }
    JsonValue::Object(m)
}

#[test]
fn test_label() {
    check("Label", s("hello"));
}

#[test]
fn test_active() {
    check("Active", JsonValue::Bool(true));
}

#[test]
fn test_count() {
    check("Count", n(42));
}

#[test]
fn test_ratio() {
    check("Ratio", x(3.14));
}

#[test]
fn test_name_ref() {
    check("Name", s("Alice"));
}

#[test]
fn test_tags() {
    check("Tags", JsonValue::Array(vec![s("alpha"), s("beta")]));
}

#[test]
fn test_coords() {
    check("Coords", JsonValue::Array(vec![x(1.0), x(2.5)]));
}

#[test]
fn test_meta() {
    check("Meta", o(vec![("env", s("prod"))]));
}

#[test]
fn test_player_no_score() {
    // `score: None` is skipped when serialising.
    check("Player", o(vec![("name", s("Alice")), ("tags", JsonValue::Array(vec![]))]));
}

#[test]
fn test_player_with_score() {
    check("Player", o(vec![("name", s("Alice")), ("score", n(99)), ("tags", JsonValue::Array(vec![s("chess")]))]));
}

#[test]
fn test_event_join() {
    check(
        "Event",
        o(vec![("Join", o(vec![("name", s("Bob")), ("score", n(10)), ("tags", JsonValue::Array(vec![]))]))]),
    );
}

#[test]
fn test_event_leave() {
    check("Event", o(vec![("Leave", s("Bob"))]));
}

#[test]
fn aliases_generated() {
    // The generated code aliases `Label`, `Count` and `Tags`.
    let code = schemask::generate_rust(&test_schema().to_versioned());
    assert!(code.contains("pub type Label = String;"));
    assert!(code.contains("pub type Count = i64;"));
    assert!(code.contains("pub type Tags = Vec<String>;"));
}
