use schemask::json::{JsonNumber, JsonValue};
use schemask::strmap::StrMap;
use schemask::v1::{Maskoid, MaskoidField, PathSegment, SchemaskV1};
use schemask::validate::validate;

fn jnull() -> JsonValue {
    JsonValue::Null
}

fn jbool(b: bool) -> JsonValue {
    JsonValue::Bool(b)
}

fn jint(i: i64) -> JsonValue {
    if i >= 0 {
        JsonValue::Number(JsonNumber::PosInt(i as u64))
    } else {
        JsonValue::Number(JsonNumber::NegInt(i))
    }
}

fn jfloat(f: f64) -> JsonValue {
    JsonValue::Number(JsonNumber::Float(f.to_bits()))
}

fn jstr(s: &str) -> JsonValue {
    JsonValue::String(s.to_string())
}

fn jarr(items: Vec<JsonValue>) -> JsonValue {
    JsonValue::Array(items)
}

fn jobj(entries: Vec<(&str, JsonValue)>) -> JsonValue {
    let mut m = StrMap::new();
    for (k, v) in entries {
        m.insert(k.to_string(), v);
    }
    JsonValue::Object(m)
}

fn fields(entries: Vec<(&str, MaskoidField)>) -> StrMap<MaskoidField> {
    let mut m = StrMap::new();
    for (k, v) in entries {
        m.insert(k.to_string(), v);
    }
    m
}

fn schema(maskoid: Maskoid) -> SchemaskV1 {
    let mut bindings = StrMap::new();
    bindings.insert("root".to_string(), maskoid);
    SchemaskV1 {
        bindings: bindings,
        default: Some("root".to_string()),
    }
}

fn fail(maskoid: Maskoid, data: JsonValue, expected_path: &[PathSegment]) {
    let err = validate(&schema(maskoid), None, &data).expect_err("expected failure");
    assert_eq!(err.errors.len(), 1, "expected exactly one error, got: {:?}", err.errors);
    assert_eq!(err.errors[0].path, expected_path, "wrong error path");
}

fn pass(maskoid: Maskoid, data: JsonValue) {
    let s = schema(maskoid);
    assert!(validate(&s, None, &data).is_ok(), "expected pass");
}

#[test]
fn test_bool() {
    pass(Maskoid::bool(), jbool(true));
    fail(Maskoid::bool(), jint(42), &[]);
}

#[test]
fn test_const_string() {
    pass(Maskoid::const_string("hello"), jstr("hello"));
    fail(Maskoid::const_string("hello"), jstr("world"), &[]);
}

#[test]
fn test_float() {
    pass(Maskoid::float(), jfloat(3.14));
    fail(Maskoid::float(), jstr("hello"), &[]);
}

#[test]
fn test_int() {
    pass(Maskoid::int_(), jint(42));
    fail(Maskoid::int_(), jstr("hello"), &[]);
}

#[test]
fn test_list() {
    pass(Maskoid::list(Maskoid::string()), jarr(vec![jstr("a"), jstr("b"), jstr("c")]));
    fail(
        Maskoid::list(Maskoid::string()),
        jarr(vec![jstr("a"), jint(42), jstr("c")]),
        &[PathSegment::Index(1)],
    );
}

#[test]
fn test_nested_path_index_then_key() {
    let f = fields(vec![("x", MaskoidField::new(Maskoid::int_()))]);
    fail(
        Maskoid::list(Maskoid::record(f)),
        jarr(vec![jobj(vec![("x", jint(1))]), jobj(vec![("x", jstr("bad"))])]),
        &[PathSegment::Index(1), PathSegment::Key("x".to_string())],
    );
}

#[test]
fn test_nested_path_key_then_index() {
    let f = fields(vec![("items", MaskoidField::new(Maskoid::list(Maskoid::int_())))]);
    fail(
        Maskoid::record(f),
        jobj(vec![("items", jarr(vec![jint(1), jint(2), jstr("bad")]))]),
        &[PathSegment::Key("items".to_string()), PathSegment::Index(2)],
    );
}

#[test]
fn test_no_root_no_default() {
    let s = SchemaskV1 {
        bindings: StrMap::new(),
        default: None,
    };
    let err = validate(&s, None, &jnull()).expect_err("expected failure");
    assert_eq!(err.errors.len(), 1);
    assert_eq!(err.errors[0].path, &[] as &[PathSegment]);
}

#[test]
fn test_null() {
    pass(Maskoid::null(), jnull());
    fail(Maskoid::null(), jstr("hello"), &[]);
}

#[test]
fn test_option() {
    pass(Maskoid::option(Maskoid::string()), jnull());
    pass(Maskoid::option(Maskoid::string()), jstr("hello"));
    fail(Maskoid::option(Maskoid::string()), jint(42), &[]);
}

#[test]
fn test_option_nested() {
    let m = || Maskoid::option(Maskoid::option(Maskoid::string()));
    pass(m(), jnull());
    pass(m(), jobj(vec![("element", jnull())]));
    pass(m(), jobj(vec![("element", jstr("hello"))]));
    fail(m(), jstr("hello"), &[]);
    fail(m(), jobj(vec![("element", jstr("hello")), ("extra", jstr("world"))]), &[]);
    fail(m(), jobj(vec![("other", jstr("hello"))]), &[]);
    fail(m(), jobj(vec![]), &[]);
}

#[test]
fn test_option_record_absent() {
    let f = || {
        fields(vec![
            ("name", MaskoidField::new(Maskoid::string())),
            ("nickname", MaskoidField::new(Maskoid::option(Maskoid::string()))),
        ])
    };
    pass(Maskoid::record(f()), jobj(vec![("name", jstr("Alice"))]));
    fail(
        Maskoid::record(f()),
        jobj(vec![("name", jstr("Alice")), ("nickname", jint(42))]),
        &[PathSegment::Key("nickname".to_string())],
    );
}

#[test]
fn test_record() {
    let f = || {
        fields(vec![
            ("name", MaskoidField::new(Maskoid::string())),
            ("age", MaskoidField::new(Maskoid::int_())),
        ])
    };
    pass(Maskoid::record(f()), jobj(vec![("name", jstr("Alice")), ("age", jint(30))]));
    fail(Maskoid::record(f()), jobj(vec![("name", jstr("Alice"))]), &[]);
    fail(
        Maskoid::record(f()),
        jobj(vec![("name", jstr("Alice")), ("age", jint(30)), ("extra", jstr("oops"))]),
        &[],
    );
}

#[test]
fn test_ref() {
    let mut bindings = StrMap::new();
    bindings.insert("main".to_string(), Maskoid::ref_("other"));
    bindings.insert("other".to_string(), Maskoid::string());
    let s = SchemaskV1 {
        bindings: bindings,
        default: Some("main".to_string()),
    };
    assert!(validate(&s, None, &jstr("hello")).is_ok());
    let err = validate(&s, None, &jint(42)).expect_err("expected failure");
    assert_eq!(err.errors.len(), 1);
    assert_eq!(err.errors[0].path, &[] as &[PathSegment]);
    fail(Maskoid::ref_("nonexistent"), jstr("hello"), &[]);
}

#[test]
fn test_set() {
    pass(Maskoid::set(Maskoid::int_()), jarr(vec![jint(1), jint(2), jint(3)]));
    fail(Maskoid::set(Maskoid::int_()), jarr(vec![jint(1), jstr("two"), jint(3)]), &[PathSegment::Index(1)]);
    fail(Maskoid::set(Maskoid::int_()), jarr(vec![jint(1), jint(2), jint(1)]), &[PathSegment::Index(2)]);
}

#[test]
fn test_string() {
    pass(Maskoid::string(), jstr("hello"));
    fail(Maskoid::string(), jint(42), &[]);
}

#[test]
fn test_string_map() {
    pass(Maskoid::string_map(Maskoid::int_()), jobj(vec![("a", jint(1)), ("b", jint(2))]));
    fail(
        Maskoid::string_map(Maskoid::int_()),
        jobj(vec![("a", jint(1)), ("b", jstr("two"))]),
        &[PathSegment::Key("b".to_string())],
    );
}

#[test]
fn test_tagged_union() {
    let v = || {
        fields(vec![
            ("name", MaskoidField::new(Maskoid::string())),
            ("age", MaskoidField::new(Maskoid::int_())),
        ])
    };
    pass(Maskoid::tagged_union(v()), jobj(vec![("name", jstr("Alice"))]));
    fail(Maskoid::tagged_union(v()), jobj(vec![("name", jint(42))]), &[PathSegment::Key("name".to_string())]);
    fail(Maskoid::tagged_union(v()), jobj(vec![("name", jstr("Alice")), ("age", jint(30))]), &[]);
    fail(Maskoid::tagged_union(v()), jobj(vec![]), &[]);
    fail(Maskoid::tagged_union(v()), jobj(vec![("unknown", jstr("Alice"))]), &[]);
}

#[test]
fn test_tuple() {
    let t = || vec![MaskoidField::new(Maskoid::string()), MaskoidField::new(Maskoid::int_())];
    pass(Maskoid::tuple(t()), jarr(vec![jstr("hello"), jint(42)]));
    fail(Maskoid::tuple(t()), jarr(vec![jstr("hello"), jstr("world")]), &[PathSegment::Index(1)]);
    fail(Maskoid::tuple(t()), jarr(vec![jstr("hello"), jint(42), jstr("extra")]), &[]);
}
