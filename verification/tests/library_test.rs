use schemask::json::{JsonNumber, JsonValue};
use schemask::maskoidy::Maskoidy;
use schemask::rename::RenameRule;
use schemask::strmap::StrMap;
use schemask::v1::{Invalid, Maskoid, MaskoidField, PathSegment, SchemaskV1, ValidationError};
use schemask::validate::{match_maskoid, validate};
use schemask::{generate_markdown, generate_rust, generate_typescript, Schemask};

fn sample() -> Schemask {
    let mut bindings = StrMap::new();
    bindings.insert("Label".to_string(), Maskoid::string());
    bindings.insert(
        "Pair".to_string(),
        Maskoid::tuple(vec![MaskoidField::new(Maskoid::int_()), MaskoidField::new(Maskoid::const_string("a\"b"))]),
    );
    bindings.insert(
        "Account".to_string(),
        Maskoid::record({
            let mut f = StrMap::new();
            f.insert(
                "displayName".to_string(),
                MaskoidField::new(Maskoid::option(Maskoid::string())).with_description("Shown | name"),
            );
            f.insert("type".to_string(), MaskoidField::new(Maskoid::ref_("Label")));
            f.insert("nested".to_string(), MaskoidField::new(Maskoid::option(Maskoid::option(Maskoid::int_()))));
            f
        })
        .with_description("An account"),
    );
    bindings.insert(
        "Event".to_string(),
        Maskoid::tagged_union({
            let mut v = StrMap::new();
            v.insert("user_left".to_string(), MaskoidField::new(Maskoid::string()));
            v.insert("ping".to_string(), MaskoidField::new(Maskoid::null()).with_description("No payload"));
            v
        }),
    );
    SchemaskV1 { bindings, default: None }.to_versioned()
}

fn js(s: &str) -> JsonValue {
    JsonValue::String(s.to_string())
}

fn ji(i: u64) -> JsonValue {
    JsonValue::Number(JsonNumber::PosInt(i))
}

fn jo(entries: Vec<(&str, JsonValue)>) -> JsonValue {
    let mut m = StrMap::new();
    for (k, v) in entries {
        m.insert(k.to_string(), v);
    }
    JsonValue::Object(m)
}

fn one_binding(m: Maskoid) -> SchemaskV1 {
    let mut bindings = StrMap::new();
    bindings.insert("root".to_string(), m);
    SchemaskV1 { bindings, default: Some("root".to_string()) }
}

fn messages(m: Maskoid, data: JsonValue) -> Vec<String> {
    match validate(&one_binding(m), None, &data) {
        Ok(()) => vec![],
        Err(e) => e.errors.iter().map(|e| e.render()).collect(),
    }
}

// ---------------------------------------------------------------- generators

#[test]
fn typescript_text_for_sample() {
    let ts = generate_typescript(&sample());
    let expected = "/** An account */\ntype Account = {\n  /** Shown | name */\n  displayName?: string | null;\n  nested?: { element: number | null } | null;\n  type: Label;\n};\n\ntype Event = /** No payload */ { ping: null }\n  | { user_left: string };\n\ntype Label = string;\n\ntype Pair = [number, \"a\\\"b\"];\n";
    assert_eq!(ts, expected);
}

#[test]
fn typescript_any_and_collections() {
    let mut bindings = StrMap::new();
    bindings.insert("A".to_string(), Maskoid::any());
    bindings.insert("S".to_string(), Maskoid::set(Maskoid::float()));
    bindings.insert("M".to_string(), Maskoid::string_map(Maskoid::bool()));
    let ts = generate_typescript(&SchemaskV1 { bindings, default: None }.to_versioned());
    assert_eq!(ts, "type A = any;\n\ntype M = Record<string, boolean>;\n\ntype S = Array<number>;\n");
}

#[test]
fn markdown_text_for_sample() {
    let md = generate_markdown(&sample());
    let expected = "## Account\n\nAn account\n\n| Field | Type | Description |\n|-------|------|-------------|\n| displayName | string \\| null | Shown \\| name |\n| nested | integer \\| null \\| null |  |\n| type | [label](#label) |  |\n\n## Event\n\n| Variant | Type | Description |\n|---------|------|-------------|\n| ping | \"ping\" | No payload |\n| user_left | string |  |\n\n## Label\n\nstring\n\n## Pair\n\n[integer, \"a\\\"b\"]\n\n";
    assert_eq!(md, expected);
}

#[test]
fn markdown_lowercases_reference_anchors() {
    let mut bindings = StrMap::new();
    bindings.insert("Name".to_string(), Maskoid::ref_("PlayerLabel"));
    let md = generate_markdown(&SchemaskV1 { bindings, default: None }.to_versioned());
    assert_eq!(md, "## Name\n\n[playerlabel](#playerlabel)\n\n");
}

#[test]
fn markdown_json_escapes_constant_strings() {
    let mut bindings = StrMap::new();
    bindings.insert("Tab".to_string(), Maskoid::const_string("a\tb\u{1}"));
    let md = generate_markdown(&SchemaskV1 { bindings, default: None }.to_versioned());
    assert_eq!(md, "## Tab\n\n\"a\\tb\\u0001\"\n\n");
}

#[test]
fn rust_text_for_sample() {
    let rs = generate_rust(&sample());
    let expected = "#[derive(::serde::Serialize, ::serde::Deserialize)]\npub struct AccountNestedWrapper {\n    pub element: Option<i64>,\n}\n\n#[doc = \"An account\"]\n#[derive(::serde::Serialize, ::serde::Deserialize)]\n#[serde(deny_unknown_fields)]\npub struct Account {\n    #[doc = \"Shown | name\"]\n    #[serde(rename = \"displayName\")]\n    #[serde(skip_serializing_if = \"Option::is_none\", default)]\n    pub display_name: Option<String>,\n    #[serde(skip_serializing_if = \"Option::is_none\", default)]\n    pub nested: Option<AccountNestedWrapper>,\n    pub r#type: Label,\n}\n\n#[derive(::serde::Serialize, ::serde::Deserialize)]\npub enum Event {\n    #[doc = \"No payload\"]\n    #[serde(rename = \"ping\")]\n    Ping(()),\n    #[serde(rename = \"user_left\")]\n    UserLeft(String),\n}\n\npub type Label = String;\npub type Pair = (i64, String);\n";
    assert_eq!(rs, expected);
}

#[test]
fn rust_source_is_formatted() {
    let Schemask::V1(v) = sample();
    let raw = schemask::gen_rust::rust_source_string(&v);
    let pretty = generate_rust(&sample());
    assert_ne!(raw, pretty);
    assert!(raw.contains("pub struct Account { "));
}

#[test]
fn formatting_failure_keeps_source() {
    let kept = schemask::gen_rust::formatted_or_source("x".to_string(), None);
    assert_eq!(kept, "x");
    let used = schemask::gen_rust::formatted_or_source("x".to_string(), Some("y".to_string()));
    assert_eq!(used, "y");
}

#[test]
fn rust_names() {
    assert_eq!(schemask::gen_rust::snake_case("displayName"), "display_name");
    assert_eq!(schemask::gen_rust::snake_case("avatar-url"), "avatar_url");
    assert_eq!(schemask::gen_rust::snake_case("HTTPServer2Go"), "httpserver2_go");
    assert_eq!(schemask::gen_rust::pascal_case("user_left"), "UserLeft");
    assert_eq!(schemask::gen_rust::pascal_case("élan-vital"), "ÉlanVital");
}

// ---------------------------------------------------------------- validation messages

#[test]
fn messages_for_scalars() {
    assert_eq!(messages(Maskoid::null(), ji(1)), ["(root): Expected null, got int"]);
    assert_eq!(messages(Maskoid::string(), JsonValue::Null), ["(root): Expected string, got null"]);
    assert_eq!(messages(Maskoid::bool(), js("x")), ["(root): Expected bool, got string"]);
    assert_eq!(
        messages(Maskoid::int_(), JsonValue::Number(JsonNumber::Float(1.5f64.to_bits()))),
        ["(root): Expected int, got float"]
    );
    assert_eq!(messages(Maskoid::float(), JsonValue::Array(vec![])), ["(root): Expected float, got array"]);
    assert_eq!(messages(Maskoid::any(), jo(vec![])), Vec::<String>::new());
    assert_eq!(
        messages(Maskoid::int_(), JsonValue::Number(JsonNumber::NegInt(-3))),
        Vec::<String>::new()
    );
}

#[test]
fn messages_quote_constant_strings() {
    assert_eq!(
        messages(Maskoid::const_string("hi"), js("say \"ho\"")),
        ["(root): Expected string \"hi\", got \"say \\\"ho\\\"\""]
    );
    assert_eq!(messages(Maskoid::const_string("hi"), ji(2)), ["(root): Expected string \"hi\", got int"]);
}

#[test]
fn messages_for_structures() {
    let rec = || {
        let mut f = StrMap::new();
        f.insert("a".to_string(), MaskoidField::new(Maskoid::int_()));
        Maskoid::record(f)
    };
    assert_eq!(
        messages(rec(), jo(vec![("b", ji(1))])),
        ["(root): Missing required field 'a'", "(root): Unexpected field 'b'"]
    );
    assert_eq!(messages(rec(), ji(1)), ["(root): Expected record (object), got int"]);
    assert_eq!(
        messages(Maskoid::tuple(vec![MaskoidField::new(Maskoid::int_())]), JsonValue::Array(vec![])),
        ["(root): Expected tuple of length 1, got length 0"]
    );
    assert_eq!(
        messages(Maskoid::set(Maskoid::int_()), JsonValue::Array(vec![ji(7), ji(7), ji(7)])),
        [
            "[1]: Duplicate element (also at index 0)",
            "[2]: Duplicate element (also at index 0)",
            "[2]: Duplicate element (also at index 1)"
        ]
    );
    assert_eq!(messages(Maskoid::list(Maskoid::int_()), js("x")), ["(root): Expected list (array), got string"]);
    assert_eq!(
        messages(Maskoid::string_map(Maskoid::int_()), JsonValue::Array(vec![])),
        ["(root): Expected string map (object), got array"]
    );
    assert_eq!(messages(Maskoid::ref_("gone"), ji(1)), ["(root): Ref to undefined binding 'gone'"]);
}

#[test]
fn messages_for_options_and_unions() {
    let nested = || Maskoid::option(Maskoid::option(Maskoid::int_()));
    assert_eq!(
        messages(nested(), jo(vec![("a", ji(1)), ("b", ji(2))])),
        ["(root): Expected nested option as {\"element\": ...}, got object with 2 keys"]
    );
    assert_eq!(
        messages(nested(), ji(1)),
        ["(root): Expected nested option as {\"element\": ...}, got int"]
    );
    assert_eq!(messages(nested(), jo(vec![("element", js("x"))])), [".element: Expected int, got string"]);
    let union = || {
        let mut v = StrMap::new();
        v.insert("b".to_string(), MaskoidField::new(Maskoid::int_()));
        v.insert("a".to_string(), MaskoidField::new(Maskoid::null()));
        Maskoid::tagged_union(v)
    };
    assert_eq!(messages(union(), js("a")), Vec::<String>::new());
    assert_eq!(
        messages(union(), js("b")),
        ["(root): Union variant 'b' carries a value, expected a single-key object"]
    );
    assert_eq!(
        messages(union(), js("c")),
        ["(root): Unknown union variant 'c', expected one of: a, b"]
    );
    assert_eq!(
        messages(union(), jo(vec![("c", ji(1))])),
        ["(root): Unknown union variant 'c', expected one of: a, b"]
    );
    assert_eq!(
        messages(union(), jo(vec![])),
        ["(root): Expected tagged union (single-key object), got object with 0 keys"]
    );
    assert_eq!(
        messages(union(), JsonValue::Bool(true)),
        ["(root): Expected tagged union (single-key object, or variant name for a valueless variant), got bool"]
    );
    assert_eq!(messages(union(), jo(vec![("b", js("x"))])), [".b: Expected int, got string"]);
}

#[test]
fn validate_root_selection() {
    let s = one_binding(Maskoid::int_());
    let e = validate(&s, Some("missing".to_string()), &ji(1)).unwrap_err();
    assert_eq!(e.errors.len(), 1);
    assert_eq!(e.errors[0].render(), "(root): Binding 'missing' not found in schema");
    assert!(validate(&s, Some("root".to_string()), &ji(1)).is_ok());
    let none = SchemaskV1 { bindings: StrMap::new(), default: None };
    let e = validate(&none, None, &ji(1)).unwrap_err();
    assert_eq!(e.errors[0].message, "No root specified and schema has no default binding");
}

#[test]
fn match_maskoid_appends_and_restores_path() {
    let s = one_binding(Maskoid::any());
    let mut path = vec![PathSegment::Key("outer".to_string())];
    let mut errors = vec![];
    let m = Maskoid::list(Maskoid::int_());
    match_maskoid(&s, &m, &JsonValue::Array(vec![ji(1), js("x")]), &mut path, &mut errors);
    assert_eq!(path, vec![PathSegment::Key("outer".to_string())]);
    assert_eq!(errors.len(), 1);
    assert_eq!(errors[0].path, vec![PathSegment::Key("outer".to_string()), PathSegment::Index(1)]);
    assert_eq!(errors[0].render(), ".outer[1]: Expected int, got string");
}

#[test]
fn invalid_renders_one_error_per_line() {
    let inv = Invalid {
        errors: vec![
            ValidationError { message: "first".to_string(), path: vec![] },
            ValidationError { message: "second".to_string(), path: vec![PathSegment::Index(12), PathSegment::Key("k".to_string())] },
        ],
    };
    assert_eq!(inv.render(), "(root): first\n[12].k: second");
    assert_eq!(PathSegment::Index(305).render(), "[305]");
    assert_eq!(PathSegment::Key("x".to_string()).render(), ".x");
}

// ---------------------------------------------------------------- laws on concrete values

#[test]
fn any_accepts_every_kind() {
    for v in [JsonValue::Null, JsonValue::Bool(false), ji(3), js("s"), JsonValue::Array(vec![ji(1)]), jo(vec![("k", ji(1))])] {
        assert!(validate(&one_binding(Maskoid::any()), None, &v).is_ok());
    }
}

#[test]
fn option_is_transparent_for_non_null() {
    assert_eq!(messages(Maskoid::option(Maskoid::int_()), js("x")), messages(Maskoid::int_(), js("x")));
    assert!(messages(Maskoid::option(Maskoid::int_()), JsonValue::Null).is_empty());
}

#[test]
fn ref_follows_binding() {
    let mut bindings = StrMap::new();
    bindings.insert("a".to_string(), Maskoid::ref_("b"));
    bindings.insert("b".to_string(), Maskoid::bool());
    let s = SchemaskV1 { bindings, default: Some("a".to_string()) };
    let e = validate(&s, None, &ji(1)).unwrap_err();
    assert_eq!(e.errors[0].render(), "(root): Expected bool, got int");
}

#[test]
fn record_options_may_be_omitted() {
    let mut f = StrMap::new();
    f.insert("x".to_string(), MaskoidField::new(Maskoid::option(Maskoid::int_())));
    f.insert("y".to_string(), MaskoidField::new(Maskoid::option(Maskoid::string())));
    assert!(messages(Maskoid::record(f), jo(vec![])).is_empty());
}

#[test]
fn set_duplicates_of_objects() {
    let a = || jo(vec![("k", ji(1)), ("j", js("v"))]);
    let e = messages(Maskoid::set(Maskoid::any()), JsonValue::Array(vec![a(), a()]));
    assert_eq!(e, ["[1]: Duplicate element (also at index 0)"]);
    let e = messages(
        Maskoid::set(Maskoid::any()),
        JsonValue::Array(vec![ji(1), JsonValue::Number(JsonNumber::Float(1.0f64.to_bits()))]),
    );
    assert!(e.is_empty());
}

// ---------------------------------------------------------------- maps and builders

#[test]
fn strmap_keeps_keys_sorted_and_replaces() {
    let mut m = StrMap::new();
    assert_eq!(m.insert("b".to_string(), 2), None);
    assert_eq!(m.insert("a".to_string(), 1), None);
    assert_eq!(m.insert("c".to_string(), 3), None);
    assert_eq!(m.insert("b".to_string(), 20), Some(2));
    assert_eq!(m.keys(), ["a", "b", "c"]);
    assert_eq!(m.get("b"), Some(&20));
    assert_eq!(m.get("z"), None);
    assert!(m.contains_key("a"));
    assert_eq!(m.len(), 3);
}

#[test]
fn descriptions_read_back() {
    let t = Maskoid::tuple(vec![]).with_description("pair");
    assert_eq!(t.description(), Some("pair"));
    let s = Maskoid::string().with_description("ignored");
    assert_eq!(s.description(), None);
    let f = MaskoidField::new(Maskoid::int_()).with_description("count");
    assert_eq!(f.description.as_deref(), Some("count"));
}

#[test]
fn schemask_schema_describes_the_language() {
    let Schemask::V1(s) = Schemask::schemask();
    assert_eq!(s.default.as_deref(), Some("Schemask"));
    assert_eq!(
        s.bindings.keys(),
        ["Maskoid", "MaskoidField", "MaskoidRecord", "MaskoidTaggedUnion", "MaskoidTuple", "Schemask", "SchemaskV1"]
    );
    let Maskoid::TaggedUnion(u) = s.bindings.get("Maskoid").unwrap() else {
        panic!()
    };
    assert_eq!(u.variants.len(), 15);
    assert!(matches!(&u.variants.get("list").unwrap().maskoid, Maskoid::Ref(n) if n == "Maskoid"));
}

#[test]
fn rename_rules() {
    assert_eq!(RenameRule::named("camelCase").apply_to_field("display_name"), "displayName");
    assert_eq!(RenameRule::named("PascalCase").apply_to_field("display_name"), "DisplayName");
    assert_eq!(RenameRule::named("SCREAMING-KEBAB-CASE").apply_to_field("a_b"), "A-B");
    assert_eq!(RenameRule::named("kebab-case").apply_to_variant("UserLeft"), "user-left");
    assert_eq!(RenameRule::named("SCREAMING_SNAKE_CASE").apply_to_variant("UserLeft"), "USER_LEFT");
    assert_eq!(RenameRule::named("lowercase").apply_to_variant("UserLeft"), "userleft");
    assert_eq!(RenameRule::named("camelCase").apply_to_variant("UserLeft"), "userLeft");
    assert_eq!(RenameRule::named("nonsense"), RenameRule::Unchanged);
    assert_eq!(RenameRule::named("UPPERCASE").apply_to_field("a_b"), "A_B");
}

fn ja(items: Vec<JsonValue>) -> JsonValue {
    JsonValue::Array(items)
}

fn accepts(m: Maskoid, data: JsonValue) -> bool {
    messages(m, data).is_empty()
}

#[test]
fn string_map_checks_every_value() {
    let m = || Maskoid::string_map(Maskoid::int_());
    assert!(accepts(m(), jo(vec![("a", ji(1)), ("b", ji(2))])));
    assert!(accepts(m(), jo(vec![])));
    assert_eq!(messages(m(), jo(vec![("a", ji(1)), ("b", js("x"))])), vec![".b: Expected int, got string"]);
}

#[test]
fn tuple_checks_each_position() {
    let m = || Maskoid::tuple(vec![MaskoidField::new(Maskoid::int_()), MaskoidField::new(Maskoid::string())]);
    assert!(accepts(m(), ja(vec![ji(1), js("a")])));
    assert_eq!(messages(m(), ja(vec![js("a"), ji(1)])), vec!["[0]: Expected int, got string", "[1]: Expected string, got int"]);
}

#[test]
fn union_single_key_names_the_variant() {
    let m = || {
        let mut v = StrMap::new();
        v.insert("n".to_string(), MaskoidField::new(Maskoid::int_()));
        Maskoid::tagged_union(v)
    };
    assert!(accepts(m(), jo(vec![("n", ji(3))])));
    assert!(!accepts(m(), jo(vec![("n", js("3"))])));
    assert!(!accepts(m(), jo(vec![("m", ji(3))])));
}

#[test]
fn record_fieldwise() {
    let m = || {
        let mut f = StrMap::new();
        f.insert("a".to_string(), MaskoidField::new(Maskoid::int_()));
        f.insert("b".to_string(), MaskoidField::new(Maskoid::option(Maskoid::string())));
        Maskoid::record(f)
    };
    assert!(accepts(m(), jo(vec![("a", ji(1))])));
    assert!(accepts(m(), jo(vec![("a", ji(1)), ("b", js("x"))])));
    assert!(!accepts(m(), jo(vec![("a", ji(1)), ("b", ji(2))])));
    assert!(!accepts(m(), jo(vec![("a", ji(1)), ("c", ji(2))])));
    assert!(!accepts(m(), jo(vec![("b", js("x"))])));
}

#[test]
fn set_elementwise_and_order_free() {
    let m = || Maskoid::set(Maskoid::int_());
    assert!(accepts(m(), ja(vec![ji(1), ji(2), ji(3)])));
    assert!(accepts(m(), ja(vec![ji(3), ji(1), ji(2)])));
    assert!(!accepts(m(), ja(vec![ji(1), ji(2), ji(1)])));
    assert!(!accepts(m(), ja(vec![ji(2), ji(1), ji(1)])));
    assert!(!accepts(m(), ja(vec![ji(1), js("x")])));
    assert!(!accepts(m(), ja(vec![js("x"), ji(1)])));
}

#[test]
fn error_count_does_not_depend_on_path() {
    let m = || Maskoid::list(Maskoid::int_());
    let data = || ja(vec![js("a"), ji(1), js("b")]);
    let mut at_root = Vec::new();
    let mut nested = Vec::new();
    let schema = one_binding(Maskoid::null());
    match_maskoid(&schema, &m(), &data(), &mut vec![], &mut at_root);
    match_maskoid(&schema, &m(), &data(), &mut vec![PathSegment::Key("x".to_string()), PathSegment::Index(4)], &mut nested);
    assert_eq!(at_root.len(), 2);
    assert_eq!(nested.len(), 2);
}

#[test]
fn set_counts_signed_zeros_as_equal() {
    let zero = JsonValue::Number(JsonNumber::Float(0.0f64.to_bits()));
    let minus_zero = JsonValue::Number(JsonNumber::Float((-0.0f64).to_bits()));
    assert_eq!(
        messages(Maskoid::set(Maskoid::float()), ja(vec![zero, minus_zero])),
        vec!["[1]: Duplicate element (also at index 0)"]
    );
    let one = JsonValue::Number(JsonNumber::Float(1.0f64.to_bits()));
    assert!(accepts(Maskoid::set(Maskoid::float()), ja(vec![one, ji(1)])));
}

#[test]
fn looping_references_are_refused_before_validation() {
    let mut bindings = StrMap::new();
    bindings.insert("a".to_string(), Maskoid::ref_("b"));
    bindings.insert("b".to_string(), Maskoid::option(Maskoid::ref_("a")));
    let looping = SchemaskV1 { bindings, default: Some("a".to_string()) }.to_versioned();
    assert!(schemask::validate_settled(&looping, None, &ji(1)).is_none());
    let mut bindings = StrMap::new();
    bindings.insert("tree".to_string(), Maskoid::list(Maskoid::ref_("tree")));
    bindings.insert("alias".to_string(), Maskoid::option(Maskoid::ref_("tree")));
    let fine = SchemaskV1 { bindings, default: Some("alias".to_string()) }.to_versioned();
    assert!(matches!(schemask::validate_settled(&fine, None, &JsonValue::Array(vec![ja(vec![])])), Some(Ok(()))));
    assert!(matches!(schemask::validate_settled(&fine, None, &ji(1)), Some(Err(_))));
}

#[test]
fn a_loop_the_root_cannot_reach_does_not_refuse_validation() {
    let mut bindings = StrMap::new();
    bindings.insert("a".to_string(), Maskoid::ref_("b"));
    bindings.insert("b".to_string(), Maskoid::option(Maskoid::ref_("a")));
    bindings.insert("count".to_string(), Maskoid::int_());
    bindings.insert("pair".to_string(), Maskoid::list(Maskoid::ref_("count")));
    let schema = SchemaskV1 { bindings, default: Some("pair".to_string()) }.to_versioned();
    assert!(matches!(schemask::validate_settled(&schema, None, &ja(vec![ji(1), ji(2)])), Some(Ok(()))));
    assert!(matches!(schemask::validate_settled(&schema, Some("count".to_string()), &ja(vec![])), Some(Err(_))));
    assert!(schemask::validate_settled(&schema, Some("b".to_string()), &ji(1)).is_none());
    assert!(matches!(
        schemask::validate_settled(&schema, Some("missing".to_string()), &ji(1)),
        Some(Err(_))
    ));
}

#[test]
fn a_long_chain_of_references_without_a_loop_is_accepted() {
    let mut bindings = StrMap::new();
    bindings.insert("a".to_string(), Maskoid::option(Maskoid::ref_("b")));
    bindings.insert("b".to_string(), Maskoid::ref_("c"));
    bindings.insert("c".to_string(), Maskoid::option(Maskoid::ref_("d")));
    bindings.insert("d".to_string(), Maskoid::ref_("e"));
    bindings.insert("e".to_string(), Maskoid::option(Maskoid::int_()));
    let schema = SchemaskV1 { bindings, default: Some("a".to_string()) }.to_versioned();
    assert!(matches!(schemask::validate_settled(&schema, None, &ji(7)), Some(Ok(()))));
    assert!(matches!(schemask::validate_settled(&schema, None, &JsonValue::Null), Some(Ok(()))));
    assert!(matches!(schemask::validate_settled(&schema, None, &ja(vec![])), Some(Err(_))));
}

#[test]
fn generated_texts_follow_key_order_not_insertion_order() {
    let build = |order: &[&str]| {
        let mut bindings = StrMap::new();
        for name in order {
            bindings.insert(name.to_string(), Maskoid::string());
        }
        SchemaskV1 { bindings, default: None }.to_versioned()
    };
    let a = build(&["b", "a", "c"]);
    let b = build(&["c", "b", "a"]);
    assert_eq!(generate_typescript(&a), generate_typescript(&b));
    assert_eq!(generate_markdown(&a), generate_markdown(&b));
    assert_eq!(generate_rust(&a), generate_rust(&b));
    assert!(generate_typescript(&a).starts_with("type a = string;"));
}

#[test]
fn well_formedness_checks() {
    assert!(sample().is_wf());
    let unsorted = SchemaskV1 {
        bindings: StrMap { entries: vec![("b".to_string(), Maskoid::string()), ("a".to_string(), Maskoid::string())] },
        default: None,
    }
    .to_versioned();
    assert!(!unsorted.is_wf());
    let bad_data = JsonValue::Object(StrMap { entries: vec![("b".to_string(), ji(1)), ("a".to_string(), ji(2))] });
    assert!(!schemask::json::json_is_wf(&bad_data));
    assert!(schemask::json::json_is_wf(&jo(vec![("b", ji(1)), ("a", ji(2))])));
}
