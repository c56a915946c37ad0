// The types below implement `Maskoidy` the way `#[derive(Maskoidy)]` does: each
// describes its definition (attributes as tokens, and the maskoid of each
// field's type), `derive_maskoid` builds its maskoid, and the type registers
// itself as a binding the first time it is met.
use schemask::derivation::{
    bind_derived, Attr, AttrMeta, AttrToken, DataDef, FieldDef, FieldsDef, TypeDef, VariantDef,
};
use schemask::json::{JsonNumber, JsonValue};
use schemask::maskoidy::{first_encounter, Maskoidy};
use schemask::strmap::StrMap;
use schemask::v1::{Maskoid, MaskoidField};
use schemask::{validate, Schemask};

fn derived(
    seen: &mut Vec<String>,
    bindings: &mut StrMap<Maskoid>,
    id: &str,
    name: &str,
    describe: impl FnOnce(&mut Vec<String>, &mut StrMap<Maskoid>) -> TypeDef,
) -> Maskoid {
    if !first_encounter(seen, id) {
        return Maskoid::ref_(name);
    }
    let def = describe(seen, bindings);
    bind_derived(bindings, name, def).expect("the definition derives")
}

/// `/// text` as the compiler hands it to a derive: `#[doc = " text"]`.
fn doc(text: &str) -> Attr {
    Attr {
        path: "doc".to_string(),
        meta: AttrMeta::NameValue(Some(format!(" {}", text))),
    }
}

/// `#[serde(k1 = "v1", k2 = "v2", ...)]`
fn serde(pairs: Vec<(&str, &str)>) -> Attr {
    let mut toks = Vec::new();
    for (i, (k, v)) in pairs.into_iter().enumerate() {
        if i > 0 {
            toks.push(AttrToken::Punct(','));
        }
        toks.push(AttrToken::Ident(k.to_string()));
        toks.push(AttrToken::Punct('='));
        toks.push(AttrToken::Literal(format!("\"{}\"", v)));
    }
    Attr {
        path: "serde".to_string(),
        meta: AttrMeta::List(toks),
    }
}

fn field(ident: &str, attrs: Vec<Attr>, maskoid: Maskoid) -> FieldDef {
    FieldDef {
        ident: ident.to_string(),
        attrs,
        maskoid,
    }
}

fn variant(ident: &str, attrs: Vec<Attr>, fields: FieldsDef) -> VariantDef {
    VariantDef {
        ident: ident.to_string(),
        attrs,
        fields,
    }
}

fn type_def(ident: &str, attrs: Vec<Attr>, data: DataDef) -> TypeDef {
    TypeDef {
        ident: ident.to_string(),
        attrs,
        data,
    }
}

fn m<T: Maskoidy>(seen: &mut Vec<String>, bindings: &mut StrMap<Maskoid>) -> Maskoid {
    T::maskoid(seen, bindings)
}

/// `f64`, which the library does not describe: a float.
fn float() -> Maskoid {
    Maskoid::float()
}

// ── Types under test ──────────────────────────────────────────────────────────
/// A participant in a game session.
#[allow(dead_code)]
struct Player {
    /// Display name shown in the lobby.
    name: String,
    /// Current score; absent until the player has scored.
    score: Option<i64>,
    tags: Vec<String>,
}

impl Maskoidy for Player {
    fn schema_id() -> &'static str {
        "derive_test.rs:Player"
    }

    fn schema_name() -> &'static str {
        "Player"
    }

    fn maskoid(seen: &mut Vec<String>, bindings: &mut StrMap<Maskoid>) -> Maskoid {
        derived(seen, bindings, Self::schema_id(), Self::schema_name(), |seen, bindings| {
            let fields = vec![
                field("name", vec![doc("Display name shown in the lobby.")], m::<String>(seen, bindings)),
                field(
                    "score",
                    vec![doc("Current score; absent until the player has scored.")],
                    m::<Option<i64>>(seen, bindings),
                ),
                field("tags", vec![], m::<Vec<String>>(seen, bindings)),
            ];
            type_def("Player", vec![doc("A participant in a game session.")], DataDef::Struct(FieldsDef::Named(fields)))
        })
    }
}

#[allow(dead_code)]
enum Event {
    /// A new player joined.
    Join(Player),
    Leave(String),
}

impl Maskoidy for Event {
    fn schema_id() -> &'static str {
        "derive_test.rs:Event"
    }

    fn schema_name() -> &'static str {
        "Event"
    }

    fn maskoid(seen: &mut Vec<String>, bindings: &mut StrMap<Maskoid>) -> Maskoid {
        derived(seen, bindings, Self::schema_id(), Self::schema_name(), |seen, bindings| {
            let variants = vec![
                variant(
                    "Join",
                    vec![doc("A new player joined.")],
                    FieldsDef::Unnamed(vec![field("", vec![], m::<Player>(seen, bindings))]),
                ),
                variant("Leave", vec![], FieldsDef::Unnamed(vec![field("", vec![], m::<String>(seen, bindings))])),
            ];
            type_def("Event", vec![], DataDef::Enum(variants))
        })
    }
}

#[allow(dead_code)]
struct Label(String);

impl Maskoidy for Label {
    fn schema_id() -> &'static str {
        "derive_test.rs:Label"
    }

    fn schema_name() -> &'static str {
        "Label"
    }

    fn maskoid(seen: &mut Vec<String>, bindings: &mut StrMap<Maskoid>) -> Maskoid {
        derived(seen, bindings, Self::schema_id(), Self::schema_name(), |seen, bindings| {
            let fields = vec![field("", vec![], m::<String>(seen, bindings))];
            type_def("Label", vec![], DataDef::Struct(FieldsDef::Unnamed(fields)))
        })
    }
}

#[allow(dead_code)]
struct Coords(f64, f64);

impl Maskoidy for Coords {
    fn schema_id() -> &'static str {
        "derive_test.rs:Coords"
    }

    fn schema_name() -> &'static str {
        "Coords"
    }

    fn maskoid(seen: &mut Vec<String>, bindings: &mut StrMap<Maskoid>) -> Maskoid {
        derived(seen, bindings, Self::schema_id(), Self::schema_name(), |_seen, _bindings| {
            let fields = vec![field("", vec![], float()), field("", vec![], float())];
            type_def("Coords", vec![], DataDef::Struct(FieldsDef::Unnamed(fields)))
        })
    }
}

struct Unit;

impl Maskoidy for Unit {
    fn schema_id() -> &'static str {
        "derive_test.rs:Unit"
    }

    fn schema_name() -> &'static str {
        "Unit"
    }

    fn maskoid(seen: &mut Vec<String>, bindings: &mut StrMap<Maskoid>) -> Maskoid {
        derived(seen, bindings, Self::schema_id(), Self::schema_name(), |_seen, _bindings| {
            type_def("Unit", vec![], DataDef::Struct(FieldsDef::Unit))
        })
    }
}

#[allow(dead_code)]
struct TreeNode {
    value: i64,
    children: Vec<TreeNode>,
}

impl Maskoidy for TreeNode {
    fn schema_id() -> &'static str {
        "derive_test.rs:TreeNode"
    }

    fn schema_name() -> &'static str {
        "TreeNode"
    }

    fn maskoid(seen: &mut Vec<String>, bindings: &mut StrMap<Maskoid>) -> Maskoid {
        derived(seen, bindings, Self::schema_id(), Self::schema_name(), |seen, bindings| {
            let fields = vec![
                field("value", vec![], m::<i64>(seen, bindings)),
                field("children", vec![], m::<Vec<TreeNode>>(seen, bindings)),
            ];
            type_def("TreeNode", vec![], DataDef::Struct(FieldsDef::Named(fields)))
        })
    }
}

/// `#[serde(rename_all = "snake_case")] enum Status { Pending, Failed(String) }`
struct Status;

impl Maskoidy for Status {
    fn schema_id() -> &'static str {
        "derive_test.rs:Status"
    }

    fn schema_name() -> &'static str {
        "Status"
    }

    fn maskoid(seen: &mut Vec<String>, bindings: &mut StrMap<Maskoid>) -> Maskoid {
        derived(seen, bindings, Self::schema_id(), Self::schema_name(), |seen, bindings| {
            let variants = vec![
                variant("Pending", vec![], FieldsDef::Unit),
                variant("Failed", vec![], FieldsDef::Unnamed(vec![field("", vec![], m::<String>(seen, bindings))])),
            ];
            type_def("Status", vec![serde(vec![("rename_all", "snake_case")])], DataDef::Enum(variants))
        })
    }
}

/// `#[serde(rename_all = "camelCase")] struct Renamed { display_name: String,
/// #[serde(rename = "avatar-url")] avatar_url: String, r#type: String }`
struct Renamed;

impl Maskoidy for Renamed {
    fn schema_id() -> &'static str {
        "derive_test.rs:Renamed"
    }

    fn schema_name() -> &'static str {
        "Renamed"
    }

    fn maskoid(seen: &mut Vec<String>, bindings: &mut StrMap<Maskoid>) -> Maskoid {
        derived(seen, bindings, Self::schema_id(), Self::schema_name(), |seen, bindings| {
            let fields = vec![
                field("display_name", vec![], m::<String>(seen, bindings)),
                field("avatar_url", vec![serde(vec![("rename", "avatar-url")])], m::<String>(seen, bindings)),
                field("r#type", vec![], m::<String>(seen, bindings)),
            ];
            type_def("Renamed", vec![serde(vec![("rename_all", "camelCase")])], DataDef::Struct(FieldsDef::Named(fields)))
        })
    }
}

/// `#[serde(rename_all = "snake_case")] enum RenamedEvent { UserLeft(String),
/// #[serde(rename = "JOIN")] UserJoined(String) }`
struct RenamedEvent;

impl Maskoidy for RenamedEvent {
    fn schema_id() -> &'static str {
        "derive_test.rs:RenamedEvent"
    }

    fn schema_name() -> &'static str {
        "RenamedEvent"
    }

    fn maskoid(seen: &mut Vec<String>, bindings: &mut StrMap<Maskoid>) -> Maskoid {
        derived(seen, bindings, Self::schema_id(), Self::schema_name(), |seen, bindings| {
            let variants = vec![
                variant("UserLeft", vec![], FieldsDef::Unnamed(vec![field("", vec![], m::<String>(seen, bindings))])),
                variant(
                    "UserJoined",
                    vec![serde(vec![("rename", "JOIN")])],
                    FieldsDef::Unnamed(vec![field("", vec![], m::<String>(seen, bindings))]),
                ),
            ];
            type_def("RenamedEvent", vec![serde(vec![("rename_all", "snake_case")])], DataDef::Enum(variants))
        })
    }
}

/// `#[serde(rename_all = "snake_case", rename_all_fields = "kebab-case")] enum
/// RenamedFields { SomeVariant { inner_field: String } }`
struct RenamedFields;

impl Maskoidy for RenamedFields {
    fn schema_id() -> &'static str {
        "derive_test.rs:RenamedFields"
    }

    fn schema_name() -> &'static str {
        "RenamedFields"
    }

    fn maskoid(seen: &mut Vec<String>, bindings: &mut StrMap<Maskoid>) -> Maskoid {
        derived(seen, bindings, Self::schema_id(), Self::schema_name(), |seen, bindings| {
            let variants = vec![variant(
                "SomeVariant",
                vec![],
                FieldsDef::Named(vec![field("inner_field", vec![], m::<String>(seen, bindings))]),
            )];
            type_def(
                "RenamedFields",
                vec![serde(vec![("rename_all", "snake_case"), ("rename_all_fields", "kebab-case")])],
                DataDef::Enum(variants),
            )
        })
    }
}

// ── Helpers ───────────────────────────────────────────────────────────────────
fn schema_for<T: Maskoidy>() -> Schemask {
    T::schemask()
}

fn valid(schema: &Schemask, data: JsonValue) {
    validate(schema, None, &data).expect("expected valid");
}

fn invalid(schema: &Schemask, data: JsonValue) {
    validate(schema, None, &data).expect_err("expected invalid");
}

fn v1(s: Schemask) -> schemask::v1::SchemaskV1 {
    let Schemask::V1(v) = s;
    v
}

fn js(s: &str) -> JsonValue {
    JsonValue::String(s.to_string())
}

fn ji(i: u64) -> JsonValue {
    JsonValue::Number(JsonNumber::PosInt(i))
}

fn jf(f: f64) -> JsonValue {
    JsonValue::Number(JsonNumber::Float(f.to_bits()))
}

fn ja(items: Vec<JsonValue>) -> JsonValue {
    JsonValue::Array(items)
}

fn jo(entries: Vec<(&str, JsonValue)>) -> JsonValue {
    let mut m = StrMap::new();
    for (k, v) in entries {
        m.insert(k.to_string(), v);
    }
    JsonValue::Object(m)
}

fn desc(f: &MaskoidField) -> Option<&str> {
    f.description.as_deref()
}

// ── Maskoid shape tests ───────────────────────────────────────────────────────
#[test]
fn player_maskoid_is_record() {
    let s = v1(Player::schemask());
    let m = s.bindings.get("Player").unwrap();
    assert!(matches!(m, Maskoid::Record(_)));
    let Maskoid::Record(r) = m else {
        panic!()
    };
    assert_eq!(r.description.as_deref(), Some("A participant in a game session."));
    assert!(r.fields.contains_key("name"));
    assert!(r.fields.contains_key("score"));
    assert!(r.fields.contains_key("tags"));
    assert!(matches!(r.fields.get("name").unwrap().maskoid, Maskoid::String));
    assert_eq!(desc(r.fields.get("name").unwrap()), Some("Display name shown in the lobby."));
    assert!(matches!(r.fields.get("score").unwrap().maskoid, Maskoid::Option(_)));
    assert_eq!(desc(r.fields.get("score").unwrap()), Some("Current score; absent until the player has scored."));
    assert!(matches!(r.fields.get("tags").unwrap().maskoid, Maskoid::List(_)));
    assert_eq!(r.fields.get("tags").unwrap().description, None);
}

#[test]
fn event_maskoid_is_tagged_union() {
    let s = v1(Event::schemask());
    let m = s.bindings.get("Event").unwrap();
    assert!(matches!(m, Maskoid::TaggedUnion(_)));
    let Maskoid::TaggedUnion(u) = m else {
        panic!()
    };
    assert!(u.variants.contains_key("Join"));
    assert!(u.variants.contains_key("Leave"));
    assert!(matches!(&u.variants.get("Join").unwrap().maskoid, Maskoid::Ref(name) if name == "Player"));
    assert_eq!(desc(u.variants.get("Join").unwrap()), Some("A new player joined."));
    assert!(matches!(u.variants.get("Leave").unwrap().maskoid, Maskoid::String));
    assert_eq!(u.variants.get("Leave").unwrap().description, None);
}

#[test]
fn label_maskoid_is_string() {
    // Newtype wrapping String → String maskoid
    let s = v1(Label::schemask());
    assert!(matches!(s.bindings.get("Label").unwrap(), Maskoid::String));
}

#[test]
fn coords_maskoid_is_tuple() {
    let s = v1(Coords::schemask());
    let m = s.bindings.get("Coords").unwrap();
    assert!(matches!(m, Maskoid::Tuple(_)));
    let Maskoid::Tuple(t) = m else {
        panic!()
    };
    assert_eq!(t.elements.len(), 2);
    assert!(matches!(t.elements[0].maskoid, Maskoid::Float));
    assert!(matches!(t.elements[1].maskoid, Maskoid::Float));
}

#[test]
fn unit_maskoid_is_null() {
    let s = v1(Unit::schemask());
    assert!(matches!(s.bindings.get("Unit").unwrap(), Maskoid::Null));
}

#[test]
fn unit_variant_is_bare_string() {
    let s = schema_for::<Status>();
    // `Status::Pending` and `Status::Failed("nope")` as serde writes them.
    valid(&s, js("pending"));
    valid(&s, jo(vec![("failed", js("nope"))]));
}

#[test]
fn valued_variant_rejects_bare_string() {
    invalid(&schema_for::<Status>(), js("failed"));
}

#[test]
fn unknown_bare_string_variant_rejected() {
    invalid(&schema_for::<Status>(), js("nonexistent"));
}

#[test]
fn variant_names_follow_serde() {
    let s = v1(RenamedEvent::schemask());
    let Maskoid::TaggedUnion(u) = s.bindings.get("RenamedEvent").unwrap() else {
        panic!()
    };
    let mut keys: Vec<String> = u.variants.keys();
    keys.sort();
    assert_eq!(keys, ["JOIN", "user_left"]);
}

#[test]
fn variant_field_names_follow_rename_all_fields() {
    let s = v1(RenamedFields::schemask());
    let Maskoid::TaggedUnion(u) = s.bindings.get("RenamedFields").unwrap() else {
        panic!()
    };
    let Maskoid::Record(r) = &u.variants.get("some_variant").unwrap().maskoid else {
        panic!()
    };
    assert!(r.fields.contains_key("inner-field"));
}

#[test]
fn struct_field_names_follow_serde() {
    let s = v1(Renamed::schemask());
    let Maskoid::Record(r) = s.bindings.get("Renamed").unwrap() else {
        panic!()
    };
    let mut keys: Vec<String> = r.fields.keys();
    keys.sort();
    assert_eq!(keys, ["avatar-url", "displayName", "type"]);
}

#[test]
fn renamed_struct_validates_against_its_own_schema() {
    // `Renamed { display_name: "a", avatar_url: "b", r#type: "c" }` as serde writes it.
    valid(&schema_for::<Renamed>(), jo(vec![("displayName", js("a")), ("avatar-url", js("b")), ("type", js("c"))]));
}

// ── Validation round-trip tests ───────────────────────────────────────────────
#[test]
fn player_valid_no_score() {
    valid(&schema_for::<Player>(), jo(vec![("name", js("Alice")), ("tags", ja(vec![]))]));
}

#[test]
fn player_valid_with_score() {
    valid(&schema_for::<Player>(), jo(vec![("name", js("Alice")), ("score", ji(42)), ("tags", ja(vec![js("chess")]))]));
}

#[test]
fn player_valid_null_score() {
    valid(&schema_for::<Player>(), jo(vec![("name", js("Alice")), ("score", JsonValue::Null), ("tags", ja(vec![]))]));
}

#[test]
fn player_invalid_wrong_name_type() {
    invalid(&schema_for::<Player>(), jo(vec![("name", ji(99)), ("tags", ja(vec![]))]));
}

#[test]
fn player_invalid_missing_tags() {
    invalid(&schema_for::<Player>(), jo(vec![("name", js("Alice"))]));
}

#[test]
fn event_valid_join() {
    valid(
        &schema_for::<Event>(),
        jo(vec![("Join", jo(vec![("name", js("Bob")), ("score", ji(10)), ("tags", ja(vec![]))]))]),
    );
}

#[test]
fn event_valid_leave() {
    valid(&schema_for::<Event>(), jo(vec![("Leave", js("Bob"))]));
}

#[test]
fn event_invalid_unknown_variant() {
    invalid(&schema_for::<Event>(), jo(vec![("Quit", js("Bob"))]));
}

#[test]
fn label_valid() {
    valid(&schema_for::<Label>(), js("hello"));
}

#[test]
fn coords_valid() {
    valid(&schema_for::<Coords>(), ja(vec![jf(1.0), jf(2.5)]));
}

#[test]
fn coords_invalid_wrong_length() {
    invalid(&schema_for::<Coords>(), ja(vec![jf(1.0)]));
}

#[test]
fn tree_node_schemask_breaks_cycle() {
    let s = v1(TreeNode::schemask());

    // The schema should contain a "TreeNode" binding
    assert!(s.bindings.contains_key("TreeNode"), "missing TreeNode binding");
    let Maskoid::Record(r) = s.bindings.get("TreeNode").unwrap() else {
        panic!("expected Record")
    };
    assert!(r.fields.contains_key("value"));
    assert!(r.fields.contains_key("children"));

    // children should be a list of Ref("TreeNode") — the cycle is broken
    let Maskoid::List(inner) = &r.fields.get("children").unwrap().maskoid else {
        panic!("expected List")
    };
    assert!(matches!(inner.as_ref(), Maskoid::Ref(name) if name == "TreeNode"));
    assert_eq!(s.default, Some("TreeNode".to_string()));
    // `TreeNode { value: 1, children: [TreeNode { value: 2, children: [] }] }`
    let node = jo(vec![("value", ji(1)), ("children", ja(vec![jo(vec![("value", ji(2)), ("children", ja(vec![]))])]))]);
    valid(&TreeNode::schemask(), node);
}
