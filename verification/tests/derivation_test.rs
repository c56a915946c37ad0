// What the derive makes of type definitions: attributes, keys, descriptions,
// and the definitions it refuses.
use schemask::derivation::{
    derive_maskoid, extract_doc, field_key, lit_str_value, rename_rule, serde_has, serde_value, Attr,
    AttrMeta, AttrToken, DataDef, FieldDef, FieldsDef, TypeDef, VariantDef,
};
use schemask::derivation::{bind_derived_checked, keys_can_form};
use schemask::rename::RenameRule;
use schemask::strmap::StrMap;
use schemask::v1::Maskoid;

fn ident(s: &str) -> AttrToken {
    AttrToken::Ident(s.to_string())
}

fn lit(s: &str) -> AttrToken {
    AttrToken::Literal(s.to_string())
}

fn eq() -> AttrToken {
    AttrToken::Punct('=')
}

fn serde_attr(toks: Vec<AttrToken>) -> Attr {
    Attr {
        path: "serde".to_string(),
        meta: AttrMeta::List(toks),
    }
}

fn doc(raw: &str) -> Attr {
    Attr {
        path: "doc".to_string(),
        meta: AttrMeta::NameValue(Some(raw.to_string())),
    }
}

fn field(ident: &str, attrs: Vec<Attr>, maskoid: Maskoid) -> FieldDef {
    FieldDef {
        ident: ident.to_string(),
        attrs,
        maskoid,
    }
}

fn def(attrs: Vec<Attr>, data: DataDef) -> TypeDef {
    TypeDef {
        ident: "T".to_string(),
        attrs,
        data,
    }
}

fn err_of(d: TypeDef) -> String {
    match derive_maskoid(d) {
        Err(e) => e,
        Ok(m) => panic!("expected an error, got {:?}", m),
    }
}

#[test]
fn string_literal_loses_its_quotes() {
    assert_eq!(lit_str_value(&lit("\"abc\"")), Some("abc".to_string()));
    assert_eq!(lit_str_value(&lit("\"\"")), Some("".to_string()));
    assert_eq!(lit_str_value(&lit("\"")), None);
    assert_eq!(lit_str_value(&lit("42")), None);
    assert_eq!(lit_str_value(&ident("abc")), None);
}

#[test]
fn serde_value_reads_assignment_and_serialize_name() {
    let plain = vec![serde_attr(vec![ident("rename"), eq(), lit("\"x\"")])];
    assert_eq!(serde_value(&plain, "rename"), Some("x".to_string()));
    assert_eq!(serde_value(&plain, "rename_all"), None);
    // `rename(deserialize = "d", serialize = "s")`: the serialized name wins.
    let group = vec![serde_attr(vec![
        ident("rename"),
        AttrToken::Group(vec![ident("deserialize"), eq(), lit("\"d\""), AttrToken::Punct(','), ident("serialize"), eq(), lit("\"s\"")]),
    ])];
    assert_eq!(serde_value(&group, "rename"), Some("s".to_string()));
    let only_de = vec![serde_attr(vec![ident("rename"), AttrToken::Group(vec![ident("deserialize"), eq(), lit("\"d\"")])])];
    assert_eq!(serde_value(&only_de, "rename"), Some("d".to_string()));
    // Attributes other than `serde` are not read.
    let other = vec![Attr {
        path: "other".to_string(),
        meta: AttrMeta::List(vec![ident("rename"), eq(), lit("\"x\"")]),
    }];
    assert_eq!(serde_value(&other, "rename"), None);
    // The first value wins.
    let two = vec![serde_attr(vec![ident("rename"), eq(), lit("\"a\"")]), serde_attr(vec![ident("rename"), eq(), lit("\"b\"")])];
    assert_eq!(serde_value(&two, "rename"), Some("a".to_string()));
}

#[test]
fn serde_has_sees_top_level_names_only() {
    let attrs = vec![serde_attr(vec![ident("untagged")])];
    assert!(serde_has(&attrs, "untagged"));
    assert!(!serde_has(&attrs, "tag"));
    let nested = vec![serde_attr(vec![ident("x"), AttrToken::Group(vec![ident("tag")])])];
    assert!(!serde_has(&nested, "tag"));
}

#[test]
fn doc_lines_are_trimmed_and_joined() {
    let attrs = vec![doc(" First line.  "), serde_attr(vec![]), doc("\tSecond line.")];
    assert_eq!(extract_doc(&attrs), Some("First line.\nSecond line.".to_string()));
    assert_eq!(extract_doc(&vec![serde_attr(vec![])]), None);
    let not_a_literal = vec![Attr {
        path: "doc".to_string(),
        meta: AttrMeta::NameValue(None),
    }];
    assert_eq!(extract_doc(&not_a_literal), None);
}

#[test]
fn rename_rule_is_read_from_attributes() {
    let attrs = vec![serde_attr(vec![ident("rename_all"), eq(), lit("\"kebab-case\"")])];
    assert_eq!(rename_rule(&attrs, "rename_all"), RenameRule::Kebab);
    assert_eq!(rename_rule(&attrs, "rename_all_fields"), RenameRule::Unchanged);
    let unknown = vec![serde_attr(vec![ident("rename_all"), eq(), lit("\"Title Case\"")])];
    assert_eq!(rename_rule(&unknown, "rename_all"), RenameRule::Unchanged);
}

#[test]
fn field_key_prefers_explicit_rename() {
    let renamed = field("a_b", vec![serde_attr(vec![ident("rename"), eq(), lit("\"X\"")])], Maskoid::string());
    assert_eq!(field_key(&renamed, RenameRule::Camel), "X");
    let plain = field("r#type_name", vec![], Maskoid::string());
    assert_eq!(field_key(&plain, RenameRule::Camel), "typeName");
    assert_eq!(field_key(&plain, RenameRule::ScreamingKebab), "TYPE-NAME");
}

#[test]
fn tagged_representations_are_refused() {
    let tag = def(vec![serde_attr(vec![ident("tag"), eq(), lit("\"type\"")])], DataDef::Enum(vec![]));
    assert_eq!(err_of(tag), "Maskoidy does not support #[serde(tag)]: schemask unions are always externally tagged");
    let content = def(vec![serde_attr(vec![ident("content"), eq(), lit("\"c\"")])], DataDef::Struct(FieldsDef::Unit));
    assert_eq!(
        err_of(content),
        "Maskoidy does not support #[serde(content)]: schemask unions are always externally tagged"
    );
    let untagged = def(vec![serde_attr(vec![ident("untagged")])], DataDef::Enum(vec![]));
    assert_eq!(
        err_of(untagged),
        "Maskoidy does not support #[serde(untagged)]: schemask unions are always externally tagged"
    );
    let variant = def(vec![], DataDef::Enum(vec![VariantDef {
        ident: "V".to_string(),
        attrs: vec![serde_attr(vec![ident("untagged")])],
        fields: FieldsDef::Unit,
    }]));
    assert_eq!(
        err_of(variant),
        "Maskoidy does not support #[serde(untagged)]: schemask unions are always externally tagged"
    );
    assert_eq!(err_of(def(vec![], DataDef::Union)), "Maskoidy does not support unions");
}

#[test]
fn later_field_with_same_key_replaces_earlier() {
    let fields = vec![
        field("a", vec![], Maskoid::string()),
        field("b", vec![serde_attr(vec![ident("rename"), eq(), lit("\"a\"")])], Maskoid::int_()),
    ];
    let m = derive_maskoid(def(vec![], DataDef::Struct(FieldsDef::Named(fields)))).unwrap();
    let Maskoid::Record(r) = m else {
        panic!()
    };
    assert_eq!(r.fields.len(), 1);
    assert!(matches!(r.fields.get("a").unwrap().maskoid, Maskoid::Int));
}

#[test]
fn doc_on_newtype_applies_to_inner_maskoid() {
    // A description only sticks to records, unions and tuples.
    let plain = def(vec![doc(" A name.")], DataDef::Struct(FieldsDef::Unnamed(vec![field("", vec![], Maskoid::string())])));
    assert!(matches!(derive_maskoid(plain).unwrap(), Maskoid::String));
    let tuple = def(
        vec![doc(" A pair.")],
        DataDef::Struct(FieldsDef::Unnamed(vec![field("", vec![], Maskoid::bool()), field("", vec![doc(" second")], Maskoid::null())])),
    );
    let Maskoid::Tuple(t) = derive_maskoid(tuple).unwrap() else {
        panic!()
    };
    assert_eq!(t.description.as_deref(), Some("A pair."));
    assert_eq!(t.elements[0].description, None);
    assert_eq!(t.elements[1].description.as_deref(), Some("second"));
}

#[test]
fn variant_rename_all_overrides_rename_all_fields() {
    let variants = vec![
        VariantDef {
            ident: "First".to_string(),
            attrs: vec![serde_attr(vec![ident("rename_all"), eq(), lit("\"UPPERCASE\"")])],
            fields: FieldsDef::Named(vec![field("x_y", vec![], Maskoid::string())]),
        },
        VariantDef {
            ident: "SecondOne".to_string(),
            attrs: vec![],
            fields: FieldsDef::Named(vec![field("x_y", vec![], Maskoid::string())]),
        },
    ];
    let attrs = vec![serde_attr(vec![
        ident("rename_all"),
        eq(),
        lit("\"kebab-case\""),
        AttrToken::Punct(','),
        ident("rename_all_fields"),
        eq(),
        lit("\"PascalCase\""),
    ])];
    let Maskoid::TaggedUnion(u) = derive_maskoid(def(attrs, DataDef::Enum(variants))).unwrap() else {
        panic!()
    };
    assert_eq!(u.variants.keys(), ["first", "second-one"]);
    let Maskoid::Record(first) = &u.variants.get("first").unwrap().maskoid else {
        panic!()
    };
    assert_eq!(first.fields.keys(), ["X_Y"]);
    let Maskoid::Record(second) = &u.variants.get("second-one").unwrap().maskoid else {
        panic!()
    };
    assert_eq!(second.fields.keys(), ["XY"]);
}

#[test]
fn unformable_camel_keys_are_refused_before_binding() {
    let camel = || serde_attr(vec![ident("rename_all"), eq(), lit("\"camelCase\"")]);
    let bad = def(vec![camel()], DataDef::Struct(FieldsDef::Named(vec![field("__", vec![], Maskoid::string())])));
    assert!(!keys_can_form(&bad));
    let mut bindings = StrMap::new();
    assert!(bind_derived_checked(&mut bindings, "T", bad).is_none());
    assert_eq!(bindings.len(), 0);
    let accented = def(vec![camel()], DataDef::Struct(FieldsDef::Named(vec![field("élan", vec![], Maskoid::string())])));
    assert!(!keys_can_form(&accented));
    let good = def(vec![camel()], DataDef::Struct(FieldsDef::Named(vec![field("a_b", vec![], Maskoid::string())])));
    assert!(keys_can_form(&good));
    let r = bind_derived_checked(&mut bindings, "T", good).unwrap().unwrap();
    assert!(matches!(r, Maskoid::Ref(ref n) if n == "T"));
    let Maskoid::Record(rec) = bindings.get("T").unwrap() else { panic!() };
    assert_eq!(rec.fields.keys(), ["aB"]);
    // A refused definition reports its error even when its keys cannot be formed.
    let refused = def(
        vec![camel(), serde_attr(vec![ident("untagged")])],
        DataDef::Struct(FieldsDef::Named(vec![field("__", vec![], Maskoid::string())])),
    );
    assert!(matches!(bind_derived_checked(&mut bindings, "U", refused), Some(Err(_))));
}

#[test]
fn doc_trimming_removes_ascii_white_space_only_at_the_ends() {
    let attrs = vec![doc("\t\r\n a  b \x0b\x0c ")];
    assert_eq!(extract_doc(&attrs), Some("a  b".to_string()));
    assert_eq!(extract_doc(&vec![doc("   ")]), Some("".to_string()));
}
