//! Rust type definitions (with serde attributes) whose JSON encoding matches a
//! schema. Records become structs, tagged unions enums, everything else a type
//! alias; a nested record, union or option inside a type expression gets a
//! helper definition named after where it occurs.
use crate::strmap::StrMap;
use crate::text::{
    chars_of, debug_quoted, debug_string, join, join_strings, owned, push_char, push_decimal,
    push_str, str_eq, dec, views,
};
use crate::v1::{description_of, opt_view, Maskoid, MaskoidField, SchemaskV1};
use vstd::prelude::*;

verus! {

// ---------------------------------------------------------------- names

/// What `char::to_uppercase` yields for a character.
pub uninterp spec fn char_upper(c: char) -> Seq<char>;

/// `char::to_uppercase`, collected. Its result is named [`char_upper`]; of the
/// Unicode tables only the ASCII part is stated: `a` to `z` map to `A` to `Z`,
/// every other ASCII character to itself.
#[verifier::external_body]
fn upper_of(c: char) -> (r: String)
    ensures
        r@ == char_upper(c),
        (c as u32) < 128 ==> r@ == seq![crate::rename::ascii_upper_char(c)],
{
    c.to_uppercase().collect()
}

/// `PascalCase` of a key: `_` and `-` are dropped and the character after one
/// (and the first) is upper-cased.
pub open spec fn pascal(s: Seq<char>) -> Seq<char> {
    pascal_from(s, 0, true)
}

pub open spec fn pascal_from(s: Seq<char>, i: nat, cap: bool) -> Seq<char>
    decreases s.len() - i,
{
    if i >= s.len() {
        Seq::empty()
    } else {
        let c = s[i as int];
        if c == '_' || c == '-' {
            pascal_from(s, i + 1, true)
        } else if cap {
            char_upper(c) + pascal_from(s, i + 1, false)
        } else {
            seq![c] + pascal_from(s, i + 1, false)
        }
    }
}

/// `PascalCase` of a key, as a new string.
pub fn pascal_case(s: &str) -> (r: String)
    ensures
        r@ == pascal(s@),
{
    let cs = chars_of(s);
    let mut out = String::new();
    let mut cap = true;
    let mut i: usize = 0;
    assert(out@ + pascal_from(s@, 0, true) == pascal(s@));
    while i < cs.len()
        invariant
            cs@ == s@,
            i <= cs@.len(),
            out@ + pascal_from(s@, i as nat, cap) == pascal(s@),
        decreases cs@.len() - i,
    {
        let c = cs[i];
        if c == '_' || c == '-' {
            cap = true;
        } else if cap {
            let u = upper_of(c);
            let ghost before = out@;
            push_str(&mut out, u.as_str());
            assert(before + (char_upper(c) + pascal_from(s@, i as nat + 1, false)) == out@
                + pascal_from(s@, i as nat + 1, false));
            cap = false;
        } else {
            let ghost before = out@;
            push_char(&mut out, c);
            assert(out@ == before + seq![c]);
            assert(before + (seq![c] + pascal_from(s@, i as nat + 1, false)) == out@ + pascal_from(
                s@,
                i as nat + 1,
                false,
            ));
            cap = false;
        }
        i = i + 1;
    }
    assert(out@ + Seq::<char>::empty() == out@);
    out
}

} // verus!

verus! {

/// Whether `c` is an ASCII upper-case letter.
pub open spec fn is_upper(c: char) -> bool {
    'A' <= c && c <= 'Z'
}

/// Whether `c` is an ASCII lower-case letter or digit.
pub open spec fn is_lower_or_digit(c: char) -> bool {
    ('a' <= c && c <= 'z') || ('0' <= c && c <= '9')
}

/// The snake-case text for character `i` of a key: `-` and space become `_`, an
/// upper-case letter becomes lower-case, preceded by `_` when it follows a
/// lower-case letter or digit.
pub open spec fn snake_piece(s: Seq<char>, i: int) -> Seq<char> {
    let c = s[i];
    if c == '-' || c == ' ' {
        seq!['_']
    } else if is_upper(c) {
        if i > 0 && is_lower_or_digit(s[i - 1]) {
            seq!['_', ((c as u32) + 32) as char]
        } else {
            seq![((c as u32) + 32) as char]
        }
    } else {
        seq![c]
    }
}

/// The snake-case form of the first `n` characters of a key.
pub open spec fn snake_prefix(s: Seq<char>, n: nat) -> Seq<char>
    decreases n,
{
    if n == 0 || n > s.len() {
        Seq::empty()
    } else {
        snake_prefix(s, (n - 1) as nat) + snake_piece(s, n - 1)
    }
}

/// The snake-case form of a key (`displayName` reads `display_name`).
pub open spec fn snake(s: Seq<char>) -> Seq<char> {
    snake_prefix(s, s.len())
}

/// The snake-case form of a key, as a new string.
pub fn snake_case(s: &str) -> (r: String)
    ensures
        r@ == snake(s@),
{
    let cs = chars_of(s);
    let mut out = String::new();
    let mut i: usize = 0;
    while i < cs.len()
        invariant
            cs@ == s@,
            i <= cs@.len(),
            out@ == snake_prefix(s@, i as nat),
        decreases cs@.len() - i,
    {
        let c = cs[i];
        if c == '-' || c == ' ' {
            push_char(&mut out, '_');
        } else if 'A' <= c && c <= 'Z' {
            if i > 0 && (('a' <= cs[i - 1] && cs[i - 1] <= 'z') || ('0' <= cs[i - 1] && cs[i - 1] <= '9')) {
                push_char(&mut out, '_');
            }
            let low = ((c as u32) + 32) as u8;
            push_char(&mut out, low as char);
        } else {
            push_char(&mut out, c);
        }
        assert(out@ == snake_prefix(s@, i as nat + 1));
        i = i + 1;
    }
    out
}

/// The Rust keywords that a raw identifier (`r#...`) can stand for.
pub open spec fn is_keyword(s: Seq<char>) -> bool {
    keyword_list().contains(s)
}

pub open spec fn keyword_list() -> Seq<Seq<char>> {
    seq![
        "abstract"@, "as"@, "async"@, "await"@, "become"@, "box"@, "break"@, "const"@, "continue"@,
        "do"@, "dyn"@, "else"@, "enum"@, "false"@, "fn"@, "for"@, "gen"@, "if"@, "impl"@, "in"@,
        "let"@, "loop"@, "macro"@, "match"@, "mod"@, "move"@, "mut"@, "override"@, "priv"@, "pub"@,
        "ref"@, "return"@, "static"@, "struct"@, "trait"@, "true"@, "try"@, "type"@, "typeof"@,
        "unsafe"@, "unsized"@, "use"@, "virtual"@, "where"@, "while"@, "yield"@,
    ]
}

fn keyword_strs() -> (r: Vec<&'static str>)
    ensures
        r@.map_values(|s: &str| s@) == keyword_list(),
{
    let r = vec![
        "abstract", "as", "async", "await", "become", "box", "break", "const", "continue", "do",
        "dyn", "else", "enum", "false", "fn", "for", "gen", "if", "impl", "in", "let", "loop",
        "macro", "match", "mod", "move", "mut", "override", "priv", "pub", "ref", "return",
        "static", "struct", "trait", "true", "try", "type", "typeof", "unsafe", "unsized", "use",
        "virtual", "where", "while", "yield",
    ];
    assert(r@.map_values(|s: &str| s@) =~= keyword_list());
    r
}

fn keyword(s: &str) -> (r: bool)
    ensures
        r == is_keyword(s@),
{
    let ks = keyword_strs();
    let ghost kv = ks@.map_values(|x: &str| x@);
    let mut i: usize = 0;
    while i < ks.len()
        invariant
            kv == ks@.map_values(|x: &str| x@),
            kv == keyword_list(),
            i <= ks@.len(),
            forall|j: int| 0 <= j < i ==> kv[j] != s@,
        decreases ks@.len() - i,
    {
        if str_eq(ks[i], s) {
            assert(kv[i as int] == s@);
            return true;
        }
        i = i + 1;
    }
    assert(!kv.contains(s@));
    false
}

/// The field identifier for a key: its snake-case form, raw when that is a keyword.
pub open spec fn field_ident(key: Seq<char>) -> Seq<char> {
    if is_keyword(snake(key)) {
        "r#"@ + snake(key)
    } else {
        snake(key)
    }
}

/// `#[serde(rename = "KEY")] ` when the identifier's name differs from the key.
pub open spec fn rename_attr(key: Seq<char>, name: Seq<char>) -> Seq<char> {
    if name == key {
        Seq::empty()
    } else {
        "#[serde(rename = "@ + debug_quoted(key) + ")] "@
    }
}

/// `#[doc = "DESC"] ` when there is a description.
pub open spec fn doc_attr(d: Option<Seq<char>>) -> Seq<char> {
    match d {
        Some(d) => "#[doc = "@ + debug_quoted(d) + "] "@,
        None => Seq::empty(),
    }
}

fn push_doc_attr(out: &mut String, d: &Option<String>)
    ensures
        final(out)@ == old(out)@ + doc_attr(opt_view(*d)),
{
    match d {
        Some(d) => {
            push_str(out, "#[doc = ");
            let q = debug_string(d.as_str());
            push_str(out, q.as_str());
            push_str(out, "] ");
        },
        None => {},
    }
}

fn push_rename_attr(out: &mut String, key: &str, name: &str)
    ensures
        final(out)@ == old(out)@ + rename_attr(key@, name@),
{
    if !str_eq(name, key) {
        push_str(out, "#[serde(rename = ");
        let q = debug_string(key);
        push_str(out, q.as_str());
        push_str(out, ")] ");
    }
}

} // verus!

verus! {

// ---------------------------------------------------------------- definitions

/// The derive attribute every generated struct and enum carries.
pub open spec fn derive_attr() -> Seq<char> {
    "#[derive(::serde::Serialize, ::serde::Deserialize)] "@
}

/// A type expression together with the helper definitions it called for, in
/// the order they were made.
pub type TypeAndDefs = (Seq<char>, Seq<Seq<char>>);

/// The Rust type expression for a maskoid. A nested record or union becomes a
/// helper type named `hint`; a nested option (`Option(Option(..))`) becomes
/// `Option<HINTWrapper>` with a wrapper struct holding an `element`.
pub open spec fn rs_type(m: Maskoid, hint: Seq<char>) -> TypeAndDefs
    decreases m,
{
    match m {
        Maskoid::Null => ("()"@, Seq::empty()),
        Maskoid::String => ("String"@, Seq::empty()),
        Maskoid::ConstString(_) => ("String"@, Seq::empty()),
        Maskoid::Bool => ("bool"@, Seq::empty()),
        Maskoid::Int => ("i64"@, Seq::empty()),
        Maskoid::Float => ("f64"@, Seq::empty()),
        Maskoid::Any => ("::serde_json::Value"@, Seq::empty()),
        Maskoid::Ref(name) => (name@, Seq::empty()),
        Maskoid::Option(inner) => if *inner is Option {
            let w = hint + "Wrapper"@;
            let (et, d) = rs_type(*inner, hint + "Inner"@);
            ("Option<"@ + w + ">"@, d.push(wrapper_def(w, et)))
        } else {
            let (t, d) = rs_type(*inner, hint);
            ("Option<"@ + t + ">"@, d)
        },
        Maskoid::SetOf(inner) => {
            let (t, d) = rs_type(*inner, hint);
            ("Vec<"@ + t + ">"@, d)
        },
        Maskoid::List(inner) => {
            let (t, d) = rs_type(*inner, hint);
            ("Vec<"@ + t + ">"@, d)
        },
        Maskoid::StringMap(inner) => {
            let (t, d) = rs_type(*inner, hint);
            ("std::collections::HashMap<String, "@ + t + ">"@, d)
        },
        Maskoid::Tuple(t) => {
            let (inner, d) = rs_tuple(t.elements@, hint);
            ("("@ + inner + ")"@, d)
        },
        Maskoid::Record(r) => {
            let (fs, d) = rs_fields(hint, r.fields.entries@);
            (hint, d.push(struct_def(hint, opt_view(r.description), fs)))
        },
        Maskoid::TaggedUnion(u) => {
            let (vs, d) = rs_variants(hint, u.variants.entries@);
            (hint, d.push(enum_def(hint, opt_view(u.description), vs)))
        },
    }
}

/// The element types of a tuple, each followed by `, `; element `i` is hinted
/// `HINT_i`.
pub open spec fn rs_tuple(e: Seq<MaskoidField>, hint: Seq<char>) -> TypeAndDefs
    decreases e,
{
    if e.len() == 0 {
        (Seq::empty(), Seq::empty())
    } else {
        let (pre, d) = rs_tuple(e.drop_last(), hint);
        let (t, d2) = rs_type(e.last().maskoid, hint + "_"@ + dec((e.len() - 1) as nat));
        (pre + t + ", "@, d + d2)
    }
}

/// One struct field for a record key: field `KEY` of type `NAME` is hinted
/// `NAME` + the key in PascalCase; an option field is skipped when `None`.
pub open spec fn rs_field(name: Seq<char>, key: Seq<char>, f: MaskoidField) -> TypeAndDefs
    decreases f,
{
    let (t, d) = rs_type(f.maskoid, name + pascal(key));
    let skip = if f.maskoid is Option {
        "#[serde(skip_serializing_if = \"Option::is_none\", default)] "@
    } else {
        Seq::empty()
    };
    (doc_attr(opt_view(f.description)) + rename_attr(key, snake(key)) + skip + "pub "@ + field_ident(
        key,
    ) + ": "@ + t, d)
}

/// The fields of a record, in key order.
pub open spec fn rs_fields(name: Seq<char>, e: Seq<(String, MaskoidField)>) -> (Seq<Seq<char>>, Seq<Seq<char>>)
    decreases e,
{
    if e.len() == 0 {
        (Seq::empty(), Seq::empty())
    } else {
        let (fs, d) = rs_fields(name, e.drop_last());
        let (ft, d2) = rs_field(name, e.last().0@, e.last().1);
        (fs.push(ft), d + d2)
    }
}

/// One enum variant for a union tag: the variant is the tag in PascalCase
/// holding the variant's type, hinted `NAME` + the tag.
pub open spec fn rs_variant(name: Seq<char>, tag: Seq<char>, f: MaskoidField) -> TypeAndDefs
    decreases f,
{
    let (t, d) = rs_type(f.maskoid, name + tag);
    (doc_attr(opt_view(f.description)) + rename_attr(tag, pascal(tag)) + pascal(tag) + "("@ + t
        + ")"@, d)
}

/// The variants of a union, in tag order.
pub open spec fn rs_variants(name: Seq<char>, e: Seq<(String, MaskoidField)>) -> (Seq<Seq<char>>, Seq<Seq<char>>)
    decreases e,
{
    if e.len() == 0 {
        (Seq::empty(), Seq::empty())
    } else {
        let (vs, d) = rs_variants(name, e.drop_last());
        let (vt, d2) = rs_variant(name, e.last().0@, e.last().1);
        (vs.push(vt), d + d2)
    }
}

/// A struct for a record; unknown keys are refused when deserialising.
pub open spec fn struct_def(name: Seq<char>, desc: Option<Seq<char>>, fields: Seq<Seq<char>>) -> Seq<char> {
    doc_attr(desc) + derive_attr() + "#[serde(deny_unknown_fields)] pub struct "@ + name + " { "@ + join(
        fields,
        ", "@,
    ) + " }"@
}

/// An enum for a tagged union.
pub open spec fn enum_def(name: Seq<char>, desc: Option<Seq<char>>, variants: Seq<Seq<char>>) -> Seq<char> {
    doc_attr(desc) + derive_attr() + "pub enum "@ + name + " { "@ + join(variants, ", "@) + " }"@
}

/// The wrapper struct of a nested option.
pub open spec fn wrapper_def(name: Seq<char>, element: Seq<char>) -> Seq<char> {
    derive_attr() + "pub struct "@ + name + " { pub element: "@ + element + " }"@
}

/// The top-level definition of a binding and the helper definitions it made.
pub open spec fn rs_binding(name: Seq<char>, m: Maskoid) -> TypeAndDefs {
    match m {
        Maskoid::Record(r) => {
            let (fs, d) = rs_fields(name, r.fields.entries@);
            (struct_def(name, opt_view(r.description), fs), d)
        },
        Maskoid::TaggedUnion(u) => {
            let (vs, d) = rs_variants(name, u.variants.entries@);
            (enum_def(name, opt_view(u.description), vs), d)
        },
        other => {
            let (t, d) = rs_type(other, name);
            (doc_attr(description_of(other)) + "pub type "@ + name + " = "@ + t + ";"@, d)
        },
    }
}

/// The bindings' definitions in key order, and all helper definitions made on
/// the way, in order.
pub open spec fn rs_bindings(e: Seq<(String, Maskoid)>) -> (Seq<Seq<char>>, Seq<Seq<char>>)
    decreases e.len(),
{
    if e.len() == 0 {
        (Seq::empty(), Seq::empty())
    } else {
        let (bs, d) = rs_bindings(e.drop_last());
        let (b, d2) = rs_binding(e.last().0@, e.last().1);
        (bs.push(b), d + d2)
    }
}

/// The unformatted Rust source: the helper definitions, then the bindings'
/// definitions, one per line.
pub open spec fn rust_source(schema: SchemaskV1) -> Seq<char> {
    let (bs, d) = rs_bindings(schema.bindings.entries@);
    join(d + bs, "\n"@)
}

} // verus!

verus! {

// ---------------------------------------------------------------- exec

fn push_owned(extra: &mut Vec<String>, s: String)
    ensures
        views(final(extra)@) == views(old(extra)@).push(s@),
{
    proof {
        crate::text::lemma_views_push(extra@, s);
    }
    extra.push(s);
}

fn wrap(prefix: &str, t: &str, suffix: &str) -> (r: String)
    ensures
        r@ == prefix@ + t@ + suffix@,
{
    let mut s = owned(prefix);
    push_str(&mut s, t);
    push_str(&mut s, suffix);
    s
}

fn concat(a: &str, b: &str) -> (r: String)
    ensures
        r@ == a@ + b@,
{
    let mut s = owned(a);
    push_str(&mut s, b);
    s
}

fn struct_text(name: &str, desc: &Option<String>, fields: &Vec<String>) -> (r: String)
    ensures
        r@ == struct_def(name@, opt_view(*desc), views(fields@)),
{
    let mut s = String::new();
    push_doc_attr(&mut s, desc);
    push_str(&mut s, "#[derive(::serde::Serialize, ::serde::Deserialize)] ");
    push_str(&mut s, "#[serde(deny_unknown_fields)] pub struct ");
    push_str(&mut s, name);
    push_str(&mut s, " { ");
    let j = join_strings(fields, ", ");
    push_str(&mut s, j.as_str());
    push_str(&mut s, " }");
    s
}

fn enum_text(name: &str, desc: &Option<String>, variants: &Vec<String>) -> (r: String)
    ensures
        r@ == enum_def(name@, opt_view(*desc), views(variants@)),
{
    let mut s = String::new();
    push_doc_attr(&mut s, desc);
    push_str(&mut s, "#[derive(::serde::Serialize, ::serde::Deserialize)] ");
    push_str(&mut s, "pub enum ");
    push_str(&mut s, name);
    push_str(&mut s, " { ");
    let j = join_strings(variants, ", ");
    push_str(&mut s, j.as_str());
    push_str(&mut s, " }");
    s
}

/// Returns the Rust type expression for the given maskoid, adding to `extra`
/// the helper definitions it calls for (see [`rs_type`]).
fn gen_type_expr(m: &Maskoid, hint: &str, extra: &mut Vec<String>) -> (r: String)
    ensures
        r@ == rs_type(*m, hint@).0,
        views(final(extra)@) == views(old(extra)@) + rs_type(*m, hint@).1,
    decreases m,
{
    assert(views(extra@) + Seq::<Seq<char>>::empty() == views(extra@));
    match m {
        Maskoid::Null => owned("()"),
        Maskoid::String => owned("String"),
        Maskoid::ConstString(_) => owned("String"),
        Maskoid::Bool => owned("bool"),
        Maskoid::Int => owned("i64"),
        Maskoid::Float => owned("f64"),
        Maskoid::Any => owned("::serde_json::Value"),
        Maskoid::Ref(name) => owned(name.as_str()),
        Maskoid::Option(inner) => {
            let nested = match &**inner {
                Maskoid::Option(_) => true,
                _ => false,
            };
            if nested {
                let wrapper_name = concat(hint, "Wrapper");
                let inner_hint = concat(hint, "Inner");
                let element_ty = gen_type_expr(inner, inner_hint.as_str(), extra);
                let mut def = owned("#[derive(::serde::Serialize, ::serde::Deserialize)] ");
                push_str(&mut def, "pub struct ");
                push_str(&mut def, wrapper_name.as_str());
                push_str(&mut def, " { pub element: ");
                push_str(&mut def, element_ty.as_str());
                push_str(&mut def, " }");
                let ghost mid = views(extra@);
                push_owned(extra, def);
                assert(views(extra@) == mid.push(def@));
                assert(views(old(extra)@) + rs_type(**inner, inner_hint@).1.push(def@) =~= (views(
                    old(extra)@,
                ) + rs_type(**inner, inner_hint@).1).push(def@));
                wrap("Option<", wrapper_name.as_str(), ">")
            } else {
                let t = gen_type_expr(inner, hint, extra);
                wrap("Option<", t.as_str(), ">")
            }
        },
        Maskoid::SetOf(inner) => {
            let t = gen_type_expr(inner, hint, extra);
            wrap("Vec<", t.as_str(), ">")
        },
        Maskoid::List(inner) => {
            let t = gen_type_expr(inner, hint, extra);
            wrap("Vec<", t.as_str(), ">")
        },
        Maskoid::StringMap(inner) => {
            let t = gen_type_expr(inner, hint, extra);
            wrap("std::collections::HashMap<String, ", t.as_str(), ">")
        },
        Maskoid::Tuple(t) => {
            let e = &t.elements;
            let ghost base = views(extra@);
            let mut inner = String::new();
            let mut i: usize = 0;
            while i < e.len()
                invariant
                    i <= e@.len(),
                    inner@ == rs_tuple(e@.take(i as int), hint@).0,
                    views(extra@) == base + rs_tuple(e@.take(i as int), hint@).1,
                    forall|j: int| 0 <= j < e@.len() ==> decreases_to!(*m => #[trigger] e@[j].maskoid),
                decreases e@.len() - i,
            {
                assert(decreases_to!(*m => e@[i as int].maskoid));
                assert(e@.take(i as int + 1).drop_last() == e@.take(i as int));
                let mut h = concat(hint, "_");
                push_decimal(&mut h, i);
                let ty = gen_type_expr(&e[i].maskoid, h.as_str(), extra);
                push_str(&mut inner, ty.as_str());
                push_str(&mut inner, ", ");
                i = i + 1;
            }
            assert(e@.take(i as int) == e@);
            wrap("(", inner.as_str(), ")")
        },
        Maskoid::Record(r) => {
            let fs = gen_fields(hint, &r.fields, extra);
            let def = struct_text(hint, &r.description, &fs);
            push_owned(extra, def);
            assert(views(old(extra)@) + rs_fields(hint@, r.fields.entries@).1.push(def@) =~= (views(
                old(extra)@,
            ) + rs_fields(hint@, r.fields.entries@).1).push(def@));
            owned(hint)
        },
        Maskoid::TaggedUnion(u) => {
            let vs = gen_variants(hint, &u.variants, extra);
            let def = enum_text(hint, &u.description, &vs);
            push_owned(extra, def);
            assert(views(old(extra)@) + rs_variants(hint@, u.variants.entries@).1.push(def@) =~= (views(
                old(extra)@,
            ) + rs_variants(hint@, u.variants.entries@).1).push(def@));
            owned(hint)
        },
    }
}

/// The struct field for one record key (see [`rs_field`]).
fn gen_field(name: &str, key: &str, f: &MaskoidField, extra: &mut Vec<String>) -> (r: String)
    ensures
        r@ == rs_field(name@, key@, *f).0,
        views(final(extra)@) == views(old(extra)@) + rs_field(name@, key@, *f).1,
    decreases f,
{
    let p = pascal_case(key);
    let hint = concat(name, p.as_str());
    let t = gen_type_expr(&f.maskoid, hint.as_str(), extra);
    let mut s = String::new();
    push_doc_attr(&mut s, &f.description);
    let plain = snake_case(key);
    push_rename_attr(&mut s, key, plain.as_str());
    match &f.maskoid {
        Maskoid::Option(_) => {
            push_str(&mut s, "#[serde(skip_serializing_if = \"Option::is_none\", default)] ");
        },
        _ => {},
    }
    push_str(&mut s, "pub ");
    if keyword(plain.as_str()) {
        push_str(&mut s, "r#");
    }
    push_str(&mut s, plain.as_str());
    push_str(&mut s, ": ");
    push_str(&mut s, t.as_str());
    s
}

/// The fields of a record, in key order (see [`rs_fields`]).
fn gen_fields(name: &str, fields: &StrMap<MaskoidField>, extra: &mut Vec<String>) -> (r: Vec<String>)
    ensures
        views(r@) == rs_fields(name@, fields.entries@).0,
        views(final(extra)@) == views(old(extra)@) + rs_fields(name@, fields.entries@).1,
    decreases fields,
{
    let e = &fields.entries;
    let ghost base = views(extra@);
    let mut out: Vec<String> = Vec::new();
    let mut i: usize = 0;
    while i < e.len()
        invariant
            e == &fields.entries,
            i <= e@.len(),
            views(out@) == rs_fields(name@, e@.take(i as int)).0,
            views(extra@) == base + rs_fields(name@, e@.take(i as int)).1,
            forall|j: int| 0 <= j < e@.len() ==> decreases_to!(*fields => #[trigger] e@[j].1),
        decreases e@.len() - i,
    {
        assert(decreases_to!(*fields => e@[i as int].1));
        assert(e@.take(i as int + 1).drop_last() == e@.take(i as int));
        let ft = gen_field(name, e[i].0.as_str(), &e[i].1, extra);
        proof {
            crate::text::lemma_views_push(out@, ft);
        }
        out.push(ft);
        i = i + 1;
    }
    assert(e@.take(i as int) == e@);
    out
}

/// The enum variant for one union tag (see [`rs_variant`]).
fn gen_variant(name: &str, tag: &str, f: &MaskoidField, extra: &mut Vec<String>) -> (r: String)
    ensures
        r@ == rs_variant(name@, tag@, *f).0,
        views(final(extra)@) == views(old(extra)@) + rs_variant(name@, tag@, *f).1,
    decreases f,
{
    let hint = concat(name, tag);
    let t = gen_type_expr(&f.maskoid, hint.as_str(), extra);
    let ident = pascal_case(tag);
    let mut s = String::new();
    push_doc_attr(&mut s, &f.description);
    push_rename_attr(&mut s, tag, ident.as_str());
    push_str(&mut s, ident.as_str());
    push_str(&mut s, "(");
    push_str(&mut s, t.as_str());
    push_str(&mut s, ")");
    s
}

/// The variants of a union, in tag order (see [`rs_variants`]).
fn gen_variants(name: &str, variants: &StrMap<MaskoidField>, extra: &mut Vec<String>) -> (r: Vec<String>)
    ensures
        views(r@) == rs_variants(name@, variants.entries@).0,
        views(final(extra)@) == views(old(extra)@) + rs_variants(name@, variants.entries@).1,
    decreases variants,
{
    let e = &variants.entries;
    let ghost base = views(extra@);
    let mut out: Vec<String> = Vec::new();
    let mut i: usize = 0;
    while i < e.len()
        invariant
            e == &variants.entries,
            i <= e@.len(),
            views(out@) == rs_variants(name@, e@.take(i as int)).0,
            views(extra@) == base + rs_variants(name@, e@.take(i as int)).1,
            forall|j: int| 0 <= j < e@.len() ==> decreases_to!(*variants => #[trigger] e@[j].1),
        decreases e@.len() - i,
    {
        assert(decreases_to!(*variants => e@[i as int].1));
        assert(e@.take(i as int + 1).drop_last() == e@.take(i as int));
        let vt = gen_variant(name, e[i].0.as_str(), &e[i].1, extra);
        proof {
            crate::text::lemma_views_push(out@, vt);
        }
        out.push(vt);
        i = i + 1;
    }
    assert(e@.take(i as int) == e@);
    out
}

} // verus!

verus! {

/// The definition of one binding (see [`rs_binding`]).
fn gen_type_def(name: &str, m: &Maskoid, extra: &mut Vec<String>) -> (r: String)
    ensures
        r@ == rs_binding(name@, *m).0,
        views(final(extra)@) == views(old(extra)@) + rs_binding(name@, *m).1,
{
    match m {
        Maskoid::Record(r) => {
            let fs = gen_fields(name, &r.fields, extra);
            struct_text(name, &r.description, &fs)
        },
        Maskoid::TaggedUnion(u) => {
            let vs = gen_variants(name, &u.variants, extra);
            enum_text(name, &u.description, &vs)
        },
        other => {
            let ty = gen_type_expr(other, name, extra);
            let mut s = String::new();
            match other.description() {
                Some(d) => {
                    push_str(&mut s, "#[doc = ");
                    let q = debug_string(d);
                    push_str(&mut s, q.as_str());
                    push_str(&mut s, "] ");
                },
                None => {},
            }
            push_str(&mut s, "pub type ");
            push_str(&mut s, name);
            push_str(&mut s, " = ");
            push_str(&mut s, ty.as_str());
            push_str(&mut s, ";");
            s
        },
    }
}

/// The unformatted Rust source for a schema (see [`rust_source`]).
pub fn rust_source_string(schema: &SchemaskV1) -> (r: String)
    requires
        crate::v1::schema_wf(*schema),
    ensures
        r@ == rust_source(*schema),
{
    let e = &schema.bindings.entries;
    let mut extra: Vec<String> = Vec::new();
    let mut defs: Vec<String> = Vec::new();
    let mut i: usize = 0;
    while i < e.len()
        invariant
            i <= e@.len(),
            views(defs@) == rs_bindings(e@.take(i as int)).0,
            views(extra@) == rs_bindings(e@.take(i as int)).1,
        decreases e@.len() - i,
    {
        assert(e@.take(i as int + 1).drop_last() == e@.take(i as int));
        let d = gen_type_def(e[i].0.as_str(), &e[i].1, &mut extra);
        proof {
            crate::text::lemma_views_push(defs@, d);
        }
        defs.push(d);
        i = i + 1;
    }
    assert(e@.take(i as int) == e@);
    let ghost d0 = views(extra@);
    let mut all = extra;
    let mut j: usize = 0;
    while j < defs.len()
        invariant
            j <= defs@.len(),
            views(all@) == d0 + views(defs@).take(j as int),
        decreases defs@.len() - j,
    {
        let s = owned(defs[j].as_str());
        proof {
            crate::text::lemma_views_push(all@, s);
            assert(views(defs@).take(j as int + 1) == views(defs@).take(j as int).push(s@));
        }
        all.push(s);
        j = j + 1;
    }
    assert(views(defs@).take(j as int) == views(defs@));
    join_strings(&all, "\n")
}

/// What `genemichaels_lib::format_str` makes of a source text with the default
/// configuration: `Some` formatted text, or `None` when it fails (for instance
/// when the text does not parse as Rust).
pub uninterp spec fn formatted(source: Seq<char>) -> Option<Seq<char>>;

/// `genemichaels_lib::format_str` with `FormatConfig::default()`, keeping the
/// rendered text and dropping the error's detail. Its result is named
/// [`formatted`].
#[verifier::external_body]
fn format_rust(source: &str) -> (r: Option<String>)
    ensures
        opt_view(r) == formatted(source@),
{
    match genemichaels_lib::format_str(source, &genemichaels_lib::FormatConfig::default()) {
        Ok(res) => Some(res.rendered),
        Err(_) => None,
    }
}

/// The generated Rust text: the formatted source, or the source itself when
/// formatting fails.
pub open spec fn rust_text(schema: SchemaskV1) -> Seq<char> {
    match formatted(rust_source(schema)) {
        Some(t) => t,
        None => rust_source(schema),
    }
}

/// Generate rust types that would serialize to json that matches a schema.
pub fn generate_rust(schema: &SchemaskV1) -> (r: String)
    requires
        crate::v1::schema_wf(*schema),
    ensures
        r@ == rust_text(*schema),
{
    let code = rust_source_string(schema);
    let pretty = format_rust(code.as_str());
    formatted_or_source(code, pretty)
}

/// The formatted text when formatting succeeded, else the source itself.
pub fn formatted_or_source(source: String, pretty: Option<String>) -> (r: String)
    ensures
        r@ == (match opt_view(pretty) {
            Some(t) => t,
            None => source@,
        }),
{
    match pretty {
        Some(t) => t,
        None => source,
    }
}

} // verus!
