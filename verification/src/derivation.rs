//! What `#[derive(Maskoidy)]` makes of a type definition: the serde attributes
//! it reads, the keys it gives fields and variants, the doc comments it keeps as
//! descriptions, and the maskoid it builds.
//!
//! A definition is described by plain values: its attributes as tokens, and for
//! each field the maskoid of the field's type (what that type's
//! `Maskoidy::maskoid` returned).
use crate::rename::{ascii_head, pascal_field, unraw, unraw_text, RenameRule};
use crate::text::{join, owned, push_char, push_str, str_eq, trim_text, trimmed, views, join_strings, chars_of};
use crate::strmap::StrMap;
use crate::v1::{opt_view, Maskoid, MaskoidField};
use vstd::prelude::*;

verus! {

/// A token inside an attribute's argument list.
#[derive(Debug)]
pub enum AttrToken {
    Ident(String),
    Punct(char),
    /// A literal as written in the source; a string literal keeps its quotes.
    Literal(String),
    /// A delimited group and the tokens inside it.
    Group(Vec<AttrToken>),
}

/// The form of an attribute after its path.
#[derive(Debug)]
pub enum AttrMeta {
    /// `#[path]`
    Path,
    /// `#[path(tokens)]`
    List(Vec<AttrToken>),
    /// `#[path = value]`: the value of a string literal, `None` for any other
    /// expression.
    NameValue(Option<String>),
}

/// An attribute: `#[serde(rename = "x")]`, or `#[doc = "..."]` for a doc comment.
#[derive(Debug)]
pub struct Attr {
    /// The attribute's path as written, such as `serde` or `doc`.
    pub path: String,
    pub meta: AttrMeta,
}

// ---------------------------------------------------------------- reading serde attributes

/// The text of a string literal token without its quotes.
pub open spec fn lit_text(t: AttrToken) -> Option<Seq<char>> {
    match t {
        AttrToken::Literal(l) => if l@.len() >= 2 && l@[0] == '"' && l@.last() == '"' {
            Some(l@.subrange(1, l@.len() - 1))
        } else {
            None
        },
        _ => None,
    }
}

/// Whether `t` is the identifier `name`.
pub open spec fn is_ident(t: AttrToken, name: Seq<char>) -> bool {
    t matches AttrToken::Ident(i) && i@ == name
}

/// The value of `name = "value"` when the identifier at `i` starts one.
pub open spec fn assigned_at(toks: Seq<AttrToken>, i: int) -> Option<Seq<char>> {
    if i + 2 < toks.len() && toks[i + 1] == AttrToken::Punct('=') {
        lit_text(toks[i + 2])
    } else {
        None
    }
}

/// The first value assigned to the identifier `want` among `toks` from `j` on.
pub open spec fn want_value_from(toks: Seq<AttrToken>, want: Seq<char>, j: nat) -> Option<Seq<char>>
    decreases toks.len() - j,
{
    if j >= toks.len() {
        None
    } else if is_ident(toks[j as int], want) && assigned_at(toks, j as int) is Some {
        assigned_at(toks, j as int)
    } else {
        want_value_from(toks, want, j + 1)
    }
}

/// The value inside `key(serialize = "..", deserialize = "..")`: the
/// serialized name first.
pub open spec fn group_value(inner: Seq<AttrToken>) -> Option<Seq<char>> {
    match want_value_from(inner, "serialize"@, 0) {
        Some(v) => Some(v),
        None => want_value_from(inner, "deserialize"@, 0),
    }
}

/// What the token at `i` gives `key`: `key = "value"`, or the value inside
/// `key(...)`.
pub open spec fn key_value_at(toks: Seq<AttrToken>, key: Seq<char>, i: int) -> Option<Seq<char>> {
    if is_ident(toks[i], key) {
        match assigned_at(toks, i) {
            Some(v) => Some(v),
            None => if i + 1 < toks.len() {
                match toks[i + 1] {
                    AttrToken::Group(g) => group_value(g@),
                    _ => None,
                }
            } else {
                None
            },
        }
    } else {
        None
    }
}

/// The first value given to `key` among `toks` from `i` on.
pub open spec fn key_value_from(toks: Seq<AttrToken>, key: Seq<char>, i: nat) -> Option<Seq<char>>
    decreases toks.len() - i,
{
    if i >= toks.len() {
        None
    } else {
        match key_value_at(toks, key, i as int) {
            Some(v) => Some(v),
            None => key_value_from(toks, key, i + 1),
        }
    }
}

/// The argument tokens of a `#[serde(...)]` attribute.
pub open spec fn serde_tokens(a: Attr) -> Option<Seq<AttrToken>> {
    if a.path@ == "serde"@ {
        match a.meta {
            AttrMeta::List(t) => Some(t@),
            _ => None,
        }
    } else {
        None
    }
}

/// The first value that the serde attributes among `attrs` from `k` on give `key`.
pub open spec fn serde_value_from(attrs: Seq<Attr>, key: Seq<char>, k: nat) -> Option<Seq<char>>
    decreases attrs.len() - k,
{
    if k >= attrs.len() {
        None
    } else {
        match serde_tokens(attrs[k as int]) {
            Some(t) => match key_value_from(t, key, 0) {
                Some(v) => Some(v),
                None => serde_value_from(attrs, key, k + 1),
            },
            None => serde_value_from(attrs, key, k + 1),
        }
    }
}

/// The value that the serde attributes give `key` (`rename = "x"` gives `x`).
pub open spec fn serde_value_of(attrs: Seq<Attr>, key: Seq<char>) -> Option<Seq<char>> {
    serde_value_from(attrs, key, 0)
}

/// Whether `a` is a serde attribute that names `key` among its top-level tokens.
pub open spec fn names_key(a: Attr, key: Seq<char>) -> bool {
    match serde_tokens(a) {
        Some(t) => exists|i: int| 0 <= i < t.len() && is_ident(#[trigger] t[i], key),
        None => false,
    }
}

/// Whether some serde attribute names `key` among its top-level tokens.
pub open spec fn serde_names(attrs: Seq<Attr>, key: Seq<char>) -> bool {
    exists|k: int| 0 <= k < attrs.len() && names_key(#[trigger] attrs[k], key)
}

/// The text of a string literal token without its quotes; `None` for any other
/// token.
pub fn lit_str_value(t: &AttrToken) -> (r: Option<String>)
    ensures
        opt_view(r) == lit_text(*t),
{
    match t {
        AttrToken::Literal(l) => {
            let cs = chars_of(l.as_str());
            let n = cs.len();
            if n >= 2 && cs[0] == '"' && cs[n - 1] == '"' {
                let mut out = String::new();
                let mut i: usize = 1;
                while i < n - 1
                    invariant
                        cs@ == l@,
                        n == cs@.len(),
                        n >= 2,
                        1 <= i <= n - 1,
                        out@ == l@.subrange(1, i as int),
                    decreases n - 1 - i,
                {
                    push_char(&mut out, cs[i]);
                    assert(l@.subrange(1, i as int + 1) == l@.subrange(1, i as int).push(l@[i as int]));
                    i = i + 1;
                }
                Some(out)
            } else {
                None
            }
        },
        _ => None,
    }
}

fn is_ident_token(t: &AttrToken, name: &str) -> (r: bool)
    ensures
        r == is_ident(*t, name@),
{
    match t {
        AttrToken::Ident(i) => str_eq(i.as_str(), name),
        _ => false,
    }
}

fn assigned(toks: &Vec<AttrToken>, i: usize) -> (r: Option<String>)
    ensures
        opt_view(r) == assigned_at(toks@, i as int),
{
    if i < toks.len() && toks.len() - i > 2 {
        match &toks[i + 1] {
            AttrToken::Punct(p) => if *p == '=' {
                lit_str_value(&toks[i + 2])
            } else {
                None
            },
            _ => None,
        }
    } else {
        None
    }
}

fn want_value(toks: &Vec<AttrToken>, want: &str) -> (r: Option<String>)
    ensures
        opt_view(r) == want_value_from(toks@, want@, 0),
{
    let mut j: usize = 0;
    while j < toks.len()
        invariant
            j <= toks@.len(),
            want_value_from(toks@, want@, 0) == want_value_from(toks@, want@, j as nat),
        decreases toks@.len() - j,
    {
        if is_ident_token(&toks[j], want) {
            let v = assigned(toks, j);
            if v.is_some() {
                return v;
            }
        }
        j = j + 1;
    }
    None
}

fn group_value_of(inner: &Vec<AttrToken>) -> (r: Option<String>)
    ensures
        opt_view(r) == group_value(inner@),
{
    match want_value(inner, "serialize") {
        Some(v) => Some(v),
        None => want_value(inner, "deserialize"),
    }
}

fn key_value(toks: &Vec<AttrToken>, key: &str) -> (r: Option<String>)
    ensures
        opt_view(r) == key_value_from(toks@, key@, 0),
{
    let mut i: usize = 0;
    while i < toks.len()
        invariant
            i <= toks@.len(),
            key_value_from(toks@, key@, 0) == key_value_from(toks@, key@, i as nat),
        decreases toks@.len() - i,
    {
        if is_ident_token(&toks[i], key) {
            let v = assigned(toks, i);
            if v.is_some() {
                return v;
            }
            if i + 1 < toks.len() {
                match &toks[i + 1] {
                    AttrToken::Group(g) => {
                        let w = group_value_of(g);
                        if w.is_some() {
                            return w;
                        }
                    },
                    _ => {},
                }
            }
        }
        i = i + 1;
    }
    None
}

/// The argument tokens of a `#[serde(...)]` attribute.
fn serde_list(a: &Attr) -> (r: Option<&Vec<AttrToken>>)
    ensures
        match r {
            Some(t) => serde_tokens(*a) == Some(t@),
            None => serde_tokens(*a) is None,
        },
{
    if str_eq(a.path.as_str(), "serde") {
        match &a.meta {
            AttrMeta::List(t) => Some(t),
            _ => None,
        }
    } else {
        None
    }
}

/// The value that the serde attributes give `key`: the first `key = "value"`,
/// or inside `key(...)` the `serialize` name, else the `deserialize` one.
pub fn serde_value(attrs: &Vec<Attr>, key: &str) -> (r: Option<String>)
    ensures
        opt_view(r) == serde_value_of(attrs@, key@),
{
    let mut k: usize = 0;
    while k < attrs.len()
        invariant
            k <= attrs@.len(),
            serde_value_of(attrs@, key@) == serde_value_from(attrs@, key@, k as nat),
        decreases attrs@.len() - k,
    {
        match serde_list(&attrs[k]) {
            Some(t) => {
                let v = key_value(t, key);
                if v.is_some() {
                    return v;
                }
            },
            None => {},
        }
        k = k + 1;
    }
    None
}

/// Whether some `#[serde(...)]` attribute names `key` among its top-level
/// tokens.
pub fn serde_has(attrs: &Vec<Attr>, key: &str) -> (r: bool)
    ensures
        r == serde_names(attrs@, key@),
{
    let mut k: usize = 0;
    while k < attrs.len()
        invariant
            k <= attrs@.len(),
            forall|a: int| 0 <= a < k ==> !names_key(#[trigger] attrs@[a], key@),
        decreases attrs@.len() - k,
    {
        match serde_list(&attrs[k]) {
            Some(t) => {
                let mut i: usize = 0;
                while i < t.len()
                    invariant
                        k < attrs@.len(),
                        i <= t@.len(),
                        serde_tokens(attrs@[k as int]) == Some(t@),
                        forall|a: int| 0 <= a < k ==> !names_key(#[trigger] attrs@[a], key@),
                        forall|j: int| 0 <= j < i ==> !is_ident(#[trigger] t@[j], key@),
                    decreases t@.len() - i,
                {
                    if is_ident_token(&t[i], key) {
                        let ghost u = t@;
                        assert(is_ident(u[i as int], key@));
                        assert(serde_tokens(attrs@[k as int])->0 == u);
                        assert(names_key(attrs@[k as int], key@));
                        return true;
                    }
                    i = i + 1;
                }
                assert(!names_key(attrs@[k as int], key@));
            },
            None => {},
        }
        k = k + 1;
    }
    false
}

// ---------------------------------------------------------------- doc comments

/// The line a `#[doc = "..."]` attribute contributes, trimmed.
pub open spec fn doc_line(a: Attr) -> Option<Seq<char>> {
    if a.path@ == "doc"@ {
        match a.meta {
            AttrMeta::NameValue(Some(s)) => Some(trimmed(s@)),
            _ => None,
        }
    } else {
        None
    }
}

/// The doc lines of `attrs`, in order.
pub open spec fn doc_lines(attrs: Seq<Attr>) -> Seq<Seq<char>>
    decreases attrs.len(),
{
    if attrs.len() == 0 {
        Seq::empty()
    } else {
        doc_lines(attrs.drop_last()) + match doc_line(attrs.last()) {
            Some(l) => seq![l],
            None => Seq::empty(),
        }
    }
}

/// The description a doc comment gives: its trimmed lines joined by newlines,
/// `None` without doc lines.
pub open spec fn doc_text(attrs: Seq<Attr>) -> Option<Seq<char>> {
    if doc_lines(attrs).len() == 0 {
        None
    } else {
        Some(join(doc_lines(attrs), "\n"@))
    }
}

/// The description that the doc comment among `attrs` gives.
pub fn extract_doc(attrs: &Vec<Attr>) -> (r: Option<String>)
    ensures
        opt_view(r) == doc_text(attrs@),
{
    let mut lines: Vec<String> = Vec::new();
    let mut k: usize = 0;
    while k < attrs.len()
        invariant
            k <= attrs@.len(),
            views(lines@) == doc_lines(attrs@.take(k as int)),
        decreases attrs@.len() - k,
    {
        let a = &attrs[k];
        assert(attrs@.take(k as int + 1).drop_last() == attrs@.take(k as int));
        assert(attrs@.take(k as int + 1).last() == attrs@[k as int]);
        if str_eq(a.path.as_str(), "doc") {
            match &a.meta {
                AttrMeta::NameValue(Some(s)) => {
                    let line = trim_text(s.as_str());
                    proof {
                        crate::text::lemma_views_push(lines@, line);
                    }
                    lines.push(line);
                },
                _ => {
                    assert(views(lines@) + Seq::<Seq<char>>::empty() == views(lines@));
                },
            }
        } else {
            assert(views(lines@) + Seq::<Seq<char>>::empty() == views(lines@));
        }
        k = k + 1;
    }
    assert(attrs@.take(k as int) == attrs@);
    if lines.len() == 0 {
        None
    } else {
        Some(join_strings(&lines, "\n"))
    }
}

/// The rename rule that the serde attributes set under `key` (`rename_all`,
/// `rename_all_fields`); without one, names are kept.
pub open spec fn rule_of(attrs: Seq<Attr>, key: Seq<char>) -> RenameRule {
    match serde_value_of(attrs, key) {
        Some(n) => RenameRule::spec_named(n),
        None => RenameRule::Unchanged,
    }
}

/// The rename rule that the serde attributes set under `key`.
pub fn rename_rule(attrs: &Vec<Attr>, key: &str) -> (r: RenameRule)
    ensures
        r == rule_of(attrs@, key@),
{
    match serde_value(attrs, key) {
        Some(n) => RenameRule::named(n.as_str()),
        None => RenameRule::Unchanged,
    }
}

// ---------------------------------------------------------------- type definitions

/// A field of a struct or of an enum variant.
#[derive(Debug)]
pub struct FieldDef {
    /// The field's identifier as written (empty for a tuple field).
    pub ident: String,
    pub attrs: Vec<Attr>,
    /// The maskoid of the field's type: what its `Maskoidy::maskoid` returned.
    pub maskoid: Maskoid,
}

/// The fields of a struct or of an enum variant.
#[derive(Debug)]
pub enum FieldsDef {
    Unit,
    Unnamed(Vec<FieldDef>),
    Named(Vec<FieldDef>),
}

/// A variant of an enum.
#[derive(Debug)]
pub struct VariantDef {
    pub ident: String,
    pub attrs: Vec<Attr>,
    pub fields: FieldsDef,
}

/// The body of a type definition.
#[derive(Debug)]
pub enum DataDef {
    Struct(FieldsDef),
    Enum(Vec<VariantDef>),
    Union,
}

/// A type definition that `#[derive(Maskoidy)]` is applied to.
#[derive(Debug)]
pub struct TypeDef {
    pub ident: String,
    pub attrs: Vec<Attr>,
    pub data: DataDef,
}

// ---------------------------------------------------------------- keys

/// The key of a named field: its `rename`, else its name (without `r#`) under
/// `rule`.
pub open spec fn field_key_of(f: FieldDef, rule: RenameRule) -> Seq<char> {
    match serde_value_of(f.attrs@, "rename"@) {
        Some(n) => n,
        None => rule.field_name(unraw_text(f.ident@)),
    }
}

/// The key of a named field can be formed: the camel-case rule slices off the
/// first character by byte, which needs a leading ASCII character.
pub open spec fn field_key_ok(f: FieldDef, rule: RenameRule) -> bool {
    serde_value_of(f.attrs@, "rename"@) is None && rule == RenameRule::Camel ==> ascii_head(
        pascal_field(unraw_text(f.ident@)),
    )
}

/// The tag of a variant: its `rename`, else its name (without `r#`) under `rule`.
pub open spec fn variant_key_of(v: VariantDef, rule: RenameRule) -> Seq<char> {
    match serde_value_of(v.attrs@, "rename"@) {
        Some(n) => n,
        None => rule.variant_name(unraw_text(v.ident@)),
    }
}

/// The tag of a variant can be formed (see [`field_key_ok`]).
pub open spec fn variant_key_ok(v: VariantDef, rule: RenameRule) -> bool {
    serde_value_of(v.attrs@, "rename"@) is None && rule == RenameRule::Camel ==> ascii_head(
        unraw_text(v.ident@),
    )
}

/// The rule for the fields of variant `v`: its own `rename_all`, else the
/// enum's `rename_all_fields`.
pub open spec fn variant_fields_rule(v: VariantDef, enum_attrs: Seq<Attr>) -> RenameRule {
    if rule_of(v.attrs@, "rename_all"@) == RenameRule::Unchanged {
        rule_of(enum_attrs, "rename_all_fields"@)
    } else {
        rule_of(v.attrs@, "rename_all"@)
    }
}

/// The keys of named fields, in order.
pub open spec fn field_keys(fs: Seq<FieldDef>, rule: RenameRule) -> Seq<Seq<char>> {
    fs.map_values(|f: FieldDef| field_key_of(f, rule))
}

/// The tags of variants, in order.
pub open spec fn variant_keys(vs: Seq<VariantDef>, rule: RenameRule) -> Seq<Seq<char>> {
    vs.map_values(|v: VariantDef| variant_key_of(v, rule))
}

/// Each key mapped to the last position that holds it.
pub open spec fn key_index(keys: Seq<Seq<char>>) -> Map<Seq<char>, int>
    decreases keys.len(),
{
    if keys.len() == 0 {
        Map::empty()
    } else {
        key_index(keys.drop_last()).insert(keys.last(), keys.len() - 1)
    }
}

/// `map` has one entry per distinct key of `keys`, and the entry under a key
/// meets `entry_ok` for the last position that holds the key: inserting the
/// entries in order, a later one replaces an earlier one with the same key.
pub open spec fn keyed_by(
    map: StrMap<MaskoidField>,
    keys: Seq<Seq<char>>,
    entry_ok: spec_fn(MaskoidField, int) -> bool,
) -> bool {
    &&& map.wf()
    &&& forall|q: Seq<char>| #[trigger] map.spec_get(q) is Some == key_index(keys).contains_key(q)
    &&& forall|q: Seq<char>|
        #![trigger map.spec_get(q)]
        key_index(keys).contains_key(q) ==> entry_ok(map.spec_get(q)->0, key_index(keys)[q])
}

// ---------------------------------------------------------------- what is built

/// A field entry carries the field's maskoid and its doc comment.
pub open spec fn field_entry_ok(mf: MaskoidField, f: FieldDef) -> bool {
    mf.maskoid == f.maskoid && opt_view(mf.description) == doc_text(f.attrs@)
}

/// The entry for position `i` of `fs` is made from that field.
pub open spec fn field_ok(fs: Seq<FieldDef>) -> spec_fn(MaskoidField, int) -> bool {
    |mf: MaskoidField, i: int| field_entry_ok(mf, fs[i])
}

/// Tuple elements made from the fields, one for one.
pub open spec fn elements_built(es: Seq<MaskoidField>, fs: Seq<FieldDef>) -> bool {
    es.len() == fs.len() && forall|i: int| 0 <= i < es.len() ==> field_entry_ok(#[trigger] es[i], fs[i])
}

/// `m` is `base` with the description `doc` set as `Maskoid::with_description`
/// sets it: on a record, union or tuple; other maskoids are kept as they are.
pub open spec fn described(base: Maskoid, doc: Option<Seq<char>>, m: Maskoid) -> bool {
    match doc {
        None => m == base,
        Some(d) => match base {
            Maskoid::Tuple(t) => m matches Maskoid::Tuple(t2) && t2.elements == t.elements && opt_view(
                t2.description,
            ) == Some(d),
            Maskoid::TaggedUnion(u) => m matches Maskoid::TaggedUnion(u2) && u2.variants == u.variants
                && opt_view(u2.description) == Some(d),
            Maskoid::Record(r) => m matches Maskoid::Record(r2) && r2.fields == r.fields && opt_view(
                r2.description,
            ) == Some(d),
            _ => m == base,
        },
    }
}

/// `m` is what the derive builds for `fields`, keys under `rule`, with the
/// description `doc`: `null` for no fields, the field's own maskoid for a
/// single unnamed field, a tuple for several, a record for named fields.
pub open spec fn fields_built(fields: FieldsDef, rule: RenameRule, doc: Option<Seq<char>>, m: Maskoid) -> bool {
    match fields {
        FieldsDef::Unit => m is Null,
        FieldsDef::Unnamed(fs) => if fs@.len() == 1 {
            described(fs@[0].maskoid, doc, m)
        } else {
            m matches Maskoid::Tuple(t) && opt_view(t.description) == doc && elements_built(
                t.elements@,
                fs@,
            )
        },
        FieldsDef::Named(fs) => m matches Maskoid::Record(r) && opt_view(r.description) == doc
            && keyed_by(r.fields, field_keys(fs@, rule), field_ok(fs@)),
    }
}

/// The entry of a variant carries what its fields build and its doc comment.
pub open spec fn variant_entry_ok(mf: MaskoidField, v: VariantDef, enum_attrs: Seq<Attr>) -> bool {
    fields_built(v.fields, variant_fields_rule(v, enum_attrs), None, mf.maskoid) && opt_view(
        mf.description,
    ) == doc_text(v.attrs@)
}

/// The entry for position `i` of `vs` is made from that variant.
pub open spec fn variant_ok(vs: Seq<VariantDef>, enum_attrs: Seq<Attr>) -> spec_fn(MaskoidField, int) -> bool {
    |mf: MaskoidField, i: int| variant_entry_ok(mf, vs[i], enum_attrs)
}

/// `m` is the maskoid that the derive builds for `def`: a struct by its fields,
/// an enum as a tagged union of its variants, either with the type's doc
/// comment as description.
pub open spec fn derived(def: TypeDef, m: Maskoid) -> bool {
    match def.data {
        DataDef::Struct(f) => fields_built(f, rule_of(def.attrs@, "rename_all"@), doc_text(def.attrs@), m),
        DataDef::Enum(vs) => m matches Maskoid::TaggedUnion(u) && opt_view(u.description) == doc_text(
            def.attrs@,
        ) && keyed_by(
            u.variants,
            variant_keys(vs@, rule_of(def.attrs@, "rename_all"@)),
            variant_ok(vs@, def.attrs@),
        ),
        DataDef::Union => false,
    }
}

/// The keys of `def` can all be formed.
pub open spec fn keys_ok(def: TypeDef) -> bool {
    match def.data {
        DataDef::Struct(f) => fields_keys_ok(f, rule_of(def.attrs@, "rename_all"@)),
        DataDef::Enum(vs) => variants_keys_ok(vs@, def.attrs@),
        _ => true,
    }
}

/// The keys of the named fields among `fields` can be formed under `rule`.
pub open spec fn fields_keys_ok(fields: FieldsDef, rule: RenameRule) -> bool {
    match fields {
        FieldsDef::Named(fs) => field_seq_keys_ok(fs@, rule),
        _ => true,
    }
}

/// The keys of the fields can be formed under `rule`.
pub open spec fn field_seq_keys_ok(fs: Seq<FieldDef>, rule: RenameRule) -> bool {
    forall|i: int| 0 <= i < fs.len() ==> field_key_ok(#[trigger] fs[i], rule)
}

/// The tags and keys of the variants can be formed.
pub open spec fn variants_keys_ok(vs: Seq<VariantDef>, enum_attrs: Seq<Attr>) -> bool {
    forall|i: int| 0 <= i < vs.len() ==> variant_keys_ok(#[trigger] vs[i], enum_attrs)
}

/// The tag of variant `v` and the keys of its named fields can be formed.
pub open spec fn variant_keys_ok(v: VariantDef, enum_attrs: Seq<Attr>) -> bool {
    &&& variant_key_ok(v, rule_of(enum_attrs, "rename_all"@))
    &&& fields_keys_ok(v.fields, variant_fields_rule(v, enum_attrs))
}

/// The container attribute, among `tag`, `content` and `untagged`, that the
/// derive refuses first.
pub open spec fn unsupported_key(attrs: Seq<Attr>) -> Option<Seq<char>> {
    if serde_names(attrs, "tag"@) {
        Some("tag"@)
    } else if serde_names(attrs, "content"@) {
        Some("content"@)
    } else if serde_names(attrs, "untagged"@) {
        Some("untagged"@)
    } else {
        None
    }
}

/// The error the derive reports for `def`, if any: a union representation
/// other than external tagging, or a Rust `union`.
pub open spec fn derive_error(def: TypeDef) -> Option<Seq<char>> {
    match unsupported_key(def.attrs@) {
        Some(k) => Some(
            "Maskoidy does not support #[serde("@ + k
                + ")]: schemask unions are always externally tagged"@,
        ),
        None => match def.data {
            DataDef::Enum(vs) => if exists|i: int|
                0 <= i < vs@.len() && serde_names(#[trigger] vs@[i].attrs@, "untagged"@) {
                Some("Maskoidy does not support #[serde(untagged)]: schemask unions are always externally tagged"@)
            } else {
                None
            },
            DataDef::Union => Some("Maskoidy does not support unions"@),
            DataDef::Struct(_) => None,
        },
    }
}

// ---------------------------------------------------------------- building

/// Inserting the entry for the next position keeps a map keyed by the keys so far.
proof fn lemma_keyed_push(
    a: StrMap<MaskoidField>,
    b: StrMap<MaskoidField>,
    keys: Seq<Seq<char>>,
    k: Seq<char>,
    v: MaskoidField,
    entry_ok: spec_fn(MaskoidField, int) -> bool,
)
    requires
        keyed_by(a, keys, entry_ok),
        b.wf(),
        b.spec_get(k) == Some(v),
        forall|q: Seq<char>| q != k ==> #[trigger] b.spec_get(q) == a.spec_get(q),
        entry_ok(v, keys.len() as int),
    ensures
        keyed_by(b, keys.push(k), entry_ok),
{
    assert(keys.push(k).drop_last() == keys);
    assert(key_index(keys.push(k)) == key_index(keys).insert(k, keys.len() as int));
    assert forall|q: Seq<char>| #[trigger] b.spec_get(q) is Some == key_index(keys.push(k)).contains_key(q) by {
        if q != k {
            assert(b.spec_get(q) == a.spec_get(q));
        }
    }
    assert forall|q: Seq<char>|
        #![trigger b.spec_get(q)]
        key_index(keys.push(k)).contains_key(q) implies entry_ok(b.spec_get(q)->0, key_index(keys.push(k))[q]) by {
        if q != k {
            assert(b.spec_get(q) == a.spec_get(q));
        }
    }
}

/// The key of a named field: its `rename`, else its name (without `r#`) under
/// `rule`.
pub fn field_key(field: &FieldDef, rule: RenameRule) -> (r: String)
    requires
        field_key_ok(*field, rule),
    ensures
        r@ == field_key_of(*field, rule),
{
    match serde_value(&field.attrs, "rename") {
        Some(n) => n,
        None => {
            let plain = unraw(field.ident.as_str());
            rule.apply_to_field(plain.as_str())
        },
    }
}

/// The tag of a variant: its `rename`, else its name (without `r#`) under `rule`.
fn variant_key(v: &VariantDef, rule: RenameRule) -> (r: String)
    requires
        variant_key_ok(*v, rule),
    ensures
        r@ == variant_key_of(*v, rule),
{
    match serde_value(&v.attrs, "rename") {
        Some(n) => n,
        None => {
            let plain = unraw(v.ident.as_str());
            rule.apply_to_variant(plain.as_str())
        },
    }
}

/// A field entry, described by `doc` when there is one.
fn field_entry(m: Maskoid, doc: Option<String>) -> (f: MaskoidField)
    ensures
        f.maskoid == m,
        opt_view(f.description) == opt_view(doc),
{
    match doc {
        Some(d) => MaskoidField::new(m).with_description(d.as_str()),
        None => MaskoidField::new(m),
    }
}

/// `m` described by `doc` when there is one.
fn apply_desc(m: Maskoid, doc: Option<String>) -> (r: Maskoid)
    ensures
        described(m, opt_view(doc), r),
{
    match doc {
        Some(d) => m.with_description(d.as_str()),
        None => m,
    }
}

/// The elements of a tuple, one per unnamed field.
fn tuple_elements(fs: Vec<FieldDef>) -> (r: Vec<MaskoidField>)
    ensures
        elements_built(r@, fs@),
{
    let ghost orig = fs@;
    let mut rest = fs;
    let mut out: Vec<MaskoidField> = Vec::new();
    while rest.len() > 0
        invariant
            out@.len() <= orig.len(),
            rest@ == orig.skip(out@.len() as int),
            forall|i: int| 0 <= i < out@.len() ==> field_entry_ok(#[trigger] out@[i], orig[i]),
        decreases rest@.len(),
    {
        let ghost n = out@.len() as int;
        let f = rest.remove(0);
        assert(f == orig[n]);
        assert(rest@ == orig.skip(n + 1));
        let doc = extract_doc(&f.attrs);
        let FieldDef { ident: _, attrs: _, maskoid } = f;
        out.push(field_entry(maskoid, doc));
        assert(field_entry_ok(out@[n], orig[n]));
    }
    out
}

/// The fields of a record, keyed under `rule`.
fn record_fields(fs: Vec<FieldDef>, rule: RenameRule) -> (r: StrMap<MaskoidField>)
    requires
        forall|i: int| 0 <= i < fs@.len() ==> field_key_ok(#[trigger] fs@[i], rule),
    ensures
        keyed_by(r, field_keys(fs@, rule), field_ok(fs@)),
{
    let ghost orig = fs@;
    let ghost keys = field_keys(orig, rule);
    let mut rest = fs;
    let mut map: StrMap<MaskoidField> = StrMap::new();
    let ghost mut n: int = 0;
    assert(keys.take(0) == Seq::<Seq<char>>::empty());
    while rest.len() > 0
        invariant
            0 <= n <= orig.len(),
            rest@ == orig.skip(n),
            keys == field_keys(orig, rule),
            keyed_by(map, keys.take(n), field_ok(orig)),
            forall|i: int| 0 <= i < orig.len() ==> field_key_ok(#[trigger] orig[i], rule),
        decreases rest@.len(),
    {
        let f = rest.remove(0);
        assert(f == orig[n]);
        let key = field_key(&f, rule);
        let doc = extract_doc(&f.attrs);
        let FieldDef { ident: _, attrs: _, maskoid } = f;
        let entry = field_entry(maskoid, doc);
        let ghost before = map;
        let ghost kv = key@;
        let ghost ev = entry;
        let _ = map.insert(key, entry);
        proof {
            assert(field_ok(orig)(ev, n));
            assert(keys.take(n).len() == n);
            lemma_keyed_push(before, map, keys.take(n), kv, ev, field_ok(orig));
            assert(keys.take(n).push(kv) == keys.take(n + 1));
            n = n + 1;
        }
    }
    assert(keys.take(n) == keys);
    map
}

/// What the fields build, keyed under `rule`, before any description.
fn build_fields(fields: FieldsDef, rule: RenameRule) -> (m: Maskoid)
    requires
        fields matches FieldsDef::Named(fs) ==> forall|i: int|
            0 <= i < fs@.len() ==> field_key_ok(#[trigger] fs@[i], rule),
    ensures
        fields_built(fields, rule, None, m),
{
    match fields {
        FieldsDef::Unit => Maskoid::null(),
        FieldsDef::Unnamed(fs) => {
            if fs.len() == 1 {
                let mut one = fs;
                let f = one.remove(0);
                f.maskoid
            } else {
                Maskoid::tuple(tuple_elements(fs))
            }
        },
        FieldsDef::Named(fs) => Maskoid::record(record_fields(fs, rule)),
    }
}

/// The variants of a tagged union, tagged under the enum's `rename_all`.
fn union_variants(vs: Vec<VariantDef>, enum_attrs: &Vec<Attr>) -> (r: StrMap<MaskoidField>)
    requires
        forall|i: int| 0 <= i < vs@.len() ==> variant_keys_ok(#[trigger] vs@[i], enum_attrs@),
    ensures
        keyed_by(r, variant_keys(vs@, rule_of(enum_attrs@, "rename_all"@)), variant_ok(vs@, enum_attrs@)),
{
    let ghost orig = vs@;
    let rule = rename_rule(enum_attrs, "rename_all");
    let fields_rule = rename_rule(enum_attrs, "rename_all_fields");
    let ghost keys = variant_keys(orig, rule);
    let mut rest = vs;
    let mut map: StrMap<MaskoidField> = StrMap::new();
    let ghost mut n: int = 0;
    assert(keys.take(0) == Seq::<Seq<char>>::empty());
    while rest.len() > 0
        invariant
            0 <= n <= orig.len(),
            rest@ == orig.skip(n),
            rule == rule_of(enum_attrs@, "rename_all"@),
            fields_rule == rule_of(enum_attrs@, "rename_all_fields"@),
            keys == variant_keys(orig, rule),
            keyed_by(map, keys.take(n), variant_ok(orig, enum_attrs@)),
            forall|i: int| 0 <= i < orig.len() ==> variant_keys_ok(#[trigger] orig[i], enum_attrs@),
        decreases rest@.len(),
    {
        let v = rest.remove(0);
        assert(v == orig[n]);
        assert(variant_keys_ok(orig[n], enum_attrs@));
        let key = variant_key(&v, rule);
        let own = rename_rule(&v.attrs, "rename_all");
        let frule = match own {
            RenameRule::Unchanged => fields_rule,
            r => r,
        };
        let doc = extract_doc(&v.attrs);
        let VariantDef { ident: _, attrs: _, fields } = v;
        let body = build_fields(fields, frule);
        let entry = field_entry(body, doc);
        let ghost before = map;
        let ghost kv = key@;
        let ghost ev = entry;
        let _ = map.insert(key, entry);
        proof {
            assert(variant_ok(orig, enum_attrs@)(ev, n));
            assert(keys.take(n).len() == n);
            lemma_keyed_push(before, map, keys.take(n), kv, ev, variant_ok(orig, enum_attrs@));
            assert(keys.take(n).push(kv) == keys.take(n + 1));
            n = n + 1;
        }
    }
    assert(keys.take(n) == keys);
    map
}

/// The message for a container attribute that the derive refuses.
fn unsupported(key: &str) -> (r: String)
    ensures
        r@ == "Maskoidy does not support #[serde("@ + key@
            + ")]: schemask unions are always externally tagged"@,
{
    let mut out = owned("Maskoidy does not support #[serde(");
    push_str(&mut out, key);
    push_str(&mut out, ")]: schemask unions are always externally tagged");
    out
}

/// The error the derive reports for `def`, if any (see [`derive_error`]).
pub fn refusal(def: &TypeDef) -> (r: Option<String>)
    ensures
        opt_view(r) == derive_error(*def),
{
    if serde_has(&def.attrs, "tag") {
        return Some(unsupported("tag"));
    }
    if serde_has(&def.attrs, "content") {
        return Some(unsupported("content"));
    }
    if serde_has(&def.attrs, "untagged") {
        return Some(unsupported("untagged"));
    }
    match &def.data {
        DataDef::Enum(vs) => {
            let mut i: usize = 0;
            while i < vs.len()
                invariant
                    i <= vs@.len(),
                    unsupported_key(def.attrs@) is None,
                    def.data == DataDef::Enum(*vs),
                    forall|j: int| 0 <= j < i ==> !serde_names(#[trigger] vs@[j].attrs@, "untagged"@),
                decreases vs@.len() - i,
            {
                if serde_has(&vs[i].attrs, "untagged") {
                    assert(serde_names(vs@[i as int].attrs@, "untagged"@));
                    return Some(
                        owned(
                            "Maskoidy does not support #[serde(untagged)]: schemask unions are always externally tagged",
                        ),
                    );
                }
                i = i + 1;
            }
            None
        },
        DataDef::Union => Some(owned("Maskoidy does not support unions")),
        DataDef::Struct(_) => None,
    }
}

/// The maskoid that `#[derive(Maskoidy)]` builds for `def`, or the error it
/// reports. Union representations other than external tagging (`tag`,
/// `content`, `untagged`) and Rust unions are refused. A struct is described by
/// its fields, an enum as a tagged union of its variants; keys follow serde's
/// `rename`, `rename_all` and `rename_all_fields`, and doc comments become
/// descriptions.
pub fn derive_maskoid(def: TypeDef) -> (r: Result<Maskoid, String>)
    requires
        derive_error(def) is None ==> keys_ok(def),
    ensures
        match derive_error(def) {
            Some(msg) => r matches Err(e) && e@ == msg,
            None => r matches Ok(m) && derived(def, m),
        },
{
    match refusal(&def) {
        Some(e) => {
            return Err(e);
        },
        None => {},
    }
    let doc = extract_doc(&def.attrs);
    let rule = rename_rule(&def.attrs, "rename_all");
    let TypeDef { ident: _, attrs, data } = def;
    match data {
        DataDef::Struct(fields) => {
            let base = build_fields(fields, rule);
            Ok(apply_desc(base, doc))
        },
        DataDef::Enum(vs) => {
            let variants = union_variants(vs, &attrs);
            Ok(apply_desc(Maskoid::tagged_union(variants), doc))
        },
        DataDef::Union => Err(owned("Maskoidy does not support unions")),
    }
}

/// The end of a derived `Maskoidy::maskoid`: the type's maskoid `m` is stored
/// under its `name`, and the type is referred to by that name.
pub fn bind(bindings: &mut StrMap<Maskoid>, name: &str, m: Maskoid) -> (r: Maskoid)
    requires
        old(bindings).wf(),
    ensures
        final(bindings).wf(),
        final(bindings).spec_get(name@) == Some(m),
        forall|q: Seq<char>| q != name@ ==> #[trigger] final(bindings).spec_get(q) == old(bindings).spec_get(q),
        r matches Maskoid::Ref(n) && n@ == name@,
{
    let _ = bindings.insert(owned(name), m);
    Maskoid::ref_(name)
}

/// What a derived `Maskoidy::maskoid` does once its type is first met (see
/// `first_encounter`): the definition `def`, holding the maskoids of its fields,
/// is derived; the result is stored under the type's `name`, and the type is
/// referred to by that name. A definition the derive refuses binds nothing.
pub fn bind_derived(bindings: &mut StrMap<Maskoid>, name: &str, def: TypeDef) -> (r: Result<Maskoid, String>)
    requires
        old(bindings).wf(),
        derive_error(def) is None ==> keys_ok(def),
    ensures
        final(bindings).wf(),
        match derive_error(def) {
            Some(msg) => r matches Err(e) && e@ == msg && *final(bindings) == *old(bindings),
            None => {
                &&& r matches Ok(m) && m matches Maskoid::Ref(n) && n@ == name@
                &&& final(bindings).spec_get(name@) matches Some(d) && derived(def, d)
                &&& forall|q: Seq<char>| q != name@ ==> #[trigger] final(bindings).spec_get(q) == old(bindings).spec_get(q)
            },
        },
{
    match derive_maskoid(def) {
        Ok(m) => Ok(bind(bindings, name, m)),
        Err(e) => Err(e),
    }
}

/// Whether the text starts with an ASCII character (see [`ascii_head`]).
fn has_ascii_head(s: &str) -> (r: bool)
    ensures
        r == ascii_head(s@),
{
    let cs = chars_of(s);
    cs.len() > 0 && (cs[0] as u32) < 128
}

/// Decides [`field_key_ok`].
fn field_key_can_form(f: &FieldDef, rule: RenameRule) -> (r: bool)
    ensures
        r == field_key_ok(*f, rule),
{
    if rule != RenameRule::Camel || serde_value(&f.attrs, "rename").is_some() {
        return true;
    }
    let plain = unraw(f.ident.as_str());
    let pascal = crate::rename::pascal_field_string(plain.as_str());
    has_ascii_head(pascal.as_str())
}

/// Decides whether every named field among `fields` has a key that can be formed under `rule`.
fn fields_keys_can_form(fields: &FieldsDef, rule: RenameRule) -> (r: bool)
    ensures
        r == fields_keys_ok(*fields, rule),
{
    match fields {
        FieldsDef::Named(fs) => {
            let mut i: usize = 0;
            while i < fs.len()
                invariant
                    *fields == FieldsDef::Named(*fs),
                    i <= fs@.len(),
                    forall|j: int| 0 <= j < i ==> field_key_ok(#[trigger] fs@[j], rule),
                decreases fs@.len() - i,
            {
                if !field_key_can_form(&fs[i], rule) {
                    assert(!field_key_ok(fs@[i as int], rule));
                    assert(!field_seq_keys_ok(fs@, rule));
                    return false;
                }
                i = i + 1;
            }
            true
        },
        _ => true,
    }
}

/// Decides [`keys_ok`].
pub fn keys_can_form(def: &TypeDef) -> (r: bool)
    ensures
        r == keys_ok(*def),
{
    let rule = rename_rule(&def.attrs, "rename_all");
    match &def.data {
        DataDef::Struct(fields) => fields_keys_can_form(fields, rule),
        DataDef::Enum(vs) => {
            let fields_rule = rename_rule(&def.attrs, "rename_all_fields");
            let mut i: usize = 0;
            while i < vs.len()
                invariant
                    i <= vs@.len(),
                    def.data == DataDef::Enum(*vs),
                    rule == rule_of(def.attrs@, "rename_all"@),
                    fields_rule == rule_of(def.attrs@, "rename_all_fields"@),
                    forall|j: int| 0 <= j < i ==> variant_keys_ok(#[trigger] vs@[j], def.attrs@),
                decreases vs@.len() - i,
            {
                let v = &vs[i];
                let tag_ok = rule != RenameRule::Camel || serde_value(&v.attrs, "rename").is_some() || {
                    let plain = unraw(v.ident.as_str());
                    has_ascii_head(plain.as_str())
                };
                let own = rename_rule(&v.attrs, "rename_all");
                let frule = match own {
                    RenameRule::Unchanged => fields_rule,
                    r => r,
                };
                if !tag_ok || !fields_keys_can_form(&v.fields, frule) {
                    assert(!variant_keys_ok(vs@[i as int], def.attrs@));
                    assert(!variants_keys_ok(vs@, def.attrs@));
                    return false;
                }
                i = i + 1;
            }
            true
        },
        DataDef::Union => true,
    }
}

/// [`bind_derived`] for a definition that nothing has checked: `None` when the
/// derive would refuse nothing but a camel-case key cannot be formed (the derive
/// panics slicing it); otherwise what [`bind_derived`] gives.
pub fn bind_derived_checked(bindings: &mut StrMap<Maskoid>, name: &str, def: TypeDef) -> (r: Option<
    Result<Maskoid, String>,
>)
    requires
        old(bindings).wf(),
    ensures
        final(bindings).wf(),
        r is None <==> (derive_error(def) is None && !keys_ok(def)),
        r is None ==> *final(bindings) == *old(bindings),
        r matches Some(x) ==> match derive_error(def) {
            Some(msg) => x matches Err(e) && e@ == msg && *final(bindings) == *old(bindings),
            None => {
                &&& x matches Ok(m) && m matches Maskoid::Ref(n) && n@ == name@
                &&& final(bindings).spec_get(name@) matches Some(d) && derived(def, d)
                &&& forall|q: Seq<char>|
                    q != name@ ==> #[trigger] final(bindings).spec_get(q) == old(bindings).spec_get(q)
            },
        },
{
    match refusal(&def) {
        Some(e) => Some(Err(e)),
        None => {
            if keys_can_form(&def) {
                Some(bind_derived(bindings, name, def))
            } else {
                None
            }
        },
    }
}

} // verus!
