//! TypeScript type definitions that describe the JSON a schema accepts.
use crate::strmap::StrMap;
use crate::text::{join, join_strings, owned, push_replaced, push_str, replace_char, views};
use crate::v1::{description_of, Maskoid, MaskoidField, MaskoidRecord, SchemaskV1};
use vstd::prelude::*;

verus! {

/// The TypeScript string literal type for a constant string: quoted, with `\`
/// and `"` escaped by a backslash.
pub open spec fn ts_string_literal(v: Seq<char>) -> Seq<char> {
    "\""@ + replace_char(replace_char(v, '\\', "\\\\"@), '"', "\\\""@) + "\""@
}

/// The TypeScript type expression for a maskoid.
pub open spec fn ts_type(m: Maskoid) -> Seq<char>
    decreases m,
{
    match m {
        Maskoid::Null => "null"@,
        Maskoid::Any => "any"@,
        Maskoid::String => "string"@,
        Maskoid::ConstString(v) => ts_string_literal(v@),
        Maskoid::Bool => "boolean"@,
        Maskoid::Int => "number"@,
        Maskoid::Float => "number"@,
        Maskoid::Ref(name) => name@,
        Maskoid::Option(inner) => if *inner is Option {
            "{ element: "@ + ts_type(*inner) + " } | null"@
        } else {
            ts_type(*inner) + " | null"@
        },
        Maskoid::SetOf(inner) => "Array<"@ + ts_type(*inner) + ">"@,
        Maskoid::List(inner) => "Array<"@ + ts_type(*inner) + ">"@,
        Maskoid::StringMap(inner) => "Record<string, "@ + ts_type(*inner) + ">"@,
        Maskoid::Tuple(t) => "["@ + join(ts_element_parts(t.elements@), ", "@) + "]"@,
        Maskoid::TaggedUnion(u) => join(ts_variant_parts(u.variants.entries@), "\n  | "@),
        Maskoid::Record(r) => "{\n"@ + join(ts_field_parts(r.fields.entries@), ";\n"@) + ";\n}"@,
    }
}

/// The types of tuple elements.
pub open spec fn ts_element_parts(e: Seq<MaskoidField>) -> Seq<Seq<char>>
    decreases e,
{
    if e.len() == 0 {
        Seq::empty()
    } else {
        ts_element_parts(e.drop_last()).push(ts_type(e.last().maskoid))
    }
}

/// `/** DESC */ ` when there is a description.
pub open spec fn jsdoc_inline(d: Option<Seq<char>>) -> Seq<char> {
    match d {
        Some(d) => "/** "@ + d + " */ "@,
        None => Seq::empty(),
    }
}

/// `/** DESC */` and a line break when there is a description.
pub open spec fn jsdoc_block(d: Option<Seq<char>>) -> Seq<char> {
    match d {
        Some(d) => "/** "@ + d + " */\n"@,
        None => Seq::empty(),
    }
}

/// The description of a field, as characters.
pub open spec fn field_doc(f: MaskoidField) -> Option<Seq<char>> {
    crate::v1::opt_view(f.description)
}

/// `DOC{ NAME: TYPE }` for each variant.
pub open spec fn ts_variant_parts(e: Seq<(String, MaskoidField)>) -> Seq<Seq<char>>
    decreases e,
{
    if e.len() == 0 {
        Seq::empty()
    } else {
        ts_variant_parts(e.drop_last()).push(
            jsdoc_inline(field_doc(e.last().1)) + "{ "@ + e.last().0@ + ": "@ + ts_type(e.last().1.maskoid)
                + " }"@,
        )
    }
}

/// One record field: an option field may be left out (`?`) and also be null.
pub open spec fn ts_field(name: Seq<char>, f: MaskoidField) -> Seq<char>
    decreases f,
{
    let doc = match field_doc(f) {
        Some(d) => "  /** "@ + d + " */\n"@,
        None => Seq::empty(),
    };
    match f.maskoid {
        Maskoid::Option(inner) => if *inner is Option {
            doc + "  "@ + name + "?: { element: "@ + ts_type(*inner) + " } | null"@
        } else {
            doc + "  "@ + name + "?: "@ + ts_type(*inner) + " | null"@
        },
        other => doc + "  "@ + name + ": "@ + ts_type(other),
    }
}

/// The record fields, one part each.
pub open spec fn ts_field_parts(e: Seq<(String, MaskoidField)>) -> Seq<Seq<char>>
    decreases e,
{
    if e.len() == 0 {
        Seq::empty()
    } else {
        ts_field_parts(e.drop_last()).push(ts_field(e.last().0@, e.last().1))
    }
}

} // verus!

verus! {

fn opt_doc(d: &Option<String>) -> (r: Option<&str>)
    ensures
        r is Some == d is Some,
        r matches Some(x) ==> crate::v1::opt_view(*d) == Some(x@),
{
    match d {
        Some(x) => Some(x.as_str()),
        None => None,
    }
}

/// The TypeScript type expression for a maskoid.
pub fn ts_type_string(m: &Maskoid) -> (r: String)
    ensures
        r@ == ts_type(*m),
    decreases m,
{
    match m {
        Maskoid::Null => owned("null"),
        Maskoid::Any => owned("any"),
        Maskoid::String => owned("string"),
        Maskoid::ConstString(v) => {
            let mut out = owned("\"");
            let once = crate::text::replaced(v.as_str(), '\\', "\\\\");
            push_replaced(&mut out, once.as_str(), '"', "\\\"");
            push_str(&mut out, "\"");
            out
        },
        Maskoid::Bool => owned("boolean"),
        Maskoid::Int => owned("number"),
        Maskoid::Float => owned("number"),
        Maskoid::Ref(name) => owned(name.as_str()),
        Maskoid::Option(inner) => {
            let nested = match &**inner {
                Maskoid::Option(_) => true,
                _ => false,
            };
            let t = ts_type_string(inner);
            if nested {
                let mut out = owned("{ element: ");
                push_str(&mut out, t.as_str());
                push_str(&mut out, " } | null");
                out
            } else {
                let mut out = t;
                push_str(&mut out, " | null");
                out
            }
        },
        Maskoid::SetOf(inner) => {
            let t = ts_type_string(inner);
            let mut out = owned("Array<");
            push_str(&mut out, t.as_str());
            push_str(&mut out, ">");
            out
        },
        Maskoid::List(inner) => {
            let t = ts_type_string(inner);
            let mut out = owned("Array<");
            push_str(&mut out, t.as_str());
            push_str(&mut out, ">");
            out
        },
        Maskoid::StringMap(inner) => {
            let t = ts_type_string(inner);
            let mut out = owned("Record<string, ");
            push_str(&mut out, t.as_str());
            push_str(&mut out, ">");
            out
        },
        Maskoid::Tuple(t) => {
            let e = &t.elements;
            let mut parts: Vec<String> = Vec::new();
            let mut i: usize = 0;
            while i < e.len()
                invariant
                    i <= e@.len(),
                    views(parts@) == ts_element_parts(e@.take(i as int)),
                    forall|j: int| 0 <= j < e@.len() ==> decreases_to!(*m => #[trigger] e@[j].maskoid),
                decreases e@.len() - i,
            {
                assert(decreases_to!(*m => e@[i as int].maskoid));
                let s = ts_type_string(&e[i].maskoid);
                proof {
                    crate::text::lemma_views_push(parts@, s);
                    assert(e@.take(i as int + 1).drop_last() == e@.take(i as int));
                }
                parts.push(s);
                i = i + 1;
            }
            assert(e@.take(i as int) == e@);
            let joined = join_strings(&parts, ", ");
            let mut out = owned("[");
            push_str(&mut out, joined.as_str());
            push_str(&mut out, "]");
            out
        },
        Maskoid::TaggedUnion(u) => {
            let e = &u.variants.entries;
            let mut parts: Vec<String> = Vec::new();
            let mut i: usize = 0;
            while i < e.len()
                invariant
                    i <= e@.len(),
                    views(parts@) == ts_variant_parts(e@.take(i as int)),
                    forall|j: int|
                        0 <= j < e@.len() ==> decreases_to!(*m => #[trigger] e@[j].1.maskoid),
                decreases e@.len() - i,
            {
                assert(decreases_to!(*m => e@[i as int].1.maskoid));
                let mut s = String::new();
                match opt_doc(&e[i].1.description) {
                    Some(d) => {
                        push_str(&mut s, "/** ");
                        push_str(&mut s, d);
                        push_str(&mut s, " */ ");
                    },
                    None => {},
                }
                push_str(&mut s, "{ ");
                push_str(&mut s, e[i].0.as_str());
                push_str(&mut s, ": ");
                let t = ts_type_string(&e[i].1.maskoid);
                push_str(&mut s, t.as_str());
                push_str(&mut s, " }");
                proof {
                    crate::text::lemma_views_push(parts@, s);
                    assert(e@.take(i as int + 1).drop_last() == e@.take(i as int));
                }
                parts.push(s);
                i = i + 1;
            }
            assert(e@.take(i as int) == e@);
            join_strings(&parts, "\n  | ")
        },
        Maskoid::Record(r) => {
            let e = &r.fields.entries;
            let mut parts: Vec<String> = Vec::new();
            let mut i: usize = 0;
            while i < e.len()
                invariant
                    i <= e@.len(),
                    views(parts@) == ts_field_parts(e@.take(i as int)),
                    forall|j: int| 0 <= j < e@.len() ==> decreases_to!(*m => #[trigger] e@[j].1),
                decreases e@.len() - i,
            {
                assert(decreases_to!(*m => e@[i as int].1));
                let s = ts_field_string(e[i].0.as_str(), &e[i].1);
                proof {
                    crate::text::lemma_views_push(parts@, s);
                    assert(e@.take(i as int + 1).drop_last() == e@.take(i as int));
                }
                parts.push(s);
                i = i + 1;
            }
            assert(e@.take(i as int) == e@);
            let joined = join_strings(&parts, ";\n");
            let mut out = owned("{\n");
            push_str(&mut out, joined.as_str());
            push_str(&mut out, ";\n}");
            out
        },
    }
}

fn ts_field_string(name: &str, f: &MaskoidField) -> (r: String)
    ensures
        r@ == ts_field(name@, *f),
    decreases f,
{
    let mut s = String::new();
    match opt_doc(&f.description) {
        Some(d) => {
            push_str(&mut s, "  /** ");
            push_str(&mut s, d);
            push_str(&mut s, " */\n");
        },
        None => {},
    }
    push_str(&mut s, "  ");
    push_str(&mut s, name);
    match &f.maskoid {
        Maskoid::Option(inner) => {
            let nested = match &**inner {
                Maskoid::Option(_) => true,
                _ => false,
            };
            let t = ts_type_string(inner);
            if nested {
                push_str(&mut s, "?: { element: ");
                push_str(&mut s, t.as_str());
                push_str(&mut s, " } | null");
            } else {
                push_str(&mut s, "?: ");
                push_str(&mut s, t.as_str());
                push_str(&mut s, " | null");
            }
        },
        other => {
            push_str(&mut s, ": ");
            let t = ts_type_string(other);
            push_str(&mut s, t.as_str());
        },
    }
    s
}

} // verus!

verus! {

/// `DOC` and `type NAME = TYPE;` with a line break, for one binding.
pub open spec fn ts_binding(name: Seq<char>, m: Maskoid) -> Seq<char> {
    jsdoc_block(description_of(m)) + "type "@ + name + " = "@ + ts_type(m) + ";\n"@
}

/// One definition per binding, in key order.
pub open spec fn ts_binding_parts(e: Seq<(String, Maskoid)>) -> Seq<Seq<char>>
    decreases e.len(),
{
    if e.len() == 0 {
        Seq::empty()
    } else {
        ts_binding_parts(e.drop_last()).push(ts_binding(e.last().0@, e.last().1))
    }
}

/// The whole TypeScript text for a schema: the bindings' definitions separated
/// by blank lines.
pub open spec fn typescript_text(schema: SchemaskV1) -> Seq<char> {
    join(ts_binding_parts(schema.bindings.entries@), "\n"@)
}

/// Generate typescript types that, if used to produce data, would serialize to
/// json that matches a schema.
pub fn generate_typescript(schema: &SchemaskV1) -> (r: String)
    requires
        crate::v1::schema_wf(*schema),
    ensures
        r@ == typescript_text(*schema),
{
    let e = &schema.bindings.entries;
    let mut parts: Vec<String> = Vec::new();
    let mut i: usize = 0;
    while i < e.len()
        invariant
            i <= e@.len(),
            views(parts@) == ts_binding_parts(e@.take(i as int)),
        decreases e@.len() - i,
    {
        let mut s = String::new();
        match e[i].1.description() {
            Some(d) => {
                push_str(&mut s, "/** ");
                push_str(&mut s, d);
                push_str(&mut s, " */\n");
            },
            None => {},
        }
        push_str(&mut s, "type ");
        push_str(&mut s, e[i].0.as_str());
        push_str(&mut s, " = ");
        let t = ts_type_string(&e[i].1);
        push_str(&mut s, t.as_str());
        push_str(&mut s, ";\n");
        proof {
            crate::text::lemma_views_push(parts@, s);
            assert(e@.take(i as int + 1).drop_last() == e@.take(i as int));
        }
        parts.push(s);
        i = i + 1;
    }
    assert(e@.take(i as int) == e@);
    join_strings(&parts, "\n")
}

} // verus!
