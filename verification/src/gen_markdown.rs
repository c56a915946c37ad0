//! Markdown documentation of a schema: a section per binding, with a table for
//! records and tagged unions.
use crate::text::{
    join, join_strings, json_quoted, json_string_literal, lowercase, owned, push_replaced, push_str,
    replace_char, to_lowercase, views,
};
use crate::v1::{description_of, opt_view, Maskoid, MaskoidField, SchemaskV1};
use vstd::prelude::*;

verus! {

/// Text made safe for a table cell: `|` escaped, line breaks turned into spaces.
pub open spec fn md_escape(s: Seq<char>) -> Seq<char> {
    replace_char(replace_char(s, '|', "\\|"@), '\n', " "@)
}

/// The short type notation used in the tables.
pub open spec fn md_type(m: Maskoid) -> Seq<char>
    decreases m,
{
    match m {
        Maskoid::Null => "null"@,
        Maskoid::Any => "any"@,
        Maskoid::String => "string"@,
        Maskoid::ConstString(v) => json_quoted(v@),
        Maskoid::Bool => "boolean"@,
        Maskoid::Int => "integer"@,
        Maskoid::Float => "number"@,
        Maskoid::Ref(name) => "["@ + lowercase(name@) + "](#"@ + lowercase(name@) + ")"@,
        Maskoid::Option(inner) => md_type(*inner) + " | null"@,
        Maskoid::SetOf(inner) => "Set<"@ + md_type(*inner) + ">"@,
        Maskoid::List(inner) => "Array<"@ + md_type(*inner) + ">"@,
        Maskoid::StringMap(inner) => "Record<string, "@ + md_type(*inner) + ">"@,
        Maskoid::Tuple(t) => "["@ + join(md_element_parts(t.elements@), ", "@) + "]"@,
        Maskoid::Record(_) => "object"@,
        Maskoid::TaggedUnion(_) => "union"@,
    }
}

/// The notations of tuple elements.
pub open spec fn md_element_parts(e: Seq<MaskoidField>) -> Seq<Seq<char>>
    decreases e,
{
    if e.len() == 0 {
        Seq::empty()
    } else {
        md_element_parts(e.drop_last()).push(md_type(e.last().maskoid))
    }
}

/// The description of a field, or nothing.
pub open spec fn desc_or_empty(f: MaskoidField) -> Seq<char> {
    match opt_view(f.description) {
        Some(d) => d,
        None => Seq::empty(),
    }
}

/// A table row: `| NAME | TYPE | DESCRIPTION |` and a line break.
pub open spec fn md_row(name: Seq<char>, ty: Seq<char>, desc: Seq<char>) -> Seq<char> {
    "| "@ + md_escape(name) + " | "@ + ty + " | "@ + md_escape(desc) + " |\n"@
}

/// The rows of a record's fields.
pub open spec fn md_field_rows(e: Seq<(String, MaskoidField)>) -> Seq<char>
    decreases e.len(),
{
    if e.len() == 0 {
        Seq::empty()
    } else {
        md_field_rows(e.drop_last()) + md_row(
            e.last().0@,
            md_escape(md_type(e.last().1.maskoid)),
            desc_or_empty(e.last().1),
        )
    }
}

/// The type cell of a variant: a valueless variant is written as its name.
pub open spec fn md_variant_type(name: Seq<char>, f: MaskoidField) -> Seq<char> {
    if f.maskoid is Null {
        md_escape(json_quoted(name))
    } else {
        md_escape(md_type(f.maskoid))
    }
}

/// The rows of a tagged union's variants.
pub open spec fn md_variant_rows(e: Seq<(String, MaskoidField)>) -> Seq<char>
    decreases e.len(),
{
    if e.len() == 0 {
        Seq::empty()
    } else {
        md_variant_rows(e.drop_last()) + md_row(
            e.last().0@,
            md_variant_type(e.last().0@, e.last().1),
            desc_or_empty(e.last().1),
        )
    }
}

/// The body of a binding's section.
pub open spec fn md_body(m: Maskoid) -> Seq<char> {
    match m {
        Maskoid::Record(r) => "| Field | Type | Description |\n"@ + "|-------|------|-------------|\n"@
            + md_field_rows(r.fields.entries@),
        Maskoid::TaggedUnion(u) => "| Variant | Type | Description |\n"@
            + "|---------|------|-------------|\n"@ + md_variant_rows(u.variants.entries@),
        other => md_type(other) + "\n"@,
    }
}

/// A binding's section: heading, description paragraph, body, blank line.
pub open spec fn md_section(name: Seq<char>, m: Maskoid) -> Seq<char> {
    "## "@ + name + "\n\n"@ + (match description_of(m) {
        Some(d) => d + "\n\n"@,
        None => Seq::empty(),
    }) + md_body(m) + "\n"@
}

/// The sections of the bindings, in key order.
pub open spec fn md_sections(e: Seq<(String, Maskoid)>) -> Seq<char>
    decreases e.len(),
{
    if e.len() == 0 {
        Seq::empty()
    } else {
        md_sections(e.drop_last()) + md_section(e.last().0@, e.last().1)
    }
}

/// The whole Markdown text for a schema.
pub open spec fn markdown_text(schema: SchemaskV1) -> Seq<char> {
    md_sections(schema.bindings.entries@)
}

// ---------------------------------------------------------------- exec

fn push_escaped(out: &mut String, s: &str)
    ensures
        final(out)@ == old(out)@ + md_escape(s@),
{
    let once = crate::text::replaced(s, '|', "\\|");
    push_replaced(out, once.as_str(), '\n', " ");
}

fn json_literal(s: &str) -> (r: String)
    ensures
        r@ == json_quoted(s@),
{
    match json_string_literal(s) {
        Ok(t) => t,
        Err(_) => String::new(),
    }
}

/// The short type notation used in the tables.
pub fn md_type_string(m: &Maskoid) -> (r: String)
    ensures
        r@ == md_type(*m),
    decreases m,
{
    match m {
        Maskoid::Null => owned("null"),
        Maskoid::Any => owned("any"),
        Maskoid::String => owned("string"),
        Maskoid::ConstString(v) => json_literal(v.as_str()),
        Maskoid::Bool => owned("boolean"),
        Maskoid::Int => owned("integer"),
        Maskoid::Float => owned("number"),
        Maskoid::Ref(name) => {
            let lower = to_lowercase(name.as_str());
            let mut out = owned("[");
            push_str(&mut out, lower.as_str());
            push_str(&mut out, "](#");
            push_str(&mut out, lower.as_str());
            push_str(&mut out, ")");
            out
        },
        Maskoid::Option(inner) => {
            let mut out = md_type_string(inner);
            push_str(&mut out, " | null");
            out
        },
        Maskoid::SetOf(inner) => {
            let t = md_type_string(inner);
            let mut out = owned("Set<");
            push_str(&mut out, t.as_str());
            push_str(&mut out, ">");
            out
        },
        Maskoid::List(inner) => {
            let t = md_type_string(inner);
            let mut out = owned("Array<");
            push_str(&mut out, t.as_str());
            push_str(&mut out, ">");
            out
        },
        Maskoid::StringMap(inner) => {
            let t = md_type_string(inner);
            let mut out = owned("Record<string, ");
            push_str(&mut out, t.as_str());
            push_str(&mut out, ">");
            out
        },
        Maskoid::Tuple(t) => {
            let e = &t.elements;
            let mut parts: Vec<String> = Vec::new();
            let mut i: usize = 0;
            while i < e.len()
                invariant
                    i <= e@.len(),
                    views(parts@) == md_element_parts(e@.take(i as int)),
                    forall|j: int| 0 <= j < e@.len() ==> decreases_to!(*m => #[trigger] e@[j].maskoid),
                decreases e@.len() - i,
            {
                assert(decreases_to!(*m => e@[i as int].maskoid));
                let s = md_type_string(&e[i].maskoid);
                proof {
                    crate::text::lemma_views_push(parts@, s);
                    assert(e@.take(i as int + 1).drop_last() == e@.take(i as int));
                }
                parts.push(s);
                i = i + 1;
            }
            assert(e@.take(i as int) == e@);
            let joined = join_strings(&parts, ", ");
            let mut out = owned("[");
            push_str(&mut out, joined.as_str());
            push_str(&mut out, "]");
            out
        },
        Maskoid::Record(_) => owned("object"),
        Maskoid::TaggedUnion(_) => owned("union"),
    }
}

fn push_row(out: &mut String, name: &str, ty: &str, f: &MaskoidField)
    ensures
        final(out)@ == old(out)@ + md_row(name@, ty@, desc_or_empty(*f)),
{
    push_str(out, "| ");
    push_escaped(out, name);
    push_str(out, " | ");
    push_str(out, ty);
    push_str(out, " | ");
    match &f.description {
        Some(d) => push_escaped(out, d.as_str()),
        None => {
            assert(md_escape(Seq::<char>::empty()) == Seq::<char>::empty());
        },
    }
    push_str(out, " |\n");
}

fn push_body(out: &mut String, m: &Maskoid)
    ensures
        final(out)@ == old(out)@ + md_body(*m),
{
    match m {
        Maskoid::Record(r) => {
            push_str(out, "| Field | Type | Description |\n");
            push_str(out, "|-------|------|-------------|\n");
            let ghost head = out@;
            let e = &r.fields.entries;
            let mut i: usize = 0;
            while i < e.len()
                invariant
                    i <= e@.len(),
                    out@ == head + md_field_rows(e@.take(i as int)),
                decreases e@.len() - i,
            {
                assert(e@.take(i as int + 1).drop_last() == e@.take(i as int));
                let t = md_type_string(&e[i].1.maskoid);
                let ty = crate::text::replaced(t.as_str(), '|', "\\|");
                let mut cell = String::new();
                push_replaced(&mut cell, ty.as_str(), '\n', " ");
                push_row(out, e[i].0.as_str(), cell.as_str(), &e[i].1);
                i = i + 1;
            }
            assert(e@.take(i as int) == e@);
        },
        Maskoid::TaggedUnion(u) => {
            push_str(out, "| Variant | Type | Description |\n");
            push_str(out, "|---------|------|-------------|\n");
            let ghost head = out@;
            let e = &u.variants.entries;
            let mut i: usize = 0;
            while i < e.len()
                invariant
                    i <= e@.len(),
                    out@ == head + md_variant_rows(e@.take(i as int)),
                decreases e@.len() - i,
            {
                assert(e@.take(i as int + 1).drop_last() == e@.take(i as int));
                let valueless = match &e[i].1.maskoid {
                    Maskoid::Null => true,
                    _ => false,
                };
                let t = if valueless {
                    json_literal(e[i].0.as_str())
                } else {
                    md_type_string(&e[i].1.maskoid)
                };
                let mut cell = String::new();
                push_escaped(&mut cell, t.as_str());
                push_row(out, e[i].0.as_str(), cell.as_str(), &e[i].1);
                i = i + 1;
            }
            assert(e@.take(i as int) == e@);
        },
        other => {
            let t = md_type_string(other);
            push_str(out, t.as_str());
            push_str(out, "\n");
        },
    }
}

/// Generate markdown documentation for a schema.
pub fn generate_markdown(schema: &SchemaskV1) -> (r: String)
    requires
        crate::v1::schema_wf(*schema),
    ensures
        r@ == markdown_text(*schema),
{
    let mut out = String::new();
    let e = &schema.bindings.entries;
    let mut i: usize = 0;
    while i < e.len()
        invariant
            i <= e@.len(),
            out@ == md_sections(e@.take(i as int)),
        decreases e@.len() - i,
    {
        assert(e@.take(i as int + 1).drop_last() == e@.take(i as int));
        push_str(&mut out, "## ");
        push_str(&mut out, e[i].0.as_str());
        push_str(&mut out, "\n\n");
        match e[i].1.description() {
            Some(d) => {
                push_str(&mut out, d);
                push_str(&mut out, "\n\n");
            },
            None => {},
        }
        push_body(&mut out, &e[i].1);
        push_str(&mut out, "\n");
        i = i + 1;
    }
    assert(e@.take(i as int) == e@);
    out
}

} // verus!
