//! Schemask: a small data-validation schema language, its validator, and
//! generators of TypeScript, Rust and Markdown descriptions of schemas.
use vstd::prelude::*;

pub mod derivation;
pub mod json;
pub mod laws;
pub mod maskoidy;
pub mod rename;
pub mod strmap;
pub mod text;
pub mod gen_markdown;
pub mod gen_rust;
pub mod gen_typescript;
pub mod v1;
pub mod validate;

verus! {

/// Versioned schemask enum. Currently only has a V1 variant.
#[derive(Debug)]
pub enum Schemask {
    V1(v1::SchemaskV1),
}

/// The version 1 schema inside a versioned one.
pub open spec fn schema_v1(s: Schemask) -> v1::SchemaskV1 {
    match s {
        Schemask::V1(v) => v,
    }
}

impl Schemask {
    /// Whether every map in the schema keeps its keys strictly increasing, as
    /// the ordered maps of the schema language do.
    pub fn is_wf(&self) -> (r: bool)
        ensures
            r == v1::schema_wf(schema_v1(*self)),
    {
        match self {
            Schemask::V1(s) => s.is_wf(),
        }
    }
}

/// This is the main method for checking data against a schema. If the data is
/// valid it will return `Ok(())`, otherwise an error.
pub fn validate(schema: &Schemask, root: Option<String>, data: &json::JsonValue) -> (r: Result<
    (),
    v1::Invalid,
>)
    requires
        v1::schema_wf(schema_v1(*schema)),
        json::json_wf(*data),
        validate::validate_terminates(schema_v1(*schema), root, *data),
    ensures
        validate::outcome_view(r) == validate::validate_outcome(schema_v1(*schema), root, *data),
        r matches Err(inv) ==> inv.errors@.len() > 0,
{
    match schema {
        Schemask::V1(s) => validate::validate(s, root, data),
    }
}

/// [`validate`] for a schema that nothing has checked: `None` when some chain
/// of references that matching can reach from the root may loop without
/// descending into the data, otherwise what [`validate`] answers.
pub fn validate_settled(schema: &Schemask, root: Option<String>, data: &json::JsonValue) -> (r: Option<
    Result<(), v1::Invalid>,
>)
    requires
        v1::schema_wf(schema_v1(*schema)),
        json::json_wf(*data),
    ensures
        r is None <==> !validate::root_settles(schema_v1(*schema), root, validate::settle_bound(schema_v1(*schema))),
        r matches Some(x) ==> validate::outcome_view(x) == validate::validate_outcome(
            schema_v1(*schema),
            root,
            *data,
        ),
        r matches Some(Err(inv)) ==> inv.errors@.len() > 0,
{
    match schema {
        Schemask::V1(s) => validate::validate_settled(s, root, data),
    }
}

/// Generate rust types that would serialize to json that matches a schema.
pub fn generate_rust(schema: &Schemask) -> (r: String)
    requires
        v1::schema_wf(schema_v1(*schema)),
    ensures
        r@ == gen_rust::rust_text(schema_v1(*schema)),
{
    match schema {
        Schemask::V1(s) => gen_rust::generate_rust(s),
    }
}

/// Generate typescript types that, if used to produce data, would serialize to
/// json that matches a schema.
pub fn generate_typescript(schema: &Schemask) -> (r: String)
    requires
        v1::schema_wf(schema_v1(*schema)),
    ensures
        r@ == gen_typescript::typescript_text(schema_v1(*schema)),
{
    match schema {
        Schemask::V1(s) => gen_typescript::generate_typescript(s),
    }
}

/// Generate markdown documentation for a schemask.
pub fn generate_markdown(schema: &Schemask) -> (r: String)
    requires
        v1::schema_wf(schema_v1(*schema)),
    ensures
        r@ == gen_markdown::markdown_text(schema_v1(*schema)),
{
    match schema {
        Schemask::V1(s) => gen_markdown::generate_markdown(s),
    }
}

} // verus!
