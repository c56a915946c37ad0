//! Properties of validation that hold for every schema and value: the result
//! does not depend on how much recursion was allowed, and each kind of maskoid
//! accepts exactly the values that the schema language describes.
use crate::json::{json_eq, lemma_json_eq_symmetric, JsonValue};
use crate::strmap::{find_key, has_key, lemma_find_key_bounds, lookup, StrMap};
use crate::v1::{ErrorView, Maskoid, MaskoidField, PathView, SchemaskV1};
use crate::validate::{
    cat, dup_errors, dup_row, entries_refs, fields_refs, names_settled, refs_in, refs_list, schema_settles, settles,
    settles_within, field_errors, fields_errors, items_errors, match_errors, match_terminates,
    no_errors, one, settle_chain, settle_step, tuple_errors, union_errors, unexpected_errors, validation_errors, values_errors,
};
use vstd::prelude::*;

verus! {

// ---------------------------------------------------------------- fuel

/// More recursion allowance changes nothing once matching has come to an end.
pub proof fn lemma_fuel_mono(
    schema: SchemaskV1,
    m: Maskoid,
    data: JsonValue,
    path: Seq<PathView>,
    f1: nat,
    f2: nat,
)
    requires
        f1 <= f2,
        match_errors(schema, m, data, path, f1) is Some,
    ensures
        match_errors(schema, m, data, path, f2) == match_errors(schema, m, data, path, f1),
    decreases f1, 0int,
{
    let g1 = (f1 - 1) as nat;
    let g2 = (f2 - 1) as nat;
    match m {
        Maskoid::Ref(name) => {
            if let Some(inner) = lookup(schema.bindings.entries@, name@) {
                lemma_fuel_mono(schema, inner, data, path, g1, g2);
            }
        },
        Maskoid::Option(inner) => {
            if !(data is Null) {
                if *inner is Option {
                    if let JsonValue::Object(obj) = data {
                        if obj.entries@.len() == 1 && has_key(obj.entries@, "element"@) {
                            lemma_fuel_mono(
                                schema,
                                *inner,
                                lookup(obj.entries@, "element"@).unwrap(),
                                path.push(PathView::Key("element"@)),
                                g1,
                                g2,
                            );
                        }
                    }
                } else {
                    lemma_fuel_mono(schema, *inner, data, path, g1, g2);
                }
            }
        },
        Maskoid::SetOf(inner) => {
            if let JsonValue::Array(arr) = data {
                lemma_items_mono(schema, *inner, arr@, path, 0, g1, g2);
            }
        },
        Maskoid::List(inner) => {
            if let JsonValue::Array(arr) = data {
                lemma_items_mono(schema, *inner, arr@, path, 0, g1, g2);
            }
        },
        Maskoid::StringMap(inner) => {
            if let JsonValue::Object(obj) = data {
                lemma_values_mono(schema, *inner, obj.entries@, path, 0, g1, g2);
            }
        },
        Maskoid::Tuple(t) => {
            if let JsonValue::Array(arr) = data {
                if arr@.len() == t.elements@.len() {
                    lemma_tuple_mono(schema, t.elements@, arr@, path, 0, g1, g2);
                }
            }
        },
        Maskoid::TaggedUnion(u) => {
            lemma_union_mono(schema, u.variants, data, path, g1, g2);
        },
        Maskoid::Record(r) => {
            if let JsonValue::Object(obj) = data {
                lemma_fields_mono(schema, r.fields.entries@, obj.entries@, path, 0, g1, g2);
            }
        },
        _ => {},
    }
}

proof fn lemma_items_mono(
    schema: SchemaskV1,
    inner: Maskoid,
    arr: Seq<JsonValue>,
    path: Seq<PathView>,
    i: nat,
    f1: nat,
    f2: nat,
)
    requires
        f1 <= f2,
        items_errors(schema, inner, arr, path, i, f1) is Some,
    ensures
        items_errors(schema, inner, arr, path, i, f2) == items_errors(schema, inner, arr, path, i, f1),
    decreases f1, arr.len() - i,
{
    if i < arr.len() {
        lemma_fuel_mono(schema, inner, arr[i as int], path.push(PathView::Index(i as usize)), f1, f2);
        lemma_items_mono(schema, inner, arr, path, i + 1, f1, f2);
    }
}

proof fn lemma_values_mono(
    schema: SchemaskV1,
    inner: Maskoid,
    e: Seq<(String, JsonValue)>,
    path: Seq<PathView>,
    i: nat,
    f1: nat,
    f2: nat,
)
    requires
        f1 <= f2,
        values_errors(schema, inner, e, path, i, f1) is Some,
    ensures
        values_errors(schema, inner, e, path, i, f2) == values_errors(schema, inner, e, path, i, f1),
    decreases f1, e.len() - i,
{
    if i < e.len() {
        lemma_fuel_mono(schema, inner, e[i as int].1, path.push(PathView::Key(e[i as int].0@)), f1, f2);
        lemma_values_mono(schema, inner, e, path, i + 1, f1, f2);
    }
}

proof fn lemma_tuple_mono(
    schema: SchemaskV1,
    elements: Seq<MaskoidField>,
    arr: Seq<JsonValue>,
    path: Seq<PathView>,
    i: nat,
    f1: nat,
    f2: nat,
)
    requires
        f1 <= f2,
        tuple_errors(schema, elements, arr, path, i, f1) is Some,
    ensures
        tuple_errors(schema, elements, arr, path, i, f2) == tuple_errors(schema, elements, arr, path, i, f1),
    decreases f1, arr.len() - i,
{
    if i < arr.len() {
        lemma_fuel_mono(
            schema,
            elements[i as int].maskoid,
            arr[i as int],
            path.push(PathView::Index(i as usize)),
            f1,
            f2,
        );
        lemma_tuple_mono(schema, elements, arr, path, i + 1, f1, f2);
    }
}

proof fn lemma_union_mono(
    schema: SchemaskV1,
    variants: StrMap<MaskoidField>,
    data: JsonValue,
    path: Seq<PathView>,
    f1: nat,
    f2: nat,
)
    requires
        f1 <= f2,
        union_errors(schema, variants, data, path, f1) is Some,
    ensures
        union_errors(schema, variants, data, path, f2) == union_errors(schema, variants, data, path, f1),
    decreases f1, 1int,
{
    if let JsonValue::Object(obj) = data {
        if obj.entries@.len() == 1 {
            let tag = obj.entries@[0].0;
            if let Some(v) = lookup(variants.entries@, tag@) {
                lemma_fuel_mono(schema, v.maskoid, obj.entries@[0].1, path.push(PathView::Key(tag@)), f1, f2);
            }
        }
    }
}

proof fn lemma_field_mono(
    schema: SchemaskV1,
    name: String,
    field: MaskoidField,
    obj: Seq<(String, JsonValue)>,
    path: Seq<PathView>,
    f1: nat,
    f2: nat,
)
    requires
        f1 <= f2,
        field_errors(schema, name, field, obj, path, f1) is Some,
    ensures
        field_errors(schema, name, field, obj, path, f2) == field_errors(schema, name, field, obj, path, f1),
    decreases f1, 1int,
{
    if let Some(v) = lookup(obj, name@) {
        lemma_fuel_mono(schema, field.maskoid, v, path.push(PathView::Key(name@)), f1, f2);
    }
}

proof fn lemma_fields_mono(
    schema: SchemaskV1,
    fields: Seq<(String, MaskoidField)>,
    obj: Seq<(String, JsonValue)>,
    path: Seq<PathView>,
    i: nat,
    f1: nat,
    f2: nat,
)
    requires
        f1 <= f2,
        fields_errors(schema, fields, obj, path, i, f1) is Some,
    ensures
        fields_errors(schema, fields, obj, path, i, f2) == fields_errors(schema, fields, obj, path, i, f1),
    decreases f1, fields.len() - i + 2,
{
    if i < fields.len() {
        lemma_field_mono(schema, fields[i as int].0, fields[i as int].1, obj, path, f1, f2);
        lemma_fields_mono(schema, fields, obj, path, i + 1, f1, f2);
    }
}

/// Any allowance under which matching comes to an end gives the errors of
/// [`validation_errors`].
pub proof fn lemma_any_fuel(schema: SchemaskV1, m: Maskoid, data: JsonValue, path: Seq<PathView>, f: nat)
    requires
        match_errors(schema, m, data, path, f) is Some,
    ensures
        match_terminates(schema, m, data, path),
        validation_errors(schema, m, data, path) == match_errors(schema, m, data, path, f).unwrap(),
{
    let g = choose|fuel: nat| (#[trigger] match_errors(schema, m, data, path, fuel)) is Some;
    if g <= f {
        lemma_fuel_mono(schema, m, data, path, g, f);
    } else {
        lemma_fuel_mono(schema, m, data, path, f, g);
    }
}

// ---------------------------------------------------------------- paths

/// Two outcomes of matching: both come to an end or neither does, and then
/// with as many errors.
pub open spec fn same_size(a: Option<Seq<ErrorView>>, b: Option<Seq<ErrorView>>) -> bool {
    &&& a is Some == b is Some
    &&& a is Some ==> a.unwrap().len() == b.unwrap().len()
}

proof fn lemma_dup_row_size(arr: Seq<JsonValue>, p: Seq<PathView>, q: Seq<PathView>, i: nat, n: nat)
    ensures
        dup_row(arr, p, i, n).len() == dup_row(arr, q, i, n).len(),
    decreases n,
{
    if n > i + 1 && n <= arr.len() {
        lemma_dup_row_size(arr, p, q, i, (n - 1) as nat);
    }
}

proof fn lemma_dup_size(arr: Seq<JsonValue>, p: Seq<PathView>, q: Seq<PathView>, n: nat)
    ensures
        dup_errors(arr, p, n).len() == dup_errors(arr, q, n).len(),
    decreases n,
{
    if n > 0 {
        lemma_dup_size(arr, p, q, (n - 1) as nat);
        lemma_dup_row_size(arr, p, q, (n - 1) as nat, arr.len());
    }
}

proof fn lemma_unexpected_size(
    fields: Seq<(String, MaskoidField)>,
    obj: Seq<(String, JsonValue)>,
    p: Seq<PathView>,
    q: Seq<PathView>,
    n: nat,
)
    ensures
        unexpected_errors(fields, obj, p, n).len() == unexpected_errors(fields, obj, q, n).len(),
    decreases n,
{
    if n > 0 && n <= obj.len() {
        lemma_unexpected_size(fields, obj, p, q, (n - 1) as nat);
    }
}

/// Where errors are reported does not change whether matching ends, nor how
/// many errors it finds.
pub proof fn lemma_path_free(
    schema: SchemaskV1,
    m: Maskoid,
    data: JsonValue,
    p: Seq<PathView>,
    q: Seq<PathView>,
    f: nat,
)
    ensures
        same_size(match_errors(schema, m, data, p, f), match_errors(schema, m, data, q, f)),
    decreases f, 0int,
{
    if f > 0 {
        let g = (f - 1) as nat;
        match m {
            Maskoid::Ref(name) => {
                if let Some(inner) = lookup(schema.bindings.entries@, name@) {
                    lemma_path_free(schema, inner, data, p, q, g);
                }
            },
            Maskoid::Option(inner) => {
                if !(data is Null) {
                    if *inner is Option {
                        if let JsonValue::Object(obj) = data {
                            if obj.entries@.len() == 1 && has_key(obj.entries@, "element"@) {
                                lemma_path_free(
                                    schema,
                                    *inner,
                                    lookup(obj.entries@, "element"@).unwrap(),
                                    p.push(PathView::Key("element"@)),
                                    q.push(PathView::Key("element"@)),
                                    g,
                                );
                            }
                        }
                    } else {
                        lemma_path_free(schema, *inner, data, p, q, g);
                    }
                }
            },
            Maskoid::SetOf(inner) => {
                if let JsonValue::Array(arr) = data {
                    lemma_items_path_free(schema, *inner, arr@, p, q, 0, g);
                    lemma_dup_size(arr@, p, q, arr@.len());
                }
            },
            Maskoid::List(inner) => {
                if let JsonValue::Array(arr) = data {
                    lemma_items_path_free(schema, *inner, arr@, p, q, 0, g);
                }
            },
            Maskoid::StringMap(inner) => {
                if let JsonValue::Object(obj) = data {
                    lemma_values_path_free(schema, *inner, obj.entries@, p, q, 0, g);
                }
            },
            Maskoid::Tuple(t) => {
                if let JsonValue::Array(arr) = data {
                    if arr@.len() == t.elements@.len() {
                        lemma_tuple_path_free(schema, t.elements@, arr@, p, q, 0, g);
                    }
                }
            },
            Maskoid::TaggedUnion(u) => {
                lemma_union_path_free(schema, u.variants, data, p, q, g);
            },
            Maskoid::Record(r) => {
                if let JsonValue::Object(obj) = data {
                    lemma_fields_path_free(schema, r.fields.entries@, obj.entries@, p, q, 0, g);
                    lemma_unexpected_size(r.fields.entries@, obj.entries@, p, q, obj.entries@.len());
                }
            },
            _ => {},
        }
    }
}

proof fn lemma_items_path_free(
    schema: SchemaskV1,
    inner: Maskoid,
    arr: Seq<JsonValue>,
    p: Seq<PathView>,
    q: Seq<PathView>,
    i: nat,
    f: nat,
)
    ensures
        same_size(items_errors(schema, inner, arr, p, i, f), items_errors(schema, inner, arr, q, i, f)),
    decreases f, arr.len() - i,
{
    if i < arr.len() {
        lemma_path_free(
            schema,
            inner,
            arr[i as int],
            p.push(PathView::Index(i as usize)),
            q.push(PathView::Index(i as usize)),
            f,
        );
        lemma_items_path_free(schema, inner, arr, p, q, i + 1, f);
    }
}

proof fn lemma_values_path_free(
    schema: SchemaskV1,
    inner: Maskoid,
    e: Seq<(String, JsonValue)>,
    p: Seq<PathView>,
    q: Seq<PathView>,
    i: nat,
    f: nat,
)
    ensures
        same_size(values_errors(schema, inner, e, p, i, f), values_errors(schema, inner, e, q, i, f)),
    decreases f, e.len() - i,
{
    if i < e.len() {
        lemma_path_free(
            schema,
            inner,
            e[i as int].1,
            p.push(PathView::Key(e[i as int].0@)),
            q.push(PathView::Key(e[i as int].0@)),
            f,
        );
        lemma_values_path_free(schema, inner, e, p, q, i + 1, f);
    }
}

proof fn lemma_tuple_path_free(
    schema: SchemaskV1,
    elements: Seq<MaskoidField>,
    arr: Seq<JsonValue>,
    p: Seq<PathView>,
    q: Seq<PathView>,
    i: nat,
    f: nat,
)
    ensures
        same_size(tuple_errors(schema, elements, arr, p, i, f), tuple_errors(schema, elements, arr, q, i, f)),
    decreases f, arr.len() - i,
{
    if i < arr.len() {
        lemma_path_free(
            schema,
            elements[i as int].maskoid,
            arr[i as int],
            p.push(PathView::Index(i as usize)),
            q.push(PathView::Index(i as usize)),
            f,
        );
        lemma_tuple_path_free(schema, elements, arr, p, q, i + 1, f);
    }
}

proof fn lemma_union_path_free(
    schema: SchemaskV1,
    variants: StrMap<MaskoidField>,
    data: JsonValue,
    p: Seq<PathView>,
    q: Seq<PathView>,
    f: nat,
)
    ensures
        same_size(union_errors(schema, variants, data, p, f), union_errors(schema, variants, data, q, f)),
    decreases f, 1int,
{
    if let JsonValue::Object(obj) = data {
        if obj.entries@.len() == 1 {
            let tag = obj.entries@[0].0;
            if let Some(v) = lookup(variants.entries@, tag@) {
                lemma_path_free(
                    schema,
                    v.maskoid,
                    obj.entries@[0].1,
                    p.push(PathView::Key(tag@)),
                    q.push(PathView::Key(tag@)),
                    f,
                );
            }
        }
    }
}

proof fn lemma_field_path_free(
    schema: SchemaskV1,
    name: String,
    field: MaskoidField,
    obj: Seq<(String, JsonValue)>,
    p: Seq<PathView>,
    q: Seq<PathView>,
    f: nat,
)
    ensures
        same_size(field_errors(schema, name, field, obj, p, f), field_errors(schema, name, field, obj, q, f)),
    decreases f, 1int,
{
    if let Some(v) = lookup(obj, name@) {
        lemma_path_free(schema, field.maskoid, v, p.push(PathView::Key(name@)), q.push(PathView::Key(name@)), f);
    }
}

proof fn lemma_fields_path_free(
    schema: SchemaskV1,
    fields: Seq<(String, MaskoidField)>,
    obj: Seq<(String, JsonValue)>,
    p: Seq<PathView>,
    q: Seq<PathView>,
    i: nat,
    f: nat,
)
    ensures
        same_size(fields_errors(schema, fields, obj, p, i, f), fields_errors(schema, fields, obj, q, i, f)),
    decreases f, fields.len() - i + 2,
{
    if i < fields.len() {
        lemma_field_path_free(schema, fields[i as int].0, fields[i as int].1, obj, p, q, f);
        lemma_fields_path_free(schema, fields, obj, p, q, i + 1, f);
    }
}

/// Whether a value matches does not depend on the path that its errors are
/// reported at.
pub proof fn lemma_validation_path_free(
    schema: SchemaskV1,
    m: Maskoid,
    data: JsonValue,
    p: Seq<PathView>,
    q: Seq<PathView>,
)
    requires
        match_terminates(schema, m, data, p),
    ensures
        match_terminates(schema, m, data, q),
        validation_errors(schema, m, data, p).len() == validation_errors(schema, m, data, q).len(),
{
    let f = choose|fuel: nat| (#[trigger] match_errors(schema, m, data, p, fuel)) is Some;
    lemma_any_fuel(schema, m, data, p, f);
    lemma_path_free(schema, m, data, p, q, f);
    lemma_any_fuel(schema, m, data, q, f);
}

// ---------------------------------------------------------------- where errors are reported

/// Every error of `errs` is reported at `path` or below it.
pub open spec fn under(path: Seq<PathView>, errs: Seq<ErrorView>) -> bool {
    forall|k: int| 0 <= k < errs.len() ==> path.is_prefix_of(#[trigger] errs[k].path)
}

/// An outcome that, when matching ends, reports every error at `path` or below.
pub open spec fn reported_under(path: Seq<PathView>, o: Option<Seq<ErrorView>>) -> bool {
    o matches Some(errs) ==> under(path, errs)
}

proof fn lemma_under_push(path: Seq<PathView>, step: PathView, errs: Seq<ErrorView>)
    requires
        under(path.push(step), errs),
    ensures
        under(path, errs),
{
    assert forall|k: int| 0 <= k < errs.len() implies path.is_prefix_of(#[trigger] errs[k].path) by {
        let q = errs[k].path;
        assert(path.push(step).is_prefix_of(q));
        assert forall|i: int| 0 <= i < path.len() implies q[i] == path[i] by {
            assert(q.subrange(0, path.len() + 1int)[i] == path.push(step)[i]);
        }
        assert(q.subrange(0, path.len() as int) =~= path);
    }
}

proof fn lemma_under_cat(path: Seq<PathView>, a: Option<Seq<ErrorView>>, b: Option<Seq<ErrorView>>)
    requires
        reported_under(path, a),
        reported_under(path, b),
    ensures
        reported_under(path, cat(a, b)),
{
    if let (Some(x), Some(y)) = (a, b) {
        assert forall|k: int| 0 <= k < (x + y).len() implies path.is_prefix_of(#[trigger] (x + y)[k].path) by {
            if k < x.len() {
                assert((x + y)[k] == x[k]);
            } else {
                assert((x + y)[k] == y[k - x.len()]);
            }
        }
    }
}

proof fn lemma_one_under(path: Seq<PathView>, message: Seq<char>)
    ensures
        under(path, one(path, message)),
{
    assert(path.is_prefix_of(path)) by {
        assert(path.subrange(0, path.len() as int) =~= path);
    }
}

proof fn lemma_dup_row_under(arr: Seq<JsonValue>, path: Seq<PathView>, i: nat, n: nat)
    ensures
        under(path, dup_row(arr, path, i, n)),
    decreases n,
{
    if n > i + 1 && n <= arr.len() {
        lemma_dup_row_under(arr, path, i, (n - 1) as nat);
        let step = PathView::Index((n - 1) as usize);
        let msg = "Duplicate element (also at index "@ + crate::text::dec(i) + ")"@;
        lemma_one_under(path.push(step), msg);
        lemma_under_push(path, step, one(path.push(step), msg));
        lemma_under_cat(
            path,
            Some(dup_row(arr, path, i, (n - 1) as nat)),
            Some(
                if json_eq(arr[i as int], arr[n - 1]) {
                    one(path.push(step), msg)
                } else {
                    no_errors()
                },
            ),
        );
    }
}

proof fn lemma_dup_under(arr: Seq<JsonValue>, path: Seq<PathView>, n: nat)
    ensures
        under(path, dup_errors(arr, path, n)),
    decreases n,
{
    if n > 0 {
        lemma_dup_under(arr, path, (n - 1) as nat);
        lemma_dup_row_under(arr, path, (n - 1) as nat, arr.len());
        lemma_under_cat(
            path,
            Some(dup_errors(arr, path, (n - 1) as nat)),
            Some(dup_row(arr, path, (n - 1) as nat, arr.len())),
        );
    }
}

proof fn lemma_unexpected_under(
    fields: Seq<(String, MaskoidField)>,
    obj: Seq<(String, JsonValue)>,
    path: Seq<PathView>,
    n: nat,
)
    ensures
        under(path, unexpected_errors(fields, obj, path, n)),
    decreases n,
{
    if n > 0 && n <= obj.len() {
        lemma_unexpected_under(fields, obj, path, (n - 1) as nat);
        lemma_one_under(path, crate::validate::quoted_name("Unexpected field '"@, obj[n - 1].0@, "'"@));
        lemma_under_cat(
            path,
            Some(unexpected_errors(fields, obj, path, (n - 1) as nat)),
            Some(
                if has_key(fields, obj[n - 1].0@) {
                    no_errors()
                } else {
                    one(path, crate::validate::quoted_name("Unexpected field '"@, obj[n - 1].0@, "'"@))
                },
            ),
        );
    }
}

/// Every error that matching reports lies at the path matching started from, or
/// below it.
pub proof fn lemma_errors_under_path(
    schema: SchemaskV1,
    m: Maskoid,
    data: JsonValue,
    path: Seq<PathView>,
    f: nat,
)
    ensures
        reported_under(path, match_errors(schema, m, data, path, f)),
    decreases f, 0int,
{
    if f > 0 {
        let g = (f - 1) as nat;
        assert(path.is_prefix_of(path)) by {
            assert(path.subrange(0, path.len() as int) =~= path);
        }
        match m {
            Maskoid::Ref(name) => {
                if let Some(inner) = lookup(schema.bindings.entries@, name@) {
                    lemma_errors_under_path(schema, inner, data, path, g);
                }
            },
            Maskoid::Option(inner) => {
                if !(data is Null) {
                    if *inner is Option {
                        if let JsonValue::Object(obj) = data {
                            if obj.entries@.len() == 1 && has_key(obj.entries@, "element"@) {
                                let step = PathView::Key("element"@);
                                lemma_errors_under_path(
                                    schema,
                                    *inner,
                                    lookup(obj.entries@, "element"@).unwrap(),
                                    path.push(step),
                                    g,
                                );
                                if let Some(e) = match_errors(
                                    schema,
                                    *inner,
                                    lookup(obj.entries@, "element"@).unwrap(),
                                    path.push(step),
                                    g,
                                ) {
                                    lemma_under_push(path, step, e);
                                }
                            }
                        }
                    } else {
                        lemma_errors_under_path(schema, *inner, data, path, g);
                    }
                }
            },
            Maskoid::SetOf(inner) => {
                if let JsonValue::Array(arr) = data {
                    lemma_items_under(schema, *inner, arr@, path, 0, g);
                    lemma_dup_under(arr@, path, arr@.len());
                    lemma_under_cat(
                        path,
                        items_errors(schema, *inner, arr@, path, 0, g),
                        Some(dup_errors(arr@, path, arr@.len())),
                    );
                }
            },
            Maskoid::List(inner) => {
                if let JsonValue::Array(arr) = data {
                    lemma_items_under(schema, *inner, arr@, path, 0, g);
                }
            },
            Maskoid::StringMap(inner) => {
                if let JsonValue::Object(obj) = data {
                    lemma_values_under(schema, *inner, obj.entries@, path, 0, g);
                }
            },
            Maskoid::Tuple(t) => {
                if let JsonValue::Array(arr) = data {
                    if arr@.len() == t.elements@.len() {
                        lemma_tuple_under(schema, t.elements@, arr@, path, 0, g);
                    }
                }
            },
            Maskoid::TaggedUnion(u) => {
                lemma_union_under(schema, u.variants, data, path, g);
            },
            Maskoid::Record(r) => {
                if let JsonValue::Object(obj) = data {
                    lemma_fields_under(schema, r.fields.entries@, obj.entries@, path, 0, g);
                    lemma_unexpected_under(r.fields.entries@, obj.entries@, path, obj.entries@.len());
                    lemma_under_cat(
                        path,
                        fields_errors(schema, r.fields.entries@, obj.entries@, path, 0, g),
                        Some(unexpected_errors(r.fields.entries@, obj.entries@, path, obj.entries@.len())),
                    );
                }
            },
            _ => {},
        }
    }
}

proof fn lemma_items_under(
    schema: SchemaskV1,
    inner: Maskoid,
    arr: Seq<JsonValue>,
    path: Seq<PathView>,
    i: nat,
    f: nat,
)
    ensures
        reported_under(path, items_errors(schema, inner, arr, path, i, f)),
    decreases f, arr.len() - i,
{
    if i < arr.len() {
        let step = PathView::Index(i as usize);
        lemma_errors_under_path(schema, inner, arr[i as int], path.push(step), f);
        if let Some(e) = match_errors(schema, inner, arr[i as int], path.push(step), f) {
            lemma_under_push(path, step, e);
        }
        lemma_items_under(schema, inner, arr, path, i + 1, f);
        lemma_under_cat(
            path,
            match_errors(schema, inner, arr[i as int], path.push(step), f),
            items_errors(schema, inner, arr, path, i + 1, f),
        );
    }
}

proof fn lemma_values_under(
    schema: SchemaskV1,
    inner: Maskoid,
    e: Seq<(String, JsonValue)>,
    path: Seq<PathView>,
    i: nat,
    f: nat,
)
    ensures
        reported_under(path, values_errors(schema, inner, e, path, i, f)),
    decreases f, e.len() - i,
{
    if i < e.len() {
        let step = PathView::Key(e[i as int].0@);
        lemma_errors_under_path(schema, inner, e[i as int].1, path.push(step), f);
        if let Some(x) = match_errors(schema, inner, e[i as int].1, path.push(step), f) {
            lemma_under_push(path, step, x);
        }
        lemma_values_under(schema, inner, e, path, i + 1, f);
        lemma_under_cat(
            path,
            match_errors(schema, inner, e[i as int].1, path.push(step), f),
            values_errors(schema, inner, e, path, i + 1, f),
        );
    }
}

proof fn lemma_tuple_under(
    schema: SchemaskV1,
    elements: Seq<MaskoidField>,
    arr: Seq<JsonValue>,
    path: Seq<PathView>,
    i: nat,
    f: nat,
)
    ensures
        reported_under(path, tuple_errors(schema, elements, arr, path, i, f)),
    decreases f, arr.len() - i,
{
    if i < arr.len() {
        let step = PathView::Index(i as usize);
        lemma_errors_under_path(schema, elements[i as int].maskoid, arr[i as int], path.push(step), f);
        if let Some(x) = match_errors(schema, elements[i as int].maskoid, arr[i as int], path.push(step), f) {
            lemma_under_push(path, step, x);
        }
        lemma_tuple_under(schema, elements, arr, path, i + 1, f);
        lemma_under_cat(
            path,
            match_errors(schema, elements[i as int].maskoid, arr[i as int], path.push(step), f),
            tuple_errors(schema, elements, arr, path, i + 1, f),
        );
    }
}

proof fn lemma_union_under(
    schema: SchemaskV1,
    variants: StrMap<MaskoidField>,
    data: JsonValue,
    path: Seq<PathView>,
    f: nat,
)
    ensures
        reported_under(path, union_errors(schema, variants, data, path, f)),
    decreases f, 1int,
{
    assert(path.is_prefix_of(path)) by {
        assert(path.subrange(0, path.len() as int) =~= path);
    }
    if let JsonValue::Object(obj) = data {
        if obj.entries@.len() == 1 {
            let tag = obj.entries@[0].0;
            if let Some(v) = lookup(variants.entries@, tag@) {
                let step = PathView::Key(tag@);
                lemma_errors_under_path(schema, v.maskoid, obj.entries@[0].1, path.push(step), f);
                if let Some(x) = match_errors(schema, v.maskoid, obj.entries@[0].1, path.push(step), f) {
                    lemma_under_push(path, step, x);
                }
            }
        }
    }
}

proof fn lemma_fields_under(
    schema: SchemaskV1,
    fields: Seq<(String, MaskoidField)>,
    obj: Seq<(String, JsonValue)>,
    path: Seq<PathView>,
    i: nat,
    f: nat,
)
    ensures
        reported_under(path, fields_errors(schema, fields, obj, path, i, f)),
    decreases f, fields.len() - i + 2,
{
    if i < fields.len() {
        let name = fields[i as int].0;
        let field = fields[i as int].1;
        assert(path.is_prefix_of(path)) by {
            assert(path.subrange(0, path.len() as int) =~= path);
        }
        if let Some(v) = lookup(obj, name@) {
            let step = PathView::Key(name@);
            lemma_errors_under_path(schema, field.maskoid, v, path.push(step), f);
            if let Some(x) = match_errors(schema, field.maskoid, v, path.push(step), f) {
                lemma_under_push(path, step, x);
            }
        }
        lemma_fields_under(schema, fields, obj, path, i + 1, f);
        lemma_under_cat(
            path,
            field_errors(schema, name, field, obj, path, f),
            fields_errors(schema, fields, obj, path, i + 1, f),
        );
    }
}

/// Matching reports every error at the path it started from, or below it.
pub proof fn law_errors_under_start_path(schema: SchemaskV1, m: Maskoid, data: JsonValue, path: Seq<PathView>)
    requires
        match_terminates(schema, m, data, path),
    ensures
        under(path, validation_errors(schema, m, data, path)),
{
    let f = choose|fuel: nat| (#[trigger] match_errors(schema, m, data, path, fuel)) is Some;
    lemma_any_fuel(schema, m, data, path, f);
    lemma_errors_under_path(schema, m, data, path, f);
}

// ---------------------------------------------------------------- termination

proof fn lemma_lookup_entry<V>(e: Seq<(String, V)>, k: Seq<char>) -> (j: int)
    requires
        lookup(e, k) is Some,
    ensures
        0 <= j < e.len(),
        lookup(e, k) == Some(e[j].1),
{
    lemma_find_key_bounds(e, k);
    find_key(e, k).unwrap()
}

proof fn lemma_fields_refs_in(es: Seq<MaskoidField>, j: int, names: Set<Seq<char>>)
    requires
        0 <= j < es.len(),
        forall|i: int| 0 <= i < fields_refs(es).len() ==> names.contains(#[trigger] fields_refs(es)[i]),
    ensures
        refs_in(es[j].maskoid, names),
    decreases es.len(),
{
    let d = es.drop_last();
    let r = refs_list(es.last().maskoid);
    assert(fields_refs(es) == fields_refs(d) + r);
    if j == es.len() - 1 {
        assert forall|i: int| 0 <= i < r.len() implies names.contains(#[trigger] r[i]) by {
            assert(fields_refs(es)[fields_refs(d).len() + i] == r[i]);
        }
    } else {
        assert forall|i: int| 0 <= i < fields_refs(d).len() implies names.contains(#[trigger] fields_refs(d)[i]) by {
            assert(fields_refs(es)[i] == fields_refs(d)[i]);
        }
        assert(d[j] == es[j]);
        lemma_fields_refs_in(d, j, names);
    }
}

proof fn lemma_entries_refs_in(es: Seq<(String, MaskoidField)>, j: int, names: Set<Seq<char>>)
    requires
        0 <= j < es.len(),
        forall|i: int| 0 <= i < entries_refs(es).len() ==> names.contains(#[trigger] entries_refs(es)[i]),
    ensures
        refs_in(es[j].1.maskoid, names),
    decreases es.len(),
{
    let d = es.drop_last();
    let r = refs_list(es.last().1.maskoid);
    assert(entries_refs(es) == entries_refs(d) + r);
    if j == es.len() - 1 {
        assert forall|i: int| 0 <= i < r.len() implies names.contains(#[trigger] r[i]) by {
            assert(entries_refs(es)[entries_refs(d).len() + i] == r[i]);
        }
    } else {
        assert forall|i: int| 0 <= i < entries_refs(d).len() implies names.contains(#[trigger] entries_refs(d)[i]) by {
            assert(entries_refs(es)[i] == entries_refs(d)[i]);
        }
        assert(d[j] == es[j]);
        lemma_entries_refs_in(d, j, names);
    }
}

/// In a schema whose reference chains all settle within `kk` steps, matching
/// comes to an end for every maskoid inside the schema and every value.
#[verifier::spinoff_prover]
pub proof fn lemma_settled_terminates(
    schema: SchemaskV1,
    kk: nat,
    names: Set<Seq<char>>,
    m: Maskoid,
    data: JsonValue,
    path: Seq<PathView>,
    k: nat,
)
    requires
        names_settled(schema, names, kk),
        settles_within(schema, m, kk),
        refs_in(m, names),
        settles(schema, m, k),
    ensures
        match_terminates(schema, m, data, path),
    decreases data, 1int, k,
{
    let done = match_errors(schema, m, data, path, 1) is Some;
    match m {
        Maskoid::Ref(name) => {
            if lookup(schema.bindings.entries@, name@) is Some {
                let j = lemma_lookup_entry(schema.bindings.entries@, name@);
                let inner = schema.bindings.entries@[j].1;
                assert(names.contains(refs_list(m)[0]));
                assert(settles_within(schema, inner, kk) && refs_in(inner, names));
                lemma_settled_terminates(schema, kk, names, inner, data, path, (k - 1) as nat);
                let f = choose|fuel: nat| (#[trigger] match_errors(schema, inner, data, path, fuel)) is Some;
                assert(match_errors(schema, m, data, path, f + 1) is Some);
            } else {
                assert(done);
            }
        },
        Maskoid::Option(inner) => {
            assert(refs_list(m) == refs_list(*inner));
            if data is Null {
                assert(done);
            } else if *inner is Option {
                if let JsonValue::Object(obj) = data {
                    if obj.entries@.len() == 1 && has_key(obj.entries@, "element"@) {
                        let j = lemma_lookup_entry(obj.entries@, "element"@);
                        let v = obj.entries@[j].1;
                        let p2 = path.push(PathView::Key("element"@));
                        assert(settles_within(schema, *inner, kk));
                        lemma_settled_terminates(schema, kk, names, *inner, v, p2, kk);
                        let f = choose|fuel: nat| (#[trigger] match_errors(schema, *inner, v, p2, fuel)) is Some;
                        assert(match_errors(schema, m, data, path, f + 1) is Some);
                    } else {
                        assert(done);
                    }
                } else {
                    assert(done);
                }
            } else {
                lemma_settled_terminates(schema, kk, names, *inner, data, path, (k - 1) as nat);
                let f = choose|fuel: nat| (#[trigger] match_errors(schema, *inner, data, path, fuel)) is Some;
                assert(match_errors(schema, m, data, path, f + 1) is Some);
            }
        },
        Maskoid::SetOf(inner) => {
            assert(refs_list(m) == refs_list(*inner));
            if let JsonValue::Array(arr) = data {
                lemma_items_settled(schema, kk, names, *inner, data, arr@, path, 0);
                let f = choose|fuel: nat| (#[trigger] items_errors(schema, *inner, arr@, path, 0, fuel)) is Some;
                assert(match_errors(schema, m, data, path, f + 1) is Some);
            } else {
                assert(done);
            }
        },
        Maskoid::List(inner) => {
            assert(refs_list(m) == refs_list(*inner));
            if let JsonValue::Array(arr) = data {
                lemma_items_settled(schema, kk, names, *inner, data, arr@, path, 0);
                let f = choose|fuel: nat| (#[trigger] items_errors(schema, *inner, arr@, path, 0, fuel)) is Some;
                assert(match_errors(schema, m, data, path, f + 1) is Some);
            } else {
                assert(done);
            }
        },
        Maskoid::StringMap(inner) => {
            assert(refs_list(m) == refs_list(*inner));
            if let JsonValue::Object(obj) = data {
                lemma_values_settled(schema, kk, names, *inner, data, obj.entries@, path, 0);
                let f = choose|fuel: nat|
                    (#[trigger] values_errors(schema, *inner, obj.entries@, path, 0, fuel)) is Some;
                assert(match_errors(schema, m, data, path, f + 1) is Some);
            } else {
                assert(done);
            }
        },
        Maskoid::Tuple(t) => {
            if let JsonValue::Array(arr) = data {
                if arr@.len() == t.elements@.len() {
                    assert(refs_list(m) == fields_refs(t.elements@));
                    assert forall|j: int| 0 <= j < t.elements@.len() implies refs_in(
                        #[trigger] t.elements@[j].maskoid,
                        names,
                    ) by {
                        lemma_fields_refs_in(t.elements@, j, names);
                    }
                    lemma_tuple_settled(schema, kk, names, t.elements@, data, arr@, path, 0);
                    let f = choose|fuel: nat|
                        (#[trigger] tuple_errors(schema, t.elements@, arr@, path, 0, fuel)) is Some;
                    assert(match_errors(schema, m, data, path, f + 1) is Some);
                } else {
                    assert(done);
                }
            } else {
                assert(done);
            }
        },
        Maskoid::TaggedUnion(u) => {
            if let JsonValue::Object(obj) = data {
                if obj.entries@.len() == 1 && lookup(u.variants.entries@, obj.entries@[0].0@) is Some {
                    let tag = obj.entries@[0].0;
                    let j = lemma_lookup_entry(u.variants.entries@, tag@);
                    let vm = u.variants.entries@[j].1.maskoid;
                    assert(settles_within(schema, vm, kk));
                    assert(refs_list(m) == entries_refs(u.variants.entries@));
                    lemma_entries_refs_in(u.variants.entries@, j, names);
                    let value = obj.entries@[0].1;
                    let p2 = path.push(PathView::Key(tag@));
                    lemma_settled_terminates(schema, kk, names, vm, value, p2, kk);
                    let f = choose|fuel: nat| (#[trigger] match_errors(schema, vm, value, p2, fuel)) is Some;
                    assert(union_errors(schema, u.variants, data, path, f) is Some);
                    assert(match_errors(schema, m, data, path, f + 1) is Some);
                } else {
                    assert(union_errors(schema, u.variants, data, path, 0) is Some);
                    assert(done);
                }
            } else {
                assert(union_errors(schema, u.variants, data, path, 0) is Some);
                assert(done);
            }
        },
        Maskoid::Record(r) => {
            if let JsonValue::Object(obj) = data {
                assert(refs_list(m) == entries_refs(r.fields.entries@));
                assert forall|j: int| 0 <= j < r.fields.entries@.len() implies refs_in(
                    #[trigger] r.fields.entries@[j].1.maskoid,
                    names,
                ) by {
                    lemma_entries_refs_in(r.fields.entries@, j, names);
                }
                lemma_fields_settled(schema, kk, names, r.fields.entries@, data, obj.entries@, path, 0);
                let f = choose|fuel: nat|
                    (#[trigger] fields_errors(schema, r.fields.entries@, obj.entries@, path, 0, fuel)) is Some;
                assert(match_errors(schema, m, data, path, f + 1) is Some);
            } else {
                assert(done);
            }
        },
        _ => {
            assert(done);
        },
    }
}

proof fn lemma_items_settled(
    schema: SchemaskV1,
    kk: nat,
    names: Set<Seq<char>>,
    inner: Maskoid,
    parent: JsonValue,
    arr: Seq<JsonValue>,
    path: Seq<PathView>,
    i: nat,
)
    requires
        parent matches JsonValue::Array(v) && v@ == arr,
        names_settled(schema, names, kk),
        settles_within(schema, inner, kk),
        refs_in(inner, names),
    ensures
        exists|f: nat| (#[trigger] items_errors(schema, inner, arr, path, i, f)) is Some,
    decreases parent, 0int, arr.len() - i,
{
    if i >= arr.len() {
        assert(items_errors(schema, inner, arr, path, i, 0) is Some);
    } else {
        let x = arr[i as int];
        let p2 = path.push(PathView::Index(i as usize));
        lemma_settled_terminates(schema, kk, names, inner, x, p2, kk);
        lemma_items_settled(schema, kk, names, inner, parent, arr, path, i + 1);
        let fe = choose|fuel: nat| (#[trigger] match_errors(schema, inner, x, p2, fuel)) is Some;
        let fr = choose|fuel: nat| (#[trigger] items_errors(schema, inner, arr, path, i + 1, fuel)) is Some;
        let f = if fe > fr { fe } else { fr };
        lemma_fuel_mono(schema, inner, x, p2, fe, f);
        lemma_items_mono(schema, inner, arr, path, i + 1, fr, f);
        assert(items_errors(schema, inner, arr, path, i, f) is Some);
    }
}

proof fn lemma_values_settled(
    schema: SchemaskV1,
    kk: nat,
    names: Set<Seq<char>>,
    inner: Maskoid,
    parent: JsonValue,
    e: Seq<(String, JsonValue)>,
    path: Seq<PathView>,
    i: nat,
)
    requires
        parent matches JsonValue::Object(o) && o.entries@ == e,
        names_settled(schema, names, kk),
        settles_within(schema, inner, kk),
        refs_in(inner, names),
    ensures
        exists|f: nat| (#[trigger] values_errors(schema, inner, e, path, i, f)) is Some,
    decreases parent, 0int, e.len() - i,
{
    if i >= e.len() {
        assert(values_errors(schema, inner, e, path, i, 0) is Some);
    } else {
        let x = e[i as int].1;
        let p2 = path.push(PathView::Key(e[i as int].0@));
        lemma_settled_terminates(schema, kk, names, inner, x, p2, kk);
        lemma_values_settled(schema, kk, names, inner, parent, e, path, i + 1);
        let fe = choose|fuel: nat| (#[trigger] match_errors(schema, inner, x, p2, fuel)) is Some;
        let fr = choose|fuel: nat| (#[trigger] values_errors(schema, inner, e, path, i + 1, fuel)) is Some;
        let f = if fe > fr { fe } else { fr };
        lemma_fuel_mono(schema, inner, x, p2, fe, f);
        lemma_values_mono(schema, inner, e, path, i + 1, fr, f);
        assert(values_errors(schema, inner, e, path, i, f) is Some);
    }
}

proof fn lemma_tuple_settled(
    schema: SchemaskV1,
    kk: nat,
    names: Set<Seq<char>>,
    elements: Seq<MaskoidField>,
    parent: JsonValue,
    arr: Seq<JsonValue>,
    path: Seq<PathView>,
    i: nat,
)
    requires
        parent matches JsonValue::Array(v) && v@ == arr,
        arr.len() == elements.len(),
        names_settled(schema, names, kk),
        forall|j: int| 0 <= j < elements.len() ==> settles_within(schema, #[trigger] elements[j].maskoid, kk),
        forall|j: int| 0 <= j < elements.len() ==> refs_in(#[trigger] elements[j].maskoid, names),
    ensures
        exists|f: nat| (#[trigger] tuple_errors(schema, elements, arr, path, i, f)) is Some,
    decreases parent, 0int, arr.len() - i,
{
    if i >= arr.len() {
        assert(tuple_errors(schema, elements, arr, path, i, 0) is Some);
    } else {
        let x = arr[i as int];
        let em = elements[i as int].maskoid;
        let p2 = path.push(PathView::Index(i as usize));
        assert(settles_within(schema, em, kk));
        lemma_settled_terminates(schema, kk, names, em, x, p2, kk);
        lemma_tuple_settled(schema, kk, names, elements, parent, arr, path, i + 1);
        let fe = choose|fuel: nat| (#[trigger] match_errors(schema, em, x, p2, fuel)) is Some;
        let fr = choose|fuel: nat| (#[trigger] tuple_errors(schema, elements, arr, path, i + 1, fuel)) is Some;
        let f = if fe > fr { fe } else { fr };
        lemma_fuel_mono(schema, em, x, p2, fe, f);
        lemma_tuple_mono(schema, elements, arr, path, i + 1, fr, f);
        assert(tuple_errors(schema, elements, arr, path, i, f) is Some);
    }
}

proof fn lemma_fields_settled(
    schema: SchemaskV1,
    kk: nat,
    names: Set<Seq<char>>,
    fields: Seq<(String, MaskoidField)>,
    parent: JsonValue,
    obj: Seq<(String, JsonValue)>,
    path: Seq<PathView>,
    i: nat,
)
    requires
        parent matches JsonValue::Object(o) && o.entries@ == obj,
        names_settled(schema, names, kk),
        forall|j: int| 0 <= j < fields.len() ==> settles_within(schema, #[trigger] fields[j].1.maskoid, kk),
        forall|j: int| 0 <= j < fields.len() ==> refs_in(#[trigger] fields[j].1.maskoid, names),
    ensures
        exists|f: nat| (#[trigger] fields_errors(schema, fields, obj, path, i, f)) is Some,
    decreases parent, 0int, fields.len() - i,
{
    if i >= fields.len() {
        assert(fields_errors(schema, fields, obj, path, i, 0) is Some);
    } else {
        let name = fields[i as int].0;
        let field = fields[i as int].1;
        lemma_fields_settled(schema, kk, names, fields, parent, obj, path, i + 1);
        let fr = choose|fuel: nat| (#[trigger] fields_errors(schema, fields, obj, path, i + 1, fuel)) is Some;
        if lookup(obj, name@) is Some {
            let j = lemma_lookup_entry(obj, name@);
            let x = obj[j].1;
            let p2 = path.push(PathView::Key(name@));
            assert(settles_within(schema, field.maskoid, kk));
            assert(refs_in(field.maskoid, names));
            lemma_settled_terminates(schema, kk, names, field.maskoid, x, p2, kk);
            let fe = choose|fuel: nat| (#[trigger] match_errors(schema, field.maskoid, x, p2, fuel)) is Some;
            let f = if fe > fr { fe } else { fr };
            lemma_fuel_mono(schema, field.maskoid, x, p2, fe, f);
            lemma_fields_mono(schema, fields, obj, path, i + 1, fr, f);
            assert(field_errors(schema, name, field, obj, path, f) is Some);
            assert(fields_errors(schema, fields, obj, path, i, f) is Some);
        } else {
            assert(field_errors(schema, name, field, obj, path, fr) is Some);
            assert(fields_errors(schema, fields, obj, path, i, fr) is Some);
        }
    }
}

/// Validation against a schema whose reference chains all settle comes to an
/// end, whatever the root and the data.
pub proof fn law_settled_schema_validates(schema: SchemaskV1, kk: nat, root: Option<String>, data: JsonValue)
    requires
        schema_settles(schema, kk),
    ensures
        crate::validate::validate_terminates(schema, root, data),
{
    if let Some(name) = crate::validate::root_name(schema, root) {
        if lookup(schema.bindings.entries@, name) is Some {
            let j = lemma_lookup_entry(schema.bindings.entries@, name);
            let m = schema.bindings.entries@[j].1;
            let all = Set::<Seq<char>>::full();
            assert(names_settled(schema, all, kk)) by {
                assert forall|n: Seq<char>| #[trigger] all.contains(n) implies match lookup(
                    schema.bindings.entries@,
                    n,
                ) {
                    Some(b) => settles_within(schema, b, kk) && refs_in(b, all),
                    None => true,
                } by {
                    if lookup(schema.bindings.entries@, n) is Some {
                        let i = lemma_lookup_entry(schema.bindings.entries@, n);
                        assert(settles_within(schema, schema.bindings.entries@[i].1, kk));
                    }
                }
            }
            lemma_settled_terminates(schema, kk, all, m, data, Seq::empty(), kk);
        }
    }
}

/// Validation comes to an end, whatever the data, when the bindings it can
/// reach from the root all settle.
pub proof fn law_root_settled_validates(schema: SchemaskV1, kk: nat, root: Option<String>, data: JsonValue)
    requires
        crate::validate::root_settles(schema, root, kk),
    ensures
        crate::validate::validate_terminates(schema, root, data),
{
    if let Some(name) = crate::validate::root_name(schema, root) {
        if lookup(schema.bindings.entries@, name) is Some {
            let names = choose|names: Set<Seq<char>>| #[trigger] names.contains(name) && names_settled(schema, names, kk);
            let m = lookup(schema.bindings.entries@, name).unwrap();
            assert(settles_within(schema, m, kk) && refs_in(m, names));
            lemma_settled_terminates(schema, kk, names, m, data, Seq::empty(), kk);
        }
    }
}

/// [`settles`] asks whether the chain of steps runs out within `k` steps.
proof fn lemma_settles_chain(schema: SchemaskV1, m: Maskoid, k: nat)
    ensures
        settles(schema, m, k) <==> settle_chain(schema, m, k) is None,
    decreases k,
{
    if k > 0 {
        if let Some(x) = settle_step(schema, m) {
            lemma_settles_chain(schema, x, (k - 1) as nat);
        }
    }
}

proof fn lemma_chain_split(schema: SchemaskV1, m: Maskoid, i: nat, j: nat)
    requires
        settle_chain(schema, m, i) is Some,
    ensures
        settle_chain(schema, m, i + j) == settle_chain(schema, settle_chain(schema, m, i)->0, j),
    decreases i,
{
    if i > 0 {
        let x = settle_step(schema, m)->0;
        lemma_chain_split(schema, x, (i - 1) as nat, j);
        assert((i + j - 1) as nat == ((i - 1) as nat + j) as nat);
    }
}

proof fn lemma_chain_prefix(schema: SchemaskV1, m: Maskoid, i: nat, j: nat)
    requires
        j <= i,
        settle_chain(schema, m, i) is Some,
    ensures
        settle_chain(schema, m, j) is Some,
    decreases j,
{
    if j > 0 {
        let x = settle_step(schema, m)->0;
        lemma_chain_prefix(schema, x, (i - 1) as nat, (j - 1) as nat);
    }
}

/// A chain that comes back to where it started never runs out.
proof fn lemma_chain_cycle(schema: SchemaskV1, x: Maskoid, p: nat, q: nat)
    requires
        p > 0,
        settle_chain(schema, x, p) == Some(x),
    ensures
        settle_chain(schema, x, q) is Some,
    decreases q,
{
    if q < p {
        lemma_chain_prefix(schema, x, p, q);
    } else {
        lemma_chain_split(schema, x, p, (q - p) as nat);
        lemma_chain_cycle(schema, x, p, (q - p) as nat);
        assert(q == p + (q - p) as nat);
    }
}

/// Of two steps in a row after the first, one lands on a binding.
proof fn lemma_chain_meets_binding(schema: SchemaskV1, m: Maskoid, i: nat) -> (r: (nat, int))
    requires
        i >= 1,
        settle_chain(schema, m, i + 1) is Some,
    ensures
        r.0 == i || r.0 == i + 1,
        0 <= r.1 < schema.bindings.entries@.len(),
        settle_chain(schema, m, r.0) == Some(schema.bindings.entries@[r.1].1),
{
    let e = schema.bindings.entries@;
    let h = (i - 1) as nat;
    lemma_chain_prefix(schema, m, i + 1, h);
    let a = settle_chain(schema, m, h)->0;
    lemma_chain_split(schema, m, h, 1);
    lemma_chain_split(schema, m, h, 2);
    assert(h + 1 == i && h + 2 == i + 1);
    assert(settle_chain(schema, a, 2) is Some);
    let b = settle_step(schema, a)->0;
    assert(settle_chain(schema, a, 2) == settle_chain(schema, b, 1));
    assert(settle_chain(schema, b, 0) == Some(b));
    assert(settle_chain(schema, a, 1) == Some(b));
    match a {
        Maskoid::Ref(name) => {
            lemma_find_key_bounds(e, name@);
            (i, find_key(e, name@)->0)
        },
        Maskoid::Option(inner) => {
            assert(settle_chain(schema, b, 1) is Some);
            match b {
                Maskoid::Ref(name) => {
                    lemma_find_key_bounds(e, name@);
                    let c = settle_step(schema, b)->0;
                    assert(settle_chain(schema, c, 0) == Some(c));
                    (i + 1, find_key(e, name@)->0)
                },
                _ => {
                    assert(false);
                    (i, 0)
                },
            }
        },
        _ => {
            assert(false);
            (i, 0)
        },
    }
}

/// More than `n` numbers below `n` repeat one.
proof fn lemma_pigeonhole(s: Seq<int>, n: int)
    requires
        0 <= n < s.len(),
        forall|t: int| 0 <= t < s.len() ==> 0 <= #[trigger] s[t] < n,
    ensures
        exists|a: int, b: int| 0 <= a < b < s.len() && s[a] == s[b],
{
    broadcast use vstd::seq_lib::group_seq_properties;

    if s.no_duplicates() {
        s.unique_seq_to_set();
        vstd::set_lib::lemma_int_range(0, n);
        assert(s.to_set().subset_of(vstd::set_lib::set_int_range(0, n)));
        vstd::set_lib::lemma_len_subset(s.to_set(), vstd::set_lib::set_int_range(0, n));
        assert(false);
    } else {
        let (a, b) = choose|a: int, b: int| 0 <= a < s.len() && 0 <= b < s.len() && a != b && s[a] == s[b];
        if a < b {
            assert(s[a] == s[b]);
        } else {
            assert(s[b] == s[a]);
        }
    }
}

/// A step of the chain at `2 t + 1` or `2 t + 2` that lands on a binding,
/// and that binding's position.
spec fn binding_pick(schema: SchemaskV1, m: Maskoid, t: int) -> (nat, int) {
    choose|p: nat, x: int|
        (p == 2 * t + 1 || p == 2 * t + 2) && 0 <= x < schema.bindings.entries@.len() && settle_chain(schema, m, p)
            == Some(schema.bindings.entries@[x].1)
}

/// A chain of references and options that has not settled within two steps
/// per binding, and two more, has come back to a maskoid it was at before,
/// so it never settles: the bound that [`crate::validate::validate_settled`]
/// checks with refuses only chains that loop.
pub proof fn law_unsettled_chain_loops(schema: SchemaskV1, m: Maskoid)
    requires
        !settles(schema, m, 2 * schema.bindings.entries@.len() + 2),
    ensures
        exists|i: nat, j: nat|
            i < j <= 2 * schema.bindings.entries@.len() + 2 && settle_chain(schema, m, i) is Some
                && #[trigger] settle_chain(schema, m, i) == #[trigger] settle_chain(schema, m, j),
        forall|k: nat| !settles(schema, m, k),
{
    let e = schema.bindings.entries@;
    let n = e.len();
    let kk = (2 * n + 2) as nat;
    lemma_settles_chain(schema, m, kk);
    assert forall|t: int| 0 <= t <= n implies {
        let r = #[trigger] binding_pick(schema, m, t);
        (r.0 == 2 * t + 1 || r.0 == 2 * t + 2) && 0 <= r.1 < n && settle_chain(schema, m, r.0) == Some(e[r.1].1)
    } by {
        lemma_chain_prefix(schema, m, kk, (2 * t + 2) as nat);
        let r = lemma_chain_meets_binding(schema, m, (2 * t + 1) as nat);
        assert((r.0 == 2 * t + 1 || r.0 == 2 * t + 2) && 0 <= r.1 < n && settle_chain(schema, m, r.0) == Some(
            e[r.1].1,
        ));
    }
    let s = Seq::new((n + 1) as nat, |t: int| binding_pick(schema, m, t).1);
    assert forall|t: int| 0 <= t < s.len() implies 0 <= #[trigger] s[t] < n by {
        assert(s[t] == binding_pick(schema, m, t).1);
    }
    lemma_pigeonhole(s, n as int);
    let (a, b) = choose|a: int, b: int| 0 <= a < b < s.len() && s[a] == s[b];
    let ra = binding_pick(schema, m, a);
    let rb = binding_pick(schema, m, b);
    assert(s[a] == ra.1 && s[b] == rb.1);
    let i = ra.0;
    let j = rb.0;
    assert(i < j <= kk);
    let x = e[ra.1].1;
    assert(settle_chain(schema, m, i) == Some(x));
    assert(settle_chain(schema, m, j) == Some(x));
    let d = (j - i) as nat;
    lemma_chain_split(schema, m, i, d);
    assert(i + d == j);
    assert(settle_chain(schema, x, d) == Some(x));
    assert forall|k: nat| !settles(schema, m, k) by {
        lemma_settles_chain(schema, m, k);
        if k <= i {
            lemma_chain_prefix(schema, m, i, k);
        } else {
            lemma_chain_split(schema, m, i, (k - i) as nat);
            lemma_chain_cycle(schema, x, d, (k - i) as nat);
            assert(i + (k - i) as nat == k);
        }
    }
}

// ---------------------------------------------------------------- scalar kinds

/// `Any` matches anything.
pub proof fn law_any_accepts_everything(schema: SchemaskV1, data: JsonValue, path: Seq<PathView>)
    ensures
        match_terminates(schema, Maskoid::Any, data, path),
        validation_errors(schema, Maskoid::Any, data, path) == no_errors(),
{
    lemma_any_fuel(schema, Maskoid::Any, data, path, 1);
}

/// `Null` matches exactly `null`, `String` exactly strings, `Bool` exactly
/// booleans, `Int` exactly integers (not floats) and `Float` every number.
pub proof fn law_scalar_kinds(schema: SchemaskV1, data: JsonValue, path: Seq<PathView>)
    ensures
        validation_errors(schema, Maskoid::Null, data, path).len() == 0 <==> data is Null,
        validation_errors(schema, Maskoid::String, data, path).len() == 0 <==> data is String,
        validation_errors(schema, Maskoid::Bool, data, path).len() == 0 <==> data is Bool,
        validation_errors(schema, Maskoid::Int, data, path).len() == 0 <==> (data matches JsonValue::Number(
            n,
        ) && n.is_integer()),
        validation_errors(schema, Maskoid::Float, data, path).len() == 0 <==> data is Number,
{
    lemma_any_fuel(schema, Maskoid::Null, data, path, 1);
    lemma_any_fuel(schema, Maskoid::String, data, path, 1);
    lemma_any_fuel(schema, Maskoid::Bool, data, path, 1);
    lemma_any_fuel(schema, Maskoid::Int, data, path, 1);
    lemma_any_fuel(schema, Maskoid::Float, data, path, 1);
}

/// A constant string matches exactly that one string.
pub proof fn law_const_string(schema: SchemaskV1, value: String, data: JsonValue, path: Seq<PathView>)
    ensures
        validation_errors(schema, Maskoid::ConstString(value), data, path).len() == 0 <==> (
        data matches JsonValue::String(s) && s@ == value@),
{
    lemma_any_fuel(schema, Maskoid::ConstString(value), data, path, 1);
}

// ---------------------------------------------------------------- options and references

/// An option matches `null`.
pub proof fn law_option_accepts_null(schema: SchemaskV1, inner: Maskoid, path: Seq<PathView>)
    ensures
        match_terminates(schema, Maskoid::Option(Box::new(inner)), JsonValue::Null, path),
        validation_errors(schema, Maskoid::Option(Box::new(inner)), JsonValue::Null, path)
            == no_errors(),
{
    lemma_any_fuel(schema, Maskoid::Option(Box::new(inner)), JsonValue::Null, path, 1);
}

/// A value other than `null` matches a (not nested) option exactly as it
/// matches the option's inner maskoid, with the same errors.
pub proof fn law_option_is_transparent(
    schema: SchemaskV1,
    inner: Maskoid,
    data: JsonValue,
    path: Seq<PathView>,
)
    requires
        !(inner is Option),
        !(data is Null),
        match_terminates(schema, inner, data, path),
    ensures
        match_terminates(schema, Maskoid::Option(Box::new(inner)), data, path),
        validation_errors(schema, Maskoid::Option(Box::new(inner)), data, path) == validation_errors(
            schema,
            inner,
            data,
            path,
        ),
{
    let f = choose|fuel: nat| (#[trigger] match_errors(schema, inner, data, path, fuel)) is Some;
    lemma_any_fuel(schema, inner, data, path, f);
    lemma_any_fuel(schema, Maskoid::Option(Box::new(inner)), data, path, f + 1);
}

/// Inside a nested option, the inner option is the value of the single key
/// `element`.
pub proof fn law_nested_option_element(
    schema: SchemaskV1,
    inner: Maskoid,
    obj: StrMap<JsonValue>,
    path: Seq<PathView>,
)
    requires
        inner is Option,
        obj.entries@.len() == 1,
        has_key(obj.entries@, "element"@),
        match_terminates(
            schema,
            inner,
            lookup(obj.entries@, "element"@).unwrap(),
            path.push(PathView::Key("element"@)),
        ),
    ensures
        match_terminates(schema, Maskoid::Option(Box::new(inner)), JsonValue::Object(obj), path),
        validation_errors(schema, Maskoid::Option(Box::new(inner)), JsonValue::Object(obj), path)
            == validation_errors(
            schema,
            inner,
            lookup(obj.entries@, "element"@).unwrap(),
            path.push(PathView::Key("element"@)),
        ),
{
    let v = lookup(obj.entries@, "element"@).unwrap();
    let p = path.push(PathView::Key("element"@));
    let f = choose|fuel: nat| (#[trigger] match_errors(schema, inner, v, p, fuel)) is Some;
    lemma_any_fuel(schema, inner, v, p, f);
    lemma_any_fuel(schema, Maskoid::Option(Box::new(inner)), JsonValue::Object(obj), path, f + 1);
}

/// A reference matches what the binding it names matches, with the same errors.
pub proof fn law_ref_follows_binding(
    schema: SchemaskV1,
    name: String,
    data: JsonValue,
    path: Seq<PathView>,
)
    requires
        lookup(schema.bindings.entries@, name@) is Some,
        match_terminates(schema, lookup(schema.bindings.entries@, name@).unwrap(), data, path),
    ensures
        match_terminates(schema, Maskoid::Ref(name), data, path),
        validation_errors(schema, Maskoid::Ref(name), data, path) == validation_errors(
            schema,
            lookup(schema.bindings.entries@, name@).unwrap(),
            data,
            path,
        ),
{
    let m = lookup(schema.bindings.entries@, name@).unwrap();
    let f = choose|fuel: nat| (#[trigger] match_errors(schema, m, data, path, fuel)) is Some;
    lemma_any_fuel(schema, m, data, path, f);
    lemma_any_fuel(schema, Maskoid::Ref(name), data, path, f + 1);
}

// ---------------------------------------------------------------- collections

proof fn lemma_items_empty(
    schema: SchemaskV1,
    inner: Maskoid,
    arr: Seq<JsonValue>,
    path: Seq<PathView>,
    i: nat,
    f: nat,
)
    requires
        items_errors(schema, inner, arr, path, i, f) is Some,
    ensures
        forall|j: int|
            i <= j < arr.len() ==> match_terminates(
                schema,
                inner,
                arr[j],
                path.push(PathView::Index(j as usize)),
            ),
        items_errors(schema, inner, arr, path, i, f).unwrap().len() == 0 <==> forall|j: int|
            i <= j < arr.len() ==> (#[trigger] validation_errors(
                schema,
                inner,
                arr[j],
                path.push(PathView::Index(j as usize)),
            )).len() == 0,
    decreases arr.len() - i,
{
    if i < arr.len() {
        lemma_items_empty(schema, inner, arr, path, i + 1, f);
        lemma_any_fuel(schema, inner, arr[i as int], path.push(PathView::Index(i as usize)), f);
    }
}

/// A list matches an array exactly when every element matches the list's
/// maskoid.
pub proof fn law_list_elementwise(
    schema: SchemaskV1,
    inner: Maskoid,
    arr: Vec<JsonValue>,
    path: Seq<PathView>,
)
    requires
        match_terminates(schema, Maskoid::List(Box::new(inner)), JsonValue::Array(arr), path),
    ensures
        validation_errors(schema, Maskoid::List(Box::new(inner)), JsonValue::Array(arr), path).len()
            == 0 <==> forall|j: int|
            0 <= j < arr@.len() ==> (#[trigger] validation_errors(
                schema,
                inner,
                arr@[j],
                path.push(PathView::Index(j as usize)),
            )).len() == 0,
{
    let m = Maskoid::List(Box::new(inner));
    let f = choose|fuel: nat| (#[trigger] match_errors(schema, m, JsonValue::Array(arr), path, fuel)) is Some;
    lemma_any_fuel(schema, m, JsonValue::Array(arr), path, f);
    lemma_items_empty(schema, inner, arr@, path, 0, (f - 1) as nat);
}

proof fn lemma_values_empty(
    schema: SchemaskV1,
    inner: Maskoid,
    e: Seq<(String, JsonValue)>,
    path: Seq<PathView>,
    i: nat,
    f: nat,
)
    requires
        values_errors(schema, inner, e, path, i, f) is Some,
    ensures
        forall|j: int|
            i <= j < e.len() ==> match_terminates(schema, inner, e[j].1, path.push(PathView::Key(e[j].0@))),
        values_errors(schema, inner, e, path, i, f).unwrap().len() == 0 <==> forall|j: int|
            i <= j < e.len() ==> (#[trigger] validation_errors(
                schema,
                inner,
                e[j].1,
                path.push(PathView::Key(e[j].0@)),
            )).len() == 0,
    decreases e.len() - i,
{
    if i < e.len() {
        lemma_values_empty(schema, inner, e, path, i + 1, f);
        lemma_any_fuel(schema, inner, e[i as int].1, path.push(PathView::Key(e[i as int].0@)), f);
    }
}

/// A string map matches an object exactly when the value of every key matches
/// the map's maskoid.
pub proof fn law_string_map_valuewise(
    schema: SchemaskV1,
    inner: Maskoid,
    obj: StrMap<JsonValue>,
    path: Seq<PathView>,
)
    requires
        match_terminates(schema, Maskoid::StringMap(Box::new(inner)), JsonValue::Object(obj), path),
    ensures
        validation_errors(schema, Maskoid::StringMap(Box::new(inner)), JsonValue::Object(obj), path).len()
            == 0 <==> forall|j: int|
            0 <= j < obj.entries@.len() ==> (#[trigger] validation_errors(
                schema,
                inner,
                obj.entries@[j].1,
                path.push(PathView::Key(obj.entries@[j].0@)),
            )).len() == 0,
{
    let m = Maskoid::StringMap(Box::new(inner));
    let f = choose|fuel: nat| (#[trigger] match_errors(schema, m, JsonValue::Object(obj), path, fuel)) is Some;
    lemma_any_fuel(schema, m, JsonValue::Object(obj), path, f);
    lemma_values_empty(schema, inner, obj.entries@, path, 0, (f - 1) as nat);
}

proof fn lemma_tuple_empty(
    schema: SchemaskV1,
    elements: Seq<MaskoidField>,
    arr: Seq<JsonValue>,
    path: Seq<PathView>,
    i: nat,
    f: nat,
)
    requires
        tuple_errors(schema, elements, arr, path, i, f) is Some,
    ensures
        forall|j: int|
            i <= j < arr.len() ==> match_terminates(
                schema,
                elements[j].maskoid,
                arr[j],
                path.push(PathView::Index(j as usize)),
            ),
        tuple_errors(schema, elements, arr, path, i, f).unwrap().len() == 0 <==> forall|j: int|
            i <= j < arr.len() ==> (#[trigger] validation_errors(
                schema,
                elements[j].maskoid,
                arr[j],
                path.push(PathView::Index(j as usize)),
            )).len() == 0,
    decreases arr.len() - i,
{
    if i < arr.len() {
        lemma_tuple_empty(schema, elements, arr, path, i + 1, f);
        lemma_any_fuel(
            schema,
            elements[i as int].maskoid,
            arr[i as int],
            path.push(PathView::Index(i as usize)),
            f,
        );
    }
}

/// A tuple matches an array of its length exactly when each element matches
/// the tuple's maskoid at the same position.
pub proof fn law_tuple_pairwise(
    schema: SchemaskV1,
    t: crate::v1::MaskoidTuple,
    arr: Vec<JsonValue>,
    path: Seq<PathView>,
)
    requires
        arr@.len() == t.elements@.len(),
        match_terminates(schema, Maskoid::Tuple(t), JsonValue::Array(arr), path),
    ensures
        validation_errors(schema, Maskoid::Tuple(t), JsonValue::Array(arr), path).len() == 0 <==> forall|
            j: int,
        |
            0 <= j < arr@.len() ==> (#[trigger] validation_errors(
                schema,
                t.elements@[j].maskoid,
                arr@[j],
                path.push(PathView::Index(j as usize)),
            )).len() == 0,
{
    let m = Maskoid::Tuple(t);
    let f = choose|fuel: nat| (#[trigger] match_errors(schema, m, JsonValue::Array(arr), path, fuel)) is Some;
    lemma_any_fuel(schema, m, JsonValue::Array(arr), path, f);
    lemma_tuple_empty(schema, t.elements@, arr@, path, 0, (f - 1) as nat);
}

proof fn lemma_dup_row(arr: Seq<JsonValue>, path: Seq<PathView>, i: nat, j: nat, n: nat)
    requires
        i < j < n <= arr.len(),
        json_eq(arr[i as int], arr[j as int]),
    ensures
        dup_row(arr, path, i, n).len() > 0,
    decreases n,
{
    if j < n - 1 {
        lemma_dup_row(arr, path, i, j, (n - 1) as nat);
    }
}

proof fn lemma_dup_errors(arr: Seq<JsonValue>, path: Seq<PathView>, i: nat, j: nat, n: nat)
    requires
        i < n <= arr.len(),
        i < j < arr.len(),
        json_eq(arr[i as int], arr[j as int]),
    ensures
        dup_errors(arr, path, n).len() > 0,
    decreases n,
{
    if i == n - 1 {
        lemma_dup_row(arr, path, i, j, arr.len());
    } else {
        lemma_dup_errors(arr, path, i, j, (n - 1) as nat);
    }
}

/// A set refuses an array that holds two equal elements.
pub proof fn law_set_rejects_duplicates(
    schema: SchemaskV1,
    inner: Maskoid,
    arr: Vec<JsonValue>,
    path: Seq<PathView>,
    i: int,
    j: int,
)
    requires
        0 <= i < j < arr@.len(),
        json_eq(arr@[i], arr@[j]),
        match_terminates(schema, Maskoid::SetOf(Box::new(inner)), JsonValue::Array(arr), path),
    ensures
        validation_errors(schema, Maskoid::SetOf(Box::new(inner)), JsonValue::Array(arr), path).len()
            > 0,
{
    let m = Maskoid::SetOf(Box::new(inner));
    let f = choose|fuel: nat| (#[trigger] match_errors(schema, m, JsonValue::Array(arr), path, fuel)) is Some;
    lemma_any_fuel(schema, m, JsonValue::Array(arr), path, f);
    lemma_dup_errors(arr@, path, i as nat, j as nat, arr@.len());
}

proof fn lemma_dup_row_empty(arr: Seq<JsonValue>, path: Seq<PathView>, i: nat, n: nat)
    requires
        n <= arr.len(),
    ensures
        dup_row(arr, path, i, n).len() == 0 <==> forall|j: int|
            i < j < n ==> !(#[trigger] json_eq(arr[i as int], arr[j])),
    decreases n,
{
    if n > i + 1 {
        lemma_dup_row_empty(arr, path, i, (n - 1) as nat);
    }
}

proof fn lemma_dup_errors_empty(arr: Seq<JsonValue>, path: Seq<PathView>, n: nat)
    requires
        n <= arr.len(),
    ensures
        dup_errors(arr, path, n).len() == 0 <==> forall|i: int, j: int|
            0 <= i < n && i < j < arr.len() ==> !(#[trigger] json_eq(arr[i], arr[j])),
    decreases n,
{
    if n > 0 {
        lemma_dup_errors_empty(arr, path, (n - 1) as nat);
        lemma_dup_row_empty(arr, path, (n - 1) as nat, arr.len());
    }
}

/// A set matches an array exactly when every element matches the set's
/// maskoid and no two elements are equal.
pub proof fn law_set_elementwise(
    schema: SchemaskV1,
    inner: Maskoid,
    arr: Vec<JsonValue>,
    path: Seq<PathView>,
)
    requires
        match_terminates(schema, Maskoid::SetOf(Box::new(inner)), JsonValue::Array(arr), path),
    ensures
        validation_errors(schema, Maskoid::SetOf(Box::new(inner)), JsonValue::Array(arr), path).len()
            == 0 <==> ((forall|j: int|
            0 <= j < arr@.len() ==> (#[trigger] validation_errors(
                schema,
                inner,
                arr@[j],
                path.push(PathView::Index(j as usize)),
            )).len() == 0) && (forall|i: int, j: int|
            0 <= i < j < arr@.len() ==> !(#[trigger] json_eq(arr@[i], arr@[j])))),
{
    let m = Maskoid::SetOf(Box::new(inner));
    let f = choose|fuel: nat| (#[trigger] match_errors(schema, m, JsonValue::Array(arr), path, fuel)) is Some;
    lemma_any_fuel(schema, m, JsonValue::Array(arr), path, f);
    lemma_items_empty(schema, inner, arr@, path, 0, (f - 1) as nat);
    lemma_dup_errors_empty(arr@, path, arr@.len());
}

proof fn lemma_items_some(
    schema: SchemaskV1,
    inner: Maskoid,
    arr: Seq<JsonValue>,
    path: Seq<PathView>,
    i: nat,
    f: nat,
)
    ensures
        items_errors(schema, inner, arr, path, i, f) is Some <==> forall|j: int|
            i <= j < arr.len() ==> (#[trigger] match_errors(
                schema,
                inner,
                arr[j],
                path.push(PathView::Index(j as usize)),
                f,
            )) is Some,
    decreases arr.len() - i,
{
    if i < arr.len() {
        lemma_items_some(schema, inner, arr, path, i + 1, f);
        let here = match_errors(schema, inner, arr[i as int], path.push(PathView::Index(i as usize)), f);
        assert(items_errors(schema, inner, arr, path, i, f) == cat(
            here,
            items_errors(schema, inner, arr, path, i + 1, f),
        ));
        if forall|j: int|
            i <= j < arr.len() ==> (#[trigger] match_errors(
                schema,
                inner,
                arr[j],
                path.push(PathView::Index(j as usize)),
                f,
            )) is Some {
            assert(here is Some);
        }
    }
}

/// A set does not care about order: an array and any reordering of it both
/// match or both fail. `to` and `from` are inverse permutations of the
/// positions; element `k` of `a` stands at position `to[k]` of `b`.
pub proof fn law_set_order_irrelevant(
    schema: SchemaskV1,
    inner: Maskoid,
    a: Vec<JsonValue>,
    b: Vec<JsonValue>,
    path: Seq<PathView>,
    to: Seq<int>,
    from: Seq<int>,
)
    requires
        b@.len() == a@.len(),
        to.len() == a@.len(),
        from.len() == a@.len(),
        forall|k: int|
            0 <= k < a@.len() ==> 0 <= #[trigger] to[k] < a@.len() && from[to[k]] == k && b@[to[k]]
                == a@[k],
        forall|k: int| 0 <= k < a@.len() ==> 0 <= #[trigger] from[k] < a@.len() && to[from[k]] == k,
        match_terminates(schema, Maskoid::SetOf(Box::new(inner)), JsonValue::Array(a), path),
    ensures
        match_terminates(schema, Maskoid::SetOf(Box::new(inner)), JsonValue::Array(b), path),
        validation_errors(schema, Maskoid::SetOf(Box::new(inner)), JsonValue::Array(a), path).len() == 0
            <==> validation_errors(schema, Maskoid::SetOf(Box::new(inner)), JsonValue::Array(b), path).len()
            == 0,
{
    let m = Maskoid::SetOf(Box::new(inner));
    let n = a@.len();
    let f = choose|fuel: nat| (#[trigger] match_errors(schema, m, JsonValue::Array(a), path, fuel)) is Some;
    lemma_any_fuel(schema, m, JsonValue::Array(a), path, f);
    let g = (f - 1) as nat;
    // Every element of `b` comes to an end where its twin in `a` does.
    lemma_items_some(schema, inner, a@, path, 0, g);
    assert forall|k: int| 0 <= k < n implies (#[trigger] match_errors(schema, inner, b@[k], path.push(PathView::Index((k) as usize)), g)) is Some by {
        let j = from[k];
        assert(to[j] == k);
        assert(b@[k] == a@[j]);
        assert(match_errors(schema, inner, a@[j], path.push(PathView::Index((j) as usize)), g) is Some);
        lemma_path_free(schema, inner, a@[j], path.push(PathView::Index((j) as usize)), path.push(PathView::Index((k) as usize)), g);
    }
    lemma_items_some(schema, inner, b@, path, 0, g);
    assert(match_errors(schema, m, JsonValue::Array(b), path, f) == cat(
        items_errors(schema, inner, b@, path, 0, g),
        Some(dup_errors(b@, path, b@.len())),
    ));
    lemma_any_fuel(schema, m, JsonValue::Array(b), path, f);
    law_set_elementwise(schema, inner, a, path);
    law_set_elementwise(schema, inner, b, path);
    lemma_items_empty(schema, inner, a@, path, 0, g);
    lemma_items_empty(schema, inner, b@, path, 0, g);
    // Elements match alike wherever they stand.
    assert forall|j: int| 0 <= j < n implies (#[trigger] validation_errors(schema, inner, a@[j], path.push(PathView::Index((j) as usize)))).len()
        == validation_errors(schema, inner, b@[to[j]], path.push(PathView::Index((to[j]) as usize))).len() by {
        lemma_validation_path_free(schema, inner, a@[j], path.push(PathView::Index((j) as usize)), path.push(PathView::Index((to[j]) as usize)));
    }
    assert forall|k: int| 0 <= k < n implies (#[trigger] validation_errors(schema, inner, b@[k], path.push(PathView::Index((k) as usize)))).len()
        == validation_errors(schema, inner, a@[from[k]], path.push(PathView::Index((from[k]) as usize))).len() by {
        let j = from[k];
        assert(to[j] == k);
        lemma_validation_path_free(schema, inner, a@[j], path.push(PathView::Index((j) as usize)), path.push(PathView::Index((k) as usize)));
    }
    // A pair of equal elements in one is a pair of equal elements in the other.
    assert((exists|i: int, j: int| 0 <= i < j < n && #[trigger] json_eq(a@[i], a@[j])) ==> (exists|
        i: int,
        j: int,
    | 0 <= i < j < n && #[trigger] json_eq(b@[i], b@[j]))) by {
        if exists|i: int, j: int| 0 <= i < j < n && #[trigger] json_eq(a@[i], a@[j]) {
            let (i, j) = choose|i: int, j: int| 0 <= i < j < n && #[trigger] json_eq(a@[i], a@[j]);
            let (x, y) = (to[i], to[j]);
            assert(x != y) by {
                if x == y {
                    assert(from[x] == i && from[y] == j);
                }
            }
            if x < y {
                assert(json_eq(b@[x], b@[y]));
            } else {
                lemma_json_eq_symmetric(a@[i], a@[j]);
                assert(json_eq(b@[y], b@[x]));
            }
        }
    }
    assert((exists|i: int, j: int| 0 <= i < j < n && #[trigger] json_eq(b@[i], b@[j])) ==> (exists|
        i: int,
        j: int,
    | 0 <= i < j < n && #[trigger] json_eq(a@[i], a@[j]))) by {
        if exists|i: int, j: int| 0 <= i < j < n && #[trigger] json_eq(b@[i], b@[j]) {
            let (i, j) = choose|i: int, j: int| 0 <= i < j < n && #[trigger] json_eq(b@[i], b@[j]);
            let (x, y) = (from[i], from[j]);
            assert(b@[i] == a@[x] && b@[j] == a@[y]) by {
                assert(to[x] == i && to[y] == j);
            }
            assert(x != y) by {
                if x == y {
                    assert(to[x] == i && to[y] == j);
                }
            }
            if x < y {
                assert(json_eq(a@[x], a@[y]));
            } else {
                lemma_json_eq_symmetric(b@[i], b@[j]);
                assert(json_eq(a@[y], a@[x]));
            }
        }
    }
}

/// A tuple refuses an array of another length, with a single error.
pub proof fn law_tuple_length(
    schema: SchemaskV1,
    t: crate::v1::MaskoidTuple,
    arr: Vec<JsonValue>,
    path: Seq<PathView>,
)
    requires
        arr@.len() != t.elements@.len(),
    ensures
        validation_errors(schema, Maskoid::Tuple(t), JsonValue::Array(arr), path).len() == 1,
{
    lemma_any_fuel(schema, Maskoid::Tuple(t), JsonValue::Array(arr), path, 1);
}

// ---------------------------------------------------------------- unions and records

/// A tagged union refuses an object that does not have exactly one key, with a
/// single error.
pub proof fn law_union_needs_one_key(
    schema: SchemaskV1,
    u: crate::v1::MaskoidTaggedUnion,
    obj: StrMap<JsonValue>,
    path: Seq<PathView>,
)
    requires
        obj.entries@.len() != 1,
    ensures
        validation_errors(schema, Maskoid::TaggedUnion(u), JsonValue::Object(obj), path).len() == 1,
{
    assert(match_errors(schema, Maskoid::TaggedUnion(u), JsonValue::Object(obj), path, 1) == union_errors(
        schema,
        u.variants,
        JsonValue::Object(obj),
        path,
        0,
    ));
    lemma_any_fuel(schema, Maskoid::TaggedUnion(u), JsonValue::Object(obj), path, 1);
}

/// A bare string names a variant: it matches exactly when it names a variant
/// whose maskoid is `Null`.
pub proof fn law_union_bare_tag(
    schema: SchemaskV1,
    u: crate::v1::MaskoidTaggedUnion,
    tag: String,
    path: Seq<PathView>,
)
    ensures
        validation_errors(schema, Maskoid::TaggedUnion(u), JsonValue::String(tag), path).len() == 0
            <==> (lookup(u.variants.entries@, tag@) matches Some(v) && v.maskoid is Null),
{
    assert(match_errors(schema, Maskoid::TaggedUnion(u), JsonValue::String(tag), path, 1) == union_errors(
        schema,
        u.variants,
        JsonValue::String(tag),
        path,
        0,
    ));
    lemma_any_fuel(schema, Maskoid::TaggedUnion(u), JsonValue::String(tag), path, 1);
}

/// A single-key object names a variant by its key: it matches exactly when the
/// key is a variant and the value matches that variant's maskoid.
pub proof fn law_union_single_key(
    schema: SchemaskV1,
    u: crate::v1::MaskoidTaggedUnion,
    obj: StrMap<JsonValue>,
    path: Seq<PathView>,
)
    requires
        obj.entries@.len() == 1,
        match_terminates(schema, Maskoid::TaggedUnion(u), JsonValue::Object(obj), path),
    ensures
        validation_errors(schema, Maskoid::TaggedUnion(u), JsonValue::Object(obj), path).len() == 0
            <==> (lookup(u.variants.entries@, obj.entries@[0].0@) matches Some(v) && validation_errors(
            schema,
            v.maskoid,
            obj.entries@[0].1,
            path.push(PathView::Key(obj.entries@[0].0@)),
        ).len() == 0),
{
    let m = Maskoid::TaggedUnion(u);
    let data = JsonValue::Object(obj);
    let f = choose|fuel: nat| (#[trigger] match_errors(schema, m, data, path, fuel)) is Some;
    lemma_any_fuel(schema, m, data, path, f);
    let g = (f - 1) as nat;
    assert(match_errors(schema, m, data, path, f) == union_errors(schema, u.variants, data, path, g));
    if let Some(v) = lookup(u.variants.entries@, obj.entries@[0].0@) {
        lemma_any_fuel(schema, v.maskoid, obj.entries@[0].1, path.push(PathView::Key(obj.entries@[0].0@)), g);
    }
}

proof fn lemma_unexpected(
    fields: Seq<(String, MaskoidField)>,
    obj: Seq<(String, JsonValue)>,
    path: Seq<PathView>,
    k: int,
    n: nat,
)
    requires
        0 <= k < n <= obj.len(),
        !has_key(fields, obj[k].0@),
    ensures
        unexpected_errors(fields, obj, path, n).len() > 0,
    decreases n,
{
    if k < n - 1 {
        lemma_unexpected(fields, obj, path, k, (n - 1) as nat);
    }
}

/// A record refuses an object with a key that is not one of its fields.
pub proof fn law_record_rejects_unknown_key(
    schema: SchemaskV1,
    r: crate::v1::MaskoidRecord,
    obj: StrMap<JsonValue>,
    path: Seq<PathView>,
    k: int,
)
    requires
        0 <= k < obj.entries@.len(),
        !has_key(r.fields.entries@, obj.entries@[k].0@),
        match_terminates(schema, Maskoid::Record(r), JsonValue::Object(obj), path),
    ensures
        validation_errors(schema, Maskoid::Record(r), JsonValue::Object(obj), path).len() > 0,
{
    let m = Maskoid::Record(r);
    let f = choose|fuel: nat| (#[trigger] match_errors(schema, m, JsonValue::Object(obj), path, fuel)) is Some;
    lemma_any_fuel(schema, m, JsonValue::Object(obj), path, f);
    lemma_unexpected(r.fields.entries@, obj.entries@, path, k, obj.entries@.len());
}

proof fn lemma_fields_missing(
    schema: SchemaskV1,
    fields: Seq<(String, MaskoidField)>,
    obj: Seq<(String, JsonValue)>,
    path: Seq<PathView>,
    i: nat,
    k: int,
    f: nat,
)
    requires
        i <= k < fields.len(),
        lookup(obj, fields[k].0@) is None,
        !(fields[k].1.maskoid is Option),
        fields_errors(schema, fields, obj, path, i, f) is Some,
    ensures
        fields_errors(schema, fields, obj, path, i, f).unwrap().len() > 0,
    decreases fields.len() - i,
{
    let here = field_errors(schema, fields[i as int].0, fields[i as int].1, obj, path, f);
    let rest = fields_errors(schema, fields, obj, path, i + 1, f);
    assert(fields_errors(schema, fields, obj, path, i, f) == cat(here, rest));
    if i < k {
        lemma_fields_missing(schema, fields, obj, path, i + 1, k, f);
        assert((here.unwrap() + rest.unwrap()).len() == here.unwrap().len() + rest.unwrap().len());
    } else {
        assert(here.unwrap().len() == 1);
    }
}

/// A record refuses an object that lacks one of its fields, unless that field
/// is an option (which may be left out).
pub proof fn law_record_requires_fields(
    schema: SchemaskV1,
    r: crate::v1::MaskoidRecord,
    obj: StrMap<JsonValue>,
    path: Seq<PathView>,
    k: int,
)
    requires
        0 <= k < r.fields.entries@.len(),
        !has_key(obj.entries@, r.fields.entries@[k].0@),
        !(r.fields.entries@[k].1.maskoid is Option),
        match_terminates(schema, Maskoid::Record(r), JsonValue::Object(obj), path),
    ensures
        validation_errors(schema, Maskoid::Record(r), JsonValue::Object(obj), path).len() > 0,
{
    let m = Maskoid::Record(r);
    let f = choose|fuel: nat| (#[trigger] match_errors(schema, m, JsonValue::Object(obj), path, fuel)) is Some;
    lemma_any_fuel(schema, m, JsonValue::Object(obj), path, f);
    lemma_fields_missing(schema, r.fields.entries@, obj.entries@, path, 0, k, (f - 1) as nat);
}

proof fn lemma_fields_all_optional(
    schema: SchemaskV1,
    fields: Seq<(String, MaskoidField)>,
    obj: Seq<(String, JsonValue)>,
    path: Seq<PathView>,
    i: nat,
    f: nat,
)
    requires
        obj.len() == 0,
        forall|j: int| 0 <= j < fields.len() ==> (#[trigger] fields[j]).1.maskoid is Option,
    ensures
        fields_errors(schema, fields, obj, path, i, f) == Some(no_errors()),
    decreases fields.len() - i,
{
    if i < fields.len() {
        lemma_fields_all_optional(schema, fields, obj, path, i + 1, f);
        assert(fields[i as int].1.maskoid is Option);
        assert(lookup(obj, fields[i as int].0@) is None);
        assert(field_errors(schema, fields[i as int].0, fields[i as int].1, obj, path, f) == Some(
            no_errors(),
        ));
        assert(no_errors() + no_errors() == no_errors());
    }
}

/// A record whose fields are all options matches the empty object: every
/// optional field may be left out.
pub proof fn law_record_options_may_be_omitted(
    schema: SchemaskV1,
    r: crate::v1::MaskoidRecord,
    obj: StrMap<JsonValue>,
    path: Seq<PathView>,
)
    requires
        obj.entries@.len() == 0,
        forall|j: int|
            0 <= j < r.fields.entries@.len() ==> (#[trigger] r.fields.entries@[j]).1.maskoid is Option,
    ensures
        match_terminates(schema, Maskoid::Record(r), JsonValue::Object(obj), path),
        validation_errors(schema, Maskoid::Record(r), JsonValue::Object(obj), path) == no_errors(),
{
    lemma_fields_all_optional(schema, r.fields.entries@, obj.entries@, path, 0, 0);
    assert(unexpected_errors(r.fields.entries@, obj.entries@, path, 0) == no_errors());
    lemma_any_fuel(schema, Maskoid::Record(r), JsonValue::Object(obj), path, 1);
}

/// A record field `(name, field)` is satisfied by the entries `obj`: present
/// with a value that matches the field's maskoid, or absent and an option.
pub open spec fn field_satisfied(
    schema: SchemaskV1,
    entry: (String, MaskoidField),
    obj: Seq<(String, JsonValue)>,
    path: Seq<PathView>,
) -> bool {
    match lookup(obj, entry.0@) {
        Some(v) => validation_errors(schema, entry.1.maskoid, v, path.push(PathView::Key(entry.0@))).len()
            == 0,
        None => entry.1.maskoid is Option,
    }
}

proof fn lemma_unexpected_empty(
    fields: Seq<(String, MaskoidField)>,
    obj: Seq<(String, JsonValue)>,
    path: Seq<PathView>,
    n: nat,
)
    requires
        n <= obj.len(),
    ensures
        unexpected_errors(fields, obj, path, n).len() == 0 <==> forall|k: int|
            0 <= k < n ==> has_key(fields, (#[trigger] obj[k]).0@),
    decreases n,
{
    if n > 0 {
        lemma_unexpected_empty(fields, obj, path, (n - 1) as nat);
    }
}

proof fn lemma_fields_empty(
    schema: SchemaskV1,
    fields: Seq<(String, MaskoidField)>,
    obj: Seq<(String, JsonValue)>,
    path: Seq<PathView>,
    i: nat,
    f: nat,
)
    requires
        fields_errors(schema, fields, obj, path, i, f) is Some,
    ensures
        fields_errors(schema, fields, obj, path, i, f).unwrap().len() == 0 <==> forall|j: int|
            i <= j < fields.len() ==> field_satisfied(schema, #[trigger] fields[j], obj, path),
    decreases fields.len() - i,
{
    if i < fields.len() {
        lemma_fields_empty(schema, fields, obj, path, i + 1, f);
        let here = field_errors(schema, fields[i as int].0, fields[i as int].1, obj, path, f);
        let rest = fields_errors(schema, fields, obj, path, i + 1, f);
        assert(fields_errors(schema, fields, obj, path, i, f) == cat(here, rest));
        if let Some(v) = lookup(obj, fields[i as int].0@) {
            lemma_any_fuel(schema, fields[i as int].1.maskoid, v, path.push(PathView::Key(fields[i as int].0@)), f);
        }
    }
}

/// A record matches an object exactly when every key of the object is one of
/// its fields and every field is satisfied: present with a matching value, or
/// absent and an option.
pub proof fn law_record_fieldwise(
    schema: SchemaskV1,
    r: crate::v1::MaskoidRecord,
    obj: StrMap<JsonValue>,
    path: Seq<PathView>,
)
    requires
        match_terminates(schema, Maskoid::Record(r), JsonValue::Object(obj), path),
    ensures
        validation_errors(schema, Maskoid::Record(r), JsonValue::Object(obj), path).len() == 0 <==> (
        (forall|k: int|
            0 <= k < obj.entries@.len() ==> has_key(r.fields.entries@, (#[trigger] obj.entries@[k]).0@))
            && (forall|j: int|
            0 <= j < r.fields.entries@.len() ==> field_satisfied(
                schema,
                #[trigger] r.fields.entries@[j],
                obj.entries@,
                path,
            ))),
{
    let m = Maskoid::Record(r);
    let data = JsonValue::Object(obj);
    let f = choose|fuel: nat| (#[trigger] match_errors(schema, m, data, path, fuel)) is Some;
    lemma_any_fuel(schema, m, data, path, f);
    let g = (f - 1) as nat;
    lemma_fields_empty(schema, r.fields.entries@, obj.entries@, path, 0, g);
    lemma_unexpected_empty(r.fields.entries@, obj.entries@, path, obj.entries@.len());
}

// ---------------------------------------------------------------- generators

proof fn lemma_same_drop_last<V>(e1: Seq<(String, V)>, e2: Seq<(String, V)>)
    requires
        crate::strmap::same_entries(e1, e2),
        e1.len() > 0,
    ensures
        crate::strmap::same_entries(e1.drop_last(), e2.drop_last()),
        e1.last().0@ == e2.last().0@,
        e1.last().1 == e2.last().1,
{
    assert forall|i: int| 0 <= i < e1.len() - 1 implies (#[trigger] e1.drop_last()[i]).0@ == e2.drop_last()[i].0@
        && e1.drop_last()[i].1 == e2.drop_last()[i].1 by {
        assert(e1.drop_last()[i] == e1[i] && e2.drop_last()[i] == e2[i]);
    }
    assert(e1[e1.len() - 1] == e1.last());
}

proof fn lemma_texts_same(e1: Seq<(String, Maskoid)>, e2: Seq<(String, Maskoid)>)
    requires
        crate::strmap::same_entries(e1, e2),
    ensures
        crate::gen_typescript::ts_binding_parts(e1) == crate::gen_typescript::ts_binding_parts(e2),
        crate::gen_markdown::md_sections(e1) == crate::gen_markdown::md_sections(e2),
        crate::gen_rust::rs_bindings(e1) == crate::gen_rust::rs_bindings(e2),
    decreases e1.len(),
{
    if e1.len() > 0 {
        lemma_same_drop_last(e1, e2);
        lemma_texts_same(e1.drop_last(), e2.drop_last());
    }
}

/// The generated TypeScript, Markdown and Rust list the bindings in key order,
/// whatever order they were inserted in: two schemas whose well-formed binding
/// maps hold the same maskoid under every name give the same texts.
pub proof fn law_generators_follow_key_order(s1: SchemaskV1, s2: SchemaskV1)
    requires
        s1.bindings.wf(),
        s2.bindings.wf(),
        forall|k: Seq<char>| #[trigger] s1.bindings.spec_get(k) == s2.bindings.spec_get(k),
    ensures
        crate::gen_typescript::typescript_text(s1) == crate::gen_typescript::typescript_text(s2),
        crate::gen_markdown::markdown_text(s1) == crate::gen_markdown::markdown_text(s2),
        crate::gen_rust::rust_source(s1) == crate::gen_rust::rust_source(s2),
        crate::gen_rust::rust_text(s1) == crate::gen_rust::rust_text(s2),
{
    assert forall|k: Seq<char>| #[trigger] lookup(s1.bindings.entries@, k) == lookup(s2.bindings.entries@, k) by {
        assert(s1.bindings.spec_get(k) == s2.bindings.spec_get(k));
    }
    crate::strmap::lemma_sorted_entries_unique(s1.bindings.entries@, s2.bindings.entries@);
    lemma_texts_same(s1.bindings.entries@, s2.bindings.entries@);
}

// ---------------------------------------------------------------- JSON equality

/// Equality of JSON values, as the set check uses it: values of two kinds are
/// never equal; `null` equals only `null`; booleans, integers and strings are
/// equal exactly when their contents are.
pub proof fn law_json_eq_scalars(a: JsonValue, b: JsonValue)
    ensures
        json_eq(a, b) ==> ((a is Null) == (b is Null) && (a is Bool) == (b is Bool) && (a is Number) == (
        b is Number) && (a is String) == (b is String) && (a is Array) == (b is Array) && (a is Object) == (
        b is Object)),
        a is Null ==> (json_eq(a, b) <==> b is Null),
        a is Bool && b is Bool ==> (json_eq(a, b) <==> a->Bool_0 == b->Bool_0),
        a is String && b is String ==> (json_eq(a, b) <==> a->String_0@ == b->String_0@),
        a is Number && b is Number && a->Number_0 !is Float ==> (json_eq(a, b) <==> a->Number_0
            == b->Number_0),
{
}

/// A set of strings accepts an array of strings exactly when no two of its
/// strings have the same characters.
pub proof fn law_string_set_accepts_distinct(schema: SchemaskV1, arr: Vec<JsonValue>, path: Seq<PathView>)
    requires
        forall|i: int| 0 <= i < arr@.len() ==> #[trigger] arr@[i] is String,
        match_terminates(schema, Maskoid::SetOf(Box::new(Maskoid::String)), JsonValue::Array(arr), path),
    ensures
        validation_errors(schema, Maskoid::SetOf(Box::new(Maskoid::String)), JsonValue::Array(arr), path).len()
            == 0 <==> (forall|i: int, j: int|
            0 <= i < j < arr@.len() ==> (#[trigger] arr@[i])->String_0@ != (#[trigger] arr@[j])->String_0@),
{
    law_set_elementwise(schema, Maskoid::String, arr, path);
    assert forall|j: int| 0 <= j < arr@.len() implies (#[trigger] validation_errors(
        schema,
        Maskoid::String,
        arr@[j],
        path.push(PathView::Index(j as usize)),
    )).len() == 0 by {
        law_scalar_kinds(schema, arr@[j], path.push(PathView::Index(j as usize)));
    }
    let n = arr@.len();
    if forall|i: int, j: int| 0 <= i < j < n ==> !(#[trigger] json_eq(arr@[i], arr@[j])) {
        assert forall|i: int, j: int| 0 <= i < j < n implies (#[trigger] arr@[i])->String_0@ != (
        #[trigger] arr@[j])->String_0@ by {
            law_json_eq_scalars(arr@[i], arr@[j]);
            assert(!json_eq(arr@[i], arr@[j]));
        }
    }
    if forall|i: int, j: int| 0 <= i < j < n ==> (#[trigger] arr@[i])->String_0@ != (#[trigger] arr@[j])->String_0@ {
        assert forall|i: int, j: int| 0 <= i < j < n implies !(#[trigger] json_eq(arr@[i], arr@[j])) by {
            law_json_eq_scalars(arr@[i], arr@[j]);
            assert(arr@[i]->String_0@ != arr@[j]->String_0@);
        }
    }
}

/// Every JSON value equals itself, and equality goes both ways; arrays are
/// equal exactly when they have the same length and are equal position by
/// position.
pub proof fn law_json_eq_equivalence(a: JsonValue, b: JsonValue)
    ensures
        json_eq(a, a),
        json_eq(a, b) ==> json_eq(b, a),
        a is Array && b is Array ==> (json_eq(a, b) <==> (a->Array_0@.len() == b->Array_0@.len() && forall|j: int|
            0 <= j < a->Array_0@.len() ==> #[trigger] json_eq(a->Array_0@[j], b->Array_0@[j]))),
{
    lemma_json_eq_reflexive(a);
    if json_eq(a, b) {
        crate::json::lemma_json_eq_symmetric(a, b);
    }
    if let (JsonValue::Array(x), JsonValue::Array(y)) = (a, b) {
        crate::json::lemma_items_eq_pointwise(x@, y@);
    }
}

proof fn lemma_json_eq_reflexive(a: JsonValue)
    ensures
        json_eq(a, a),
    decreases a,
{
    match a {
        JsonValue::Array(x) => {
            crate::json::lemma_items_eq_pointwise(x@, x@);
            assert forall|j: int| 0 <= j < x@.len() implies #[trigger] json_eq(x@[j], x@[j]) by {
                assert(decreases_to!(a => x@[j]));
                lemma_json_eq_reflexive(x@[j]);
            }
        },
        JsonValue::Object(x) => {
            crate::json::lemma_entries_eq_pointwise(x.entries@, x.entries@);
            assert forall|j: int| 0 <= j < x.entries@.len() implies #[trigger] crate::json::entry_eq(
                x.entries@[j],
                x.entries@[j],
            ) by {
                assert(decreases_to!(a => x.entries@[j].1));
                lemma_json_eq_reflexive(x.entries@[j].1);
            }
        },
        _ => {},
    }
}

// ---------------------------------------------------------------- generated types

/// The TypeScript types: scalars by their JSON kind (integers and floats are
/// both `number`), lists and sets as arrays of their element type, string maps
/// as records, and a plain option as its type or `null`.
pub proof fn law_typescript_types(inner: Maskoid)
    ensures
        crate::gen_typescript::ts_type(Maskoid::Null) == "null"@,
        crate::gen_typescript::ts_type(Maskoid::Any) == "any"@,
        crate::gen_typescript::ts_type(Maskoid::String) == "string"@,
        crate::gen_typescript::ts_type(Maskoid::Bool) == "boolean"@,
        crate::gen_typescript::ts_type(Maskoid::Int) == "number"@,
        crate::gen_typescript::ts_type(Maskoid::Float) == crate::gen_typescript::ts_type(Maskoid::Int),
        crate::gen_typescript::ts_type(Maskoid::List(Box::new(inner))) == "Array<"@ + crate::gen_typescript::ts_type(
            inner,
        ) + ">"@,
        crate::gen_typescript::ts_type(Maskoid::SetOf(Box::new(inner))) == crate::gen_typescript::ts_type(
            Maskoid::List(Box::new(inner)),
        ),
        crate::gen_typescript::ts_type(Maskoid::StringMap(Box::new(inner))) == "Record<string, "@
            + crate::gen_typescript::ts_type(inner) + ">"@,
        !(inner is Option) ==> crate::gen_typescript::ts_type(Maskoid::Option(Box::new(inner)))
            == crate::gen_typescript::ts_type(inner) + " | null"@,
{
}

/// The Markdown notation: scalars by name, where an integer is `integer` and
/// any number is `number`, so the two differ; lists as `Array<..>`, sets as
/// `Set<..>`, string maps as `Record<string, ..>`, options with `| null`.
pub proof fn law_markdown_types(inner: Maskoid)
    ensures
        crate::gen_markdown::md_type(Maskoid::Null) == "null"@,
        crate::gen_markdown::md_type(Maskoid::Any) == "any"@,
        crate::gen_markdown::md_type(Maskoid::String) == "string"@,
        crate::gen_markdown::md_type(Maskoid::Bool) == "boolean"@,
        crate::gen_markdown::md_type(Maskoid::Int) == "integer"@,
        crate::gen_markdown::md_type(Maskoid::Float) == "number"@,
        crate::gen_markdown::md_type(Maskoid::Float) != crate::gen_markdown::md_type(Maskoid::Int),
        crate::gen_markdown::md_type(Maskoid::List(Box::new(inner))) == "Array<"@ + crate::gen_markdown::md_type(
            inner,
        ) + ">"@,
        crate::gen_markdown::md_type(Maskoid::SetOf(Box::new(inner))) == "Set<"@ + crate::gen_markdown::md_type(
            inner,
        ) + ">"@,
        crate::gen_markdown::md_type(Maskoid::StringMap(Box::new(inner))) == "Record<string, "@
            + crate::gen_markdown::md_type(inner) + ">"@,
        crate::gen_markdown::md_type(Maskoid::Option(Box::new(inner))) == crate::gen_markdown::md_type(inner)
            + " | null"@,
{
    assert("number"@ != "integer"@) by {
        reveal_strlit("number");
        reveal_strlit("integer");
        assert("number"@.len() != "integer"@.len());
    }
}

/// The Rust types: a float is `f64` and an integer `i64`, which differ;
/// strings are `String`, booleans `bool`, `null` is `()`, anything is a
/// `serde_json::Value`, and none of these needs an extra definition; lists
/// and sets are `Vec`s of their element type, string maps `HashMap`s, and a
/// plain option is `Option` of its type, each with the element's
/// definitions.
pub proof fn law_rust_types(inner: Maskoid, hint: Seq<char>)
    ensures
        crate::gen_rust::rs_type(Maskoid::Float, hint) == ("f64"@, Seq::<Seq<char>>::empty()),
        crate::gen_rust::rs_type(Maskoid::Int, hint) == ("i64"@, Seq::<Seq<char>>::empty()),
        crate::gen_rust::rs_type(Maskoid::Float, hint).0 != crate::gen_rust::rs_type(Maskoid::Int, hint).0,
        crate::gen_rust::rs_type(Maskoid::String, hint) == ("String"@, Seq::<Seq<char>>::empty()),
        crate::gen_rust::rs_type(Maskoid::Bool, hint) == ("bool"@, Seq::<Seq<char>>::empty()),
        crate::gen_rust::rs_type(Maskoid::Null, hint) == ("()"@, Seq::<Seq<char>>::empty()),
        crate::gen_rust::rs_type(Maskoid::Any, hint) == ("::serde_json::Value"@, Seq::<Seq<char>>::empty()),
        crate::gen_rust::rs_type(Maskoid::List(Box::new(inner)), hint) == ("Vec<"@ + crate::gen_rust::rs_type(
            inner,
            hint,
        ).0 + ">"@, crate::gen_rust::rs_type(inner, hint).1),
        crate::gen_rust::rs_type(Maskoid::SetOf(Box::new(inner)), hint) == crate::gen_rust::rs_type(
            Maskoid::List(Box::new(inner)),
            hint,
        ),
        crate::gen_rust::rs_type(Maskoid::StringMap(Box::new(inner)), hint) == (
        "std::collections::HashMap<String, "@ + crate::gen_rust::rs_type(inner, hint).0 + ">"@,
        crate::gen_rust::rs_type(inner, hint).1),
        !(inner is Option) ==> crate::gen_rust::rs_type(Maskoid::Option(Box::new(inner)), hint) == ("Option<"@
            + crate::gen_rust::rs_type(inner, hint).0 + ">"@, crate::gen_rust::rs_type(inner, hint).1),
{
    assert("f64"@ != "i64"@) by {
        reveal_strlit("f64");
        reveal_strlit("i64");
        assert("f64"@[0] != "i64"@[0]);
    }
}

/// For a schema of one binding whose maskoid carries no description (not a
/// tuple, union or record), the TypeScript text is `type NAME = TYPE;` and the
/// Markdown text a `## NAME` heading over the maskoid's notation.
pub proof fn law_single_binding_texts(schema: SchemaskV1)
    requires
        schema.bindings.entries@.len() == 1,
        !(schema.bindings.entries@[0].1 is Tuple),
        !(schema.bindings.entries@[0].1 is TaggedUnion),
        !(schema.bindings.entries@[0].1 is Record),
    ensures
        crate::gen_typescript::typescript_text(schema) == "type "@ + schema.bindings.entries@[0].0@ + " = "@
            + crate::gen_typescript::ts_type(schema.bindings.entries@[0].1) + ";\n"@,
        crate::gen_markdown::markdown_text(schema) == "## "@ + schema.bindings.entries@[0].0@ + "\n\n"@
            + crate::gen_markdown::md_type(schema.bindings.entries@[0].1) + "\n"@ + "\n"@,
{
    let e = schema.bindings.entries@;
    assert(e.drop_last().len() == 0);
    assert(crate::gen_typescript::ts_binding_parts(e.drop_last()) == Seq::<Seq<char>>::empty());
    assert(crate::gen_typescript::ts_binding_parts(e) == seq![
        crate::gen_typescript::ts_binding(e[0].0@, e[0].1),
    ]);
    assert(crate::gen_typescript::jsdoc_block(crate::v1::description_of(e[0].1)) == Seq::<char>::empty());
    assert(crate::gen_typescript::ts_binding(e[0].0@, e[0].1) =~= "type "@ + e[0].0@ + " = "@
        + crate::gen_typescript::ts_type(e[0].1) + ";\n"@);
    assert(crate::gen_markdown::md_sections(e.drop_last()) == Seq::<char>::empty());
    assert(crate::gen_markdown::md_sections(e) =~= crate::gen_markdown::md_section(e[0].0@, e[0].1));
    assert(crate::gen_markdown::md_body(e[0].1) == crate::gen_markdown::md_type(e[0].1) + "\n"@);
    assert(crate::gen_markdown::md_section(e[0].0@, e[0].1) =~= "## "@ + e[0].0@ + "\n\n"@
        + crate::gen_markdown::md_type(e[0].1) + "\n"@ + "\n"@);
}

// ---------------------------------------------------------------- renaming

/// Under `UPPERCASE` and `SCREAMING_SNAKE_CASE` a snake-case field keeps its
/// length, each ASCII lower-case letter becomes its capital (its code less
/// 32), and every other character stays; the two rules agree. Under
/// `lowercase`, `snake_case` and no rule the field is kept. Under
/// `SCREAMING-KEBAB-CASE` it is the upper-cased key with `-` for `_`.
pub proof fn law_field_case_rules(f: Seq<char>)
    ensures
        crate::rename::RenameRule::ScreamingSnake.field_name(f) == crate::rename::RenameRule::Upper.field_name(f),
        crate::rename::RenameRule::Upper.field_name(f).len() == f.len(),
        forall|i: int|
            0 <= i < f.len() ==> ('a' <= #[trigger] f[i] <= 'z' ==> crate::rename::RenameRule::Upper.field_name(
                f,
            )[i] as u32 + 32 == f[i] as u32) && (!('a' <= f[i] <= 'z')
                ==> crate::rename::RenameRule::Upper.field_name(f)[i] == f[i]),
        forall|i: int|
            0 <= i < f.len() ==> !('a' <= #[trigger] crate::rename::RenameRule::Upper.field_name(f)[i] <= 'z'),
        crate::rename::RenameRule::Snake.field_name(f) == f,
        crate::rename::RenameRule::Lower.field_name(f) == f,
        crate::rename::RenameRule::Unchanged.field_name(f) == f,
        crate::rename::RenameRule::ScreamingKebab.field_name(f) == crate::text::replace_char(
            crate::rename::RenameRule::Upper.field_name(f),
            '_',
            "-"@,
        ),
        crate::rename::RenameRule::Kebab.field_name(f) == crate::text::replace_char(f, '_', "-"@),
{
    let r = crate::rename::RenameRule::Upper.field_name(f);
    assert forall|i: int| 0 <= i < f.len() implies ('a' <= #[trigger] f[i] <= 'z' ==> r[i] as u32 + 32 == f[i] as u32)
        && (!('a' <= f[i] <= 'z') ==> r[i] == f[i]) && !('a' <= r[i] <= 'z') by {
        assert(r[i] == crate::rename::ascii_upper_char(f[i]));
    }
}

/// Under `SCREAMING_SNAKE_CASE` a variant is its `snake_case` key in ASCII
/// capitals, and under `SCREAMING-KEBAB-CASE` that with `-` for `_`; under
/// `UPPERCASE` and `lowercase` the variant keeps its length and only its
/// ASCII letters change case.
pub proof fn law_variant_case_rules(v: Seq<char>)
    ensures
        crate::rename::RenameRule::ScreamingSnake.variant_name(v) == crate::rename::RenameRule::Upper.field_name(
            crate::rename::RenameRule::Snake.variant_name(v),
        ),
        crate::rename::RenameRule::ScreamingKebab.variant_name(v) == crate::text::replace_char(
            crate::rename::RenameRule::ScreamingSnake.variant_name(v),
            '_',
            "-"@,
        ),
        crate::rename::RenameRule::Upper.variant_name(v) == crate::rename::RenameRule::Upper.field_name(v),
        crate::rename::RenameRule::Lower.variant_name(v).len() == v.len(),
        forall|i: int|
            0 <= i < v.len() ==> ('A' <= #[trigger] v[i] <= 'Z' ==> crate::rename::RenameRule::Lower.variant_name(
                v,
            )[i] as u32 == v[i] as u32 + 32) && (!('A' <= v[i] <= 'Z')
                ==> crate::rename::RenameRule::Lower.variant_name(v)[i] == v[i]),
{
    let r = crate::rename::RenameRule::Lower.variant_name(v);
    assert forall|i: int| 0 <= i < v.len() implies ('A' <= #[trigger] v[i] <= 'Z' ==> r[i] as u32 == v[i] as u32 + 32)
        && (!('A' <= v[i] <= 'Z') ==> r[i] == v[i]) by {
        assert(r[i] == crate::rename::ascii_lower_char(v[i]));
    }
}

/// Under `PascalCase` a field loses its underscores; under `camelCase` it is
/// the `PascalCase` key with its first character in ASCII lower case and the
/// rest the same. A variant keeps its name under `PascalCase`, and under
/// `camelCase` only its first character is lowered.
pub proof fn law_camel_follows_pascal(f: Seq<char>, v: Seq<char>)
    requires
        crate::rename::RenameRule::Pascal.field_name(f).len() > 0,
        v.len() > 0,
    ensures
        forall|i: int|
            0 <= i < crate::rename::RenameRule::Pascal.field_name(f).len()
                ==> #[trigger] crate::rename::RenameRule::Pascal.field_name(f)[i] != '_',
        crate::rename::RenameRule::Camel.field_name(f).len() == crate::rename::RenameRule::Pascal.field_name(f).len(),
        crate::rename::RenameRule::Camel.field_name(f)[0] == crate::rename::ascii_lower_char(
            crate::rename::RenameRule::Pascal.field_name(f)[0],
        ),
        forall|i: int|
            1 <= i < crate::rename::RenameRule::Camel.field_name(f).len() ==> #[trigger] crate::rename::RenameRule::Camel.field_name(
                f,
            )[i] == crate::rename::RenameRule::Pascal.field_name(f)[i],
        crate::rename::RenameRule::Pascal.variant_name(v) == v,
        crate::rename::RenameRule::Camel.variant_name(v).len() == v.len(),
        crate::rename::RenameRule::Camel.variant_name(v)[0] == crate::rename::ascii_lower_char(v[0]),
        forall|i: int|
            1 <= i < v.len() ==> #[trigger] crate::rename::RenameRule::Camel.variant_name(v)[i] == v[i],
{
    lemma_pascal_no_underscore(f, 0, true);
}

proof fn lemma_pascal_no_underscore(s: Seq<char>, i: nat, cap: bool)
    ensures
        forall|j: int|
            0 <= j < crate::rename::pascal_field_from(s, i, cap).len() ==> #[trigger] crate::rename::pascal_field_from(
                s,
                i,
                cap,
            )[j] != '_',
    decreases s.len() - i,
{
    if i < s.len() {
        if s[i as int] == '_' {
            lemma_pascal_no_underscore(s, i + 1, true);
            assert(crate::rename::pascal_field_from(s, i, cap) == crate::rename::pascal_field_from(s, i + 1, true));
        } else {
            lemma_pascal_no_underscore(s, i + 1, false);
            let rest = crate::rename::pascal_field_from(s, i + 1, false);
            let c = if cap {
                crate::rename::ascii_upper_char(s[i as int])
            } else {
                s[i as int]
            };
            assert(c != '_') by {
                if cap && 'a' <= s[i as int] <= 'z' {
                    assert(c as u32 == s[i as int] as u32 - 32);
                }
            }
            assert(crate::rename::pascal_field_from(s, i, cap) == seq![c] + rest);
            assert forall|j: int| 0 <= j < (seq![c] + rest).len() implies #[trigger] (seq![c] + rest)[j] != '_' by {
                if j > 0 {
                    assert((seq![c] + rest)[j] == rest[j - 1]);
                }
            }
        }
    }
}

} // verus!
