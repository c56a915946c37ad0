//! Checking JSON values against maskoids: what errors a value earns, stated as
//! spec functions, and the executable matcher that reports exactly those.
use crate::json::{json_eq, json_equal, json_kind_name, kind_name, JsonNumber, JsonValue};
use crate::strmap::{find_key, has_key, key_views, lookup, StrMap};
use crate::text::{debug_quoted, debug_string, dec, join, join_strings, owned, push_decimal, push_str};
use crate::v1::{
    copy_path, errors_view, opt_view, path_view, ErrorView, Invalid, Maskoid, MaskoidField,
    PathSegment, PathView, SchemaskV1, ValidationError,
};
use vstd::prelude::*;

verus! {

// ====================================================================== spec

/// No errors.
pub open spec fn no_errors() -> Seq<ErrorView> {
    Seq::empty()
}

/// A single error at `path`.
pub open spec fn one(path: Seq<PathView>, message: Seq<char>) -> Seq<ErrorView> {
    seq![ErrorView { message, path }]
}

/// Both error lists, one after the other; `None` when either ran out of fuel.
pub open spec fn cat(a: Option<Seq<ErrorView>>, b: Option<Seq<ErrorView>>) -> Option<Seq<ErrorView>> {
    match a {
        Some(x) => match b {
            Some(y) => Some(x + y),
            None => None,
        },
        None => None,
    }
}

/// `Expected WHAT, got GOT`.
pub open spec fn expected_got(what: Seq<char>, got: Seq<char>) -> Seq<char> {
    "Expected "@ + what + ", got "@ + got
}

/// `object with N keys`.
pub open spec fn object_with(n: nat) -> Seq<char> {
    "object with "@ + dec(n) + " keys"@
}

/// `PREFIX'NAME'SUFFIX`.
pub open spec fn quoted_name(prefix: Seq<char>, name: Seq<char>, suffix: Seq<char>) -> Seq<char> {
    prefix + name + suffix
}

/// The message for a union tag that names no variant.
pub open spec fn unknown_variant(tag: Seq<char>, variants: Seq<(String, MaskoidField)>) -> Seq<char> {
    quoted_name("Unknown union variant '"@, tag, "', expected one of: "@) + join(
        key_views(variants),
        ", "@,
    )
}

/// The errors that `data` earns against `m`, reported at `path`, when every
/// nested match may use at most `fuel` levels of recursion; `None` when that is
/// not enough (through `Ref` and non-nested `Option` the matcher recurses
/// without descending into the data, so a schema can make it recurse forever).
pub open spec fn match_errors(
    schema: SchemaskV1,
    m: Maskoid,
    data: JsonValue,
    path: Seq<PathView>,
    fuel: nat,
) -> Option<Seq<ErrorView>>
    decreases fuel, 0int,
{
    if fuel == 0 {
        None
    } else {
        let f = (fuel - 1) as nat;
        match m {
            Maskoid::Null => Some(
                if data is Null {
                    no_errors()
                } else {
                    one(path, expected_got("null"@, kind_name(data)))
                },
            ),
            Maskoid::String => Some(
                if data is String {
                    no_errors()
                } else {
                    one(path, expected_got("string"@, kind_name(data)))
                },
            ),
            Maskoid::ConstString(value) => Some(
                match data {
                    JsonValue::String(s) => if s@ == value@ {
                        no_errors()
                    } else {
                        one(path, expected_got("string "@ + debug_quoted(value@), debug_quoted(s@)))
                    },
                    _ => one(path, expected_got("string "@ + debug_quoted(value@), kind_name(data))),
                },
            ),
            Maskoid::Bool => Some(
                if data is Bool {
                    no_errors()
                } else {
                    one(path, expected_got("bool"@, kind_name(data)))
                },
            ),
            Maskoid::Int => Some(
                if data matches JsonValue::Number(n) && n.is_integer() {
                    no_errors()
                } else {
                    one(path, expected_got("int"@, kind_name(data)))
                },
            ),
            Maskoid::Float => Some(
                if data is Number {
                    no_errors()
                } else {
                    one(path, expected_got("float"@, kind_name(data)))
                },
            ),
            Maskoid::Any => Some(no_errors()),
            Maskoid::Ref(name) => match lookup(schema.bindings.entries@, name@) {
                Some(inner) => match_errors(schema, inner, data, path, f),
                None => Some(one(path, quoted_name("Ref to undefined binding '"@, name@, "'"@))),
            },
            Maskoid::Option(inner) => if data is Null {
                Some(no_errors())
            } else if *inner is Option {
                match data {
                    JsonValue::Object(obj) => if obj.entries@.len() == 1 && has_key(
                        obj.entries@,
                        "element"@,
                    ) {
                        match_errors(
                            schema,
                            *inner,
                            lookup(obj.entries@, "element"@).unwrap(),
                            path.push(PathView::Key("element"@)),
                            f,
                        )
                    } else {
                        Some(
                            one(
                                path,
                                expected_got(
                                    "nested option as {\"element\": ...}"@,
                                    object_with(obj.entries@.len()),
                                ),
                            ),
                        )
                    },
                    _ => Some(
                        one(path, expected_got("nested option as {\"element\": ...}"@, kind_name(data))),
                    ),
                }
            } else {
                match_errors(schema, *inner, data, path, f)
            },
            Maskoid::SetOf(inner) => match data {
                JsonValue::Array(arr) => cat(
                    items_errors(schema, *inner, arr@, path, 0, f),
                    Some(dup_errors(arr@, path, arr@.len())),
                ),
                _ => Some(one(path, expected_got("set (array)"@, kind_name(data)))),
            },
            Maskoid::List(inner) => match data {
                JsonValue::Array(arr) => items_errors(schema, *inner, arr@, path, 0, f),
                _ => Some(one(path, expected_got("list (array)"@, kind_name(data)))),
            },
            Maskoid::StringMap(inner) => match data {
                JsonValue::Object(obj) => values_errors(schema, *inner, obj.entries@, path, 0, f),
                _ => Some(one(path, expected_got("string map (object)"@, kind_name(data)))),
            },
            Maskoid::Tuple(t) => match data {
                JsonValue::Array(arr) => if arr@.len() != t.elements@.len() {
                    Some(
                        one(
                            path,
                            expected_got(
                                "tuple of length "@ + dec(t.elements@.len()),
                                "length "@ + dec(arr@.len()),
                            ),
                        ),
                    )
                } else {
                    tuple_errors(schema, t.elements@, arr@, path, 0, f)
                },
                _ => Some(one(path, expected_got("tuple (array)"@, kind_name(data)))),
            },
            Maskoid::TaggedUnion(u) => union_errors(schema, u.variants, data, path, f),
            Maskoid::Record(r) => match data {
                JsonValue::Object(obj) => cat(
                    fields_errors(schema, r.fields.entries@, obj.entries@, path, 0, f),
                    Some(unexpected_errors(r.fields.entries@, obj.entries@, path, obj.entries@.len())),
                ),
                _ => Some(one(path, expected_got("record (object)"@, kind_name(data)))),
            },
        }
    }
}

/// The errors that `data` earns against a tagged union with `variants`.
pub open spec fn union_errors(
    schema: SchemaskV1,
    variants: StrMap<MaskoidField>,
    data: JsonValue,
    path: Seq<PathView>,
    fuel: nat,
) -> Option<Seq<ErrorView>>
    decreases fuel, 1int,
{
    match data {
        JsonValue::String(tag) => Some(
            match lookup(variants.entries@, tag@) {
                Some(v) => if v.maskoid is Null {
                    no_errors()
                } else {
                    one(
                        path,
                        quoted_name(
                            "Union variant '"@,
                            tag@,
                            "' carries a value, expected a single-key object"@,
                        ),
                    )
                },
                None => one(path, unknown_variant(tag@, variants.entries@)),
            },
        ),
        JsonValue::Object(obj) => if obj.entries@.len() == 1 {
            let tag = obj.entries@[0].0;
            match lookup(variants.entries@, tag@) {
                Some(v) => match_errors(
                    schema,
                    v.maskoid,
                    obj.entries@[0].1,
                    path.push(PathView::Key(tag@)),
                    fuel,
                ),
                None => Some(one(path, unknown_variant(tag@, variants.entries@))),
            }
        } else {
            Some(
                one(
                    path,
                    expected_got(
                        "tagged union (single-key object)"@,
                        object_with(obj.entries@.len()),
                    ),
                ),
            )
        },
        _ => Some(
            one(
                path,
                expected_got(
                    "tagged union (single-key object, or variant name for a valueless variant)"@,
                    kind_name(data),
                ),
            ),
        ),
    }
}

/// Errors of the elements `arr[i..]` against `inner`, each at its index.
pub open spec fn items_errors(
    schema: SchemaskV1,
    inner: Maskoid,
    arr: Seq<JsonValue>,
    path: Seq<PathView>,
    i: nat,
    fuel: nat,
) -> Option<Seq<ErrorView>>
    decreases fuel, arr.len() - i,
{
    if i >= arr.len() {
        Some(no_errors())
    } else {
        cat(
            match_errors(schema, inner, arr[i as int], path.push(PathView::Index(i as usize)), fuel),
            items_errors(schema, inner, arr, path, i + 1, fuel),
        )
    }
}

/// Errors of the values of the entries `e[i..]` against `inner`, each at its key.
pub open spec fn values_errors(
    schema: SchemaskV1,
    inner: Maskoid,
    e: Seq<(String, JsonValue)>,
    path: Seq<PathView>,
    i: nat,
    fuel: nat,
) -> Option<Seq<ErrorView>>
    decreases fuel, e.len() - i,
{
    if i >= e.len() {
        Some(no_errors())
    } else {
        cat(
            match_errors(schema, inner, e[i as int].1, path.push(PathView::Key(e[i as int].0@)), fuel),
            values_errors(schema, inner, e, path, i + 1, fuel),
        )
    }
}

/// Errors of the elements `arr[i..]` against the tuple elements at the same indices.
pub open spec fn tuple_errors(
    schema: SchemaskV1,
    elements: Seq<MaskoidField>,
    arr: Seq<JsonValue>,
    path: Seq<PathView>,
    i: nat,
    fuel: nat,
) -> Option<Seq<ErrorView>>
    decreases fuel, arr.len() - i,
{
    if i >= arr.len() {
        Some(no_errors())
    } else {
        cat(
            match_errors(
                schema,
                elements[i as int].maskoid,
                arr[i as int],
                path.push(PathView::Index(i as usize)),
                fuel,
            ),
            tuple_errors(schema, elements, arr, path, i + 1, fuel),
        )
    }
}

/// The errors that a missing or present record field earns.
pub open spec fn field_errors(
    schema: SchemaskV1,
    name: String,
    field: MaskoidField,
    obj: Seq<(String, JsonValue)>,
    path: Seq<PathView>,
    fuel: nat,
) -> Option<Seq<ErrorView>>
    decreases fuel, 1int,
{
    match lookup(obj, name@) {
        Some(v) => match_errors(schema, field.maskoid, v, path.push(PathView::Key(name@)), fuel),
        None => Some(
            if field.maskoid is Option {
                no_errors()
            } else {
                one(path, quoted_name("Missing required field '"@, name@, "'"@))
            },
        ),
    }
}

/// Errors of the record fields `fields[i..]`, in the order of the fields.
pub open spec fn fields_errors(
    schema: SchemaskV1,
    fields: Seq<(String, MaskoidField)>,
    obj: Seq<(String, JsonValue)>,
    path: Seq<PathView>,
    i: nat,
    fuel: nat,
) -> Option<Seq<ErrorView>>
    decreases fuel, fields.len() - i + 2,
{
    if i >= fields.len() {
        Some(no_errors())
    } else {
        cat(
            field_errors(schema, fields[i as int].0, fields[i as int].1, obj, path, fuel),
            fields_errors(schema, fields, obj, path, i + 1, fuel),
        )
    }
}

/// One error for each key among `obj[..n]` that is not a field of the record.
pub open spec fn unexpected_errors(
    fields: Seq<(String, MaskoidField)>,
    obj: Seq<(String, JsonValue)>,
    path: Seq<PathView>,
    n: nat,
) -> Seq<ErrorView>
    decreases n,
{
    if n == 0 || n > obj.len() {
        no_errors()
    } else {
        unexpected_errors(fields, obj, path, (n - 1) as nat) + (if has_key(fields, obj[n - 1].0@) {
            no_errors()
        } else {
            one(path, quoted_name("Unexpected field '"@, obj[n - 1].0@, "'"@))
        })
    }
}

/// One error for each later duplicate `arr[j]` of `arr[i]`, for `i < j < n`,
/// at the later index.
pub open spec fn dup_row(arr: Seq<JsonValue>, path: Seq<PathView>, i: nat, n: nat) -> Seq<ErrorView>
    decreases n,
{
    if n <= i + 1 || n > arr.len() {
        no_errors()
    } else {
        dup_row(arr, path, i, (n - 1) as nat) + (if json_eq(arr[i as int], arr[n - 1]) {
            one(
                path.push(PathView::Index((n - 1) as usize)),
                "Duplicate element (also at index "@ + dec(i) + ")"@,
            )
        } else {
            no_errors()
        })
    }
}

/// The duplicate errors of the rows `0..n`, row `i` holding the duplicates of `arr[i]`.
pub open spec fn dup_errors(arr: Seq<JsonValue>, path: Seq<PathView>, n: nat) -> Seq<ErrorView>
    decreases n,
{
    if n == 0 {
        no_errors()
    } else {
        dup_errors(arr, path, (n - 1) as nat) + dup_row(arr, path, (n - 1) as nat, arr.len())
    }
}

/// Within `k` steps, the steps that keep to the same value (following a
/// reference, or entering an option that is not nested) reach a maskoid that
/// either answers at once or takes the value apart.
pub open spec fn settles(schema: SchemaskV1, m: Maskoid, k: nat) -> bool
    decreases k,
{
    if k == 0 {
        false
    } else {
        match m {
            Maskoid::Ref(name) => match lookup(schema.bindings.entries@, name@) {
                Some(inner) => settles(schema, inner, (k - 1) as nat),
                None => true,
            },
            Maskoid::Option(inner) => if *inner is Option {
                true
            } else {
                settles(schema, *inner, (k - 1) as nat)
            },
            _ => true,
        }
    }
}

/// One step that keeps to the same value: following a reference to its
/// binding, or entering an option that is not nested. `None` where `m`
/// answers at once or takes the value apart.
pub open spec fn settle_step(schema: SchemaskV1, m: Maskoid) -> Option<Maskoid> {
    match m {
        Maskoid::Ref(name) => lookup(schema.bindings.entries@, name@),
        Maskoid::Option(inner) => if *inner is Option {
            None
        } else {
            Some(*inner)
        },
        _ => None,
    }
}

/// Where `i` steps of [`settle_step`] from `m` lead, if that many can be
/// taken.
pub open spec fn settle_chain(schema: SchemaskV1, m: Maskoid, i: nat) -> Option<Maskoid>
    decreases i,
{
    if i == 0 {
        Some(m)
    } else {
        match settle_step(schema, m) {
            Some(x) => settle_chain(schema, x, (i - 1) as nat),
            None => None,
        }
    }
}

/// `m` and every maskoid inside it settle within `k` steps.
pub open spec fn settles_within(schema: SchemaskV1, m: Maskoid, k: nat) -> bool
    decreases m,
{
    &&& settles(schema, m, k)
    &&& match m {
        Maskoid::Option(inner) => settles_within(schema, *inner, k),
        Maskoid::List(inner) => settles_within(schema, *inner, k),
        Maskoid::SetOf(inner) => settles_within(schema, *inner, k),
        Maskoid::StringMap(inner) => settles_within(schema, *inner, k),
        Maskoid::Tuple(t) => forall|i: int|
            0 <= i < t.elements@.len() ==> settles_within(schema, #[trigger] t.elements@[i].maskoid, k),
        Maskoid::TaggedUnion(u) => forall|i: int|
            0 <= i < u.variants.entries@.len() ==> settles_within(
                schema,
                #[trigger] u.variants.entries@[i].1.maskoid,
                k,
            ),
        Maskoid::Record(r) => forall|i: int|
            0 <= i < r.fields.entries@.len() ==> settles_within(
                schema,
                #[trigger] r.fields.entries@[i].1.maskoid,
                k,
            ),
        _ => true,
    }
}

/// The names that the references inside `m` use, in order.
pub open spec fn refs_list(m: Maskoid) -> Seq<Seq<char>>
    decreases m,
{
    match m {
        Maskoid::Ref(n) => seq![n@],
        Maskoid::Option(inner) => refs_list(*inner),
        Maskoid::List(inner) => refs_list(*inner),
        Maskoid::SetOf(inner) => refs_list(*inner),
        Maskoid::StringMap(inner) => refs_list(*inner),
        Maskoid::Tuple(t) => fields_refs(t.elements@),
        Maskoid::TaggedUnion(u) => entries_refs(u.variants.entries@),
        Maskoid::Record(r) => entries_refs(r.fields.entries@),
        _ => Seq::empty(),
    }
}

/// The names that the references inside the fields use, in order.
pub open spec fn fields_refs(es: Seq<MaskoidField>) -> Seq<Seq<char>>
    decreases es,
{
    if es.len() == 0 {
        Seq::empty()
    } else {
        fields_refs(es.drop_last()) + refs_list(es.last().maskoid)
    }
}

/// The names that the references inside the entries' fields use, in order.
pub open spec fn entries_refs(es: Seq<(String, MaskoidField)>) -> Seq<Seq<char>>
    decreases es,
{
    if es.len() == 0 {
        Seq::empty()
    } else {
        entries_refs(es.drop_last()) + refs_list(es.last().1.maskoid)
    }
}

/// Every reference inside `m` names one of `names`.
pub open spec fn refs_in(m: Maskoid, names: Set<Seq<char>>) -> bool {
    forall|i: int| 0 <= i < refs_list(m).len() ==> names.contains(#[trigger] refs_list(m)[i])
}

/// Every binding named in `names` settles within `k` steps and refers only to
/// names in `names`: matching from any of them stays among them.
pub open spec fn names_settled(schema: SchemaskV1, names: Set<Seq<char>>, k: nat) -> bool {
    forall|n: Seq<char>|
        #[trigger] names.contains(n) ==> match lookup(schema.bindings.entries@, n) {
            Some(b) => settles_within(schema, b, k) && refs_in(b, names),
            None => true,
        }
}

/// The bindings that matching can reach from the root all settle within `k`
/// steps: some set of names holds the root, is closed under references and
/// settles.
pub open spec fn root_settles(schema: SchemaskV1, root: Option<String>, k: nat) -> bool {
    match root_name(schema, root) {
        Some(n) => exists|names: Set<Seq<char>>| #[trigger] names.contains(n) && names_settled(schema, names, k),
        None => true,
    }
}

/// Every binding of the schema, and every maskoid inside one, settles within
/// `k` steps: no chain of references loops without descending into the value.
pub open spec fn schema_settles(schema: SchemaskV1, k: nat) -> bool {
    forall|i: int|
        0 <= i < schema.bindings.entries@.len() ==> settles_within(
            schema,
            #[trigger] schema.bindings.entries@[i].1,
            k,
        )
}

/// Matching `data` against `m` comes to an end.
pub open spec fn match_terminates(
    schema: SchemaskV1,
    m: Maskoid,
    data: JsonValue,
    path: Seq<PathView>,
) -> bool {
    exists|fuel: nat| (#[trigger] match_errors(schema, m, data, path, fuel)) is Some
}

/// The errors that `data` earns against `m`, reported under `path`.
pub open spec fn validation_errors(
    schema: SchemaskV1,
    m: Maskoid,
    data: JsonValue,
    path: Seq<PathView>,
) -> Seq<ErrorView> {
    match_errors(
        schema,
        m,
        data,
        path,
        choose|fuel: nat| (#[trigger] match_errors(schema, m, data, path, fuel)) is Some,
    ).unwrap()
}

// ====================================================================== exec

fn push_error(errors: &mut Vec<ValidationError>, path: &Vec<PathSegment>, message: String)
    ensures
        errors_view(final(errors)@) == errors_view(old(errors)@) + one(path_view(path@), message@),
{
    let e = ValidationError { message: message, path: copy_path(path) };
    errors.push(e);
    assert(errors_view(errors@) =~= errors_view(old(errors)@) + one(path_view(path@), message@)) by {
        assert(errors@ == old(errors)@.push(e));
        assert(errors_view(errors@).last() == e.view());
    }
}

fn expected_got_msg(what: &str, got: &str) -> (r: String)
    ensures
        r@ == expected_got(what@, got@),
{
    let mut s = owned("Expected ");
    push_str(&mut s, what);
    push_str(&mut s, ", got ");
    push_str(&mut s, got);
    s
}

fn object_with_msg(n: usize) -> (r: String)
    ensures
        r@ == object_with(n as nat),
{
    let mut s = owned("object with ");
    push_decimal(&mut s, n);
    push_str(&mut s, " keys");
    s
}

fn quoted_name_msg(prefix: &str, name: &str, suffix: &str) -> (r: String)
    ensures
        r@ == quoted_name(prefix@, name@, suffix@),
{
    let mut s = owned(prefix);
    push_str(&mut s, name);
    push_str(&mut s, suffix);
    s
}

fn unknown_variant_msg(tag: &str, variants: &StrMap<MaskoidField>) -> (r: String)
    ensures
        r@ == unknown_variant(tag@, variants.entries@),
{
    let mut s = quoted_name_msg("Unknown union variant '", tag, "', expected one of: ");
    let known = variants.keys();
    let joined = join_strings(&known, ", ");
    push_str(&mut s, joined.as_str());
    s
}

proof fn lemma_path_push(p: Seq<PathSegment>, s: PathSegment)
    ensures
        path_view(p.push(s)) == path_view(p).push(s.view()),
{
    assert(path_view(p.push(s)) =~= path_view(p).push(s.view()));
}

/// Adds to `errors` the errors that `data` earns against `maskoid` at `path`
/// (the errors of [`match_errors`] with `fuel`).
fn match_fuel(
    schema: &SchemaskV1,
    maskoid: &Maskoid,
    data: &JsonValue,
    path: &mut Vec<PathSegment>,
    errors: &mut Vec<ValidationError>,
    Ghost(fuel): Ghost<nat>,
)
    requires
        match_errors(*schema, *maskoid, *data, path_view(old(path)@), fuel) is Some,
    ensures
        final(path)@ == old(path)@,
        errors_view(final(errors)@) == errors_view(old(errors)@) + match_errors(
            *schema,
            *maskoid,
            *data,
            path_view(old(path)@),
            fuel,
        ).unwrap(),
    decreases fuel, 1int,
{
    let ghost pv = path_view(path@);
    let ghost f = (fuel - 1) as nat;
    match maskoid {
        Maskoid::Null => {
            if !matches!(data, JsonValue::Null) {
                push_error(errors, path, expected_got_msg("null", json_kind_name(data)));
            }
        },
        Maskoid::String => {
            if !matches!(data, JsonValue::String(_)) {
                push_error(errors, path, expected_got_msg("string", json_kind_name(data)));
            }
        },
        Maskoid::ConstString(value) => {
            let mut what = owned("string ");
            let dv = debug_string(value.as_str());
            push_str(&mut what, dv.as_str());
            match data {
                JsonValue::String(s) => {
                    if !crate::text::str_eq(s.as_str(), value.as_str()) {
                        let ds = debug_string(s.as_str());
                        push_error(errors, path, expected_got_msg(what.as_str(), ds.as_str()));
                    }
                },
                _ => {
                    push_error(errors, path, expected_got_msg(what.as_str(), json_kind_name(data)));
                },
            }
        },
        Maskoid::Bool => {
            if !matches!(data, JsonValue::Bool(_)) {
                push_error(errors, path, expected_got_msg("bool", json_kind_name(data)));
            }
        },
        Maskoid::Int => {
            let ok = match data {
                JsonValue::Number(n) => !matches!(n, JsonNumber::Float(_)),
                _ => false,
            };
            if !ok {
                push_error(errors, path, expected_got_msg("int", json_kind_name(data)));
            }
        },
        Maskoid::Float => {
            if !matches!(data, JsonValue::Number(_)) {
                push_error(errors, path, expected_got_msg("float", json_kind_name(data)));
            }
        },
        Maskoid::Any => {},
        Maskoid::Ref(name) => {
            match schema.bindings.get(name.as_str()) {
                Some(inner) => {
                    match_fuel(schema, inner, data, path, errors, Ghost(f));
                },
                None => {
                    push_error(
                        errors,
                        path,
                        quoted_name_msg("Ref to undefined binding '", name.as_str(), "'"),
                    );
                },
            }
        },
        Maskoid::Option(inner) => {
            match_option(schema, inner, data, path, errors, Ghost(fuel));
        },
        Maskoid::SetOf(inner) => {
            match data {
                JsonValue::Array(arr) => {
                    match_items(schema, inner, arr, path, errors, Ghost(fuel));
                    push_duplicates(arr, path, errors);
                },
                _ => {
                    push_error(errors, path, expected_got_msg("set (array)", json_kind_name(data)));
                },
            }
        },
        Maskoid::List(inner) => {
            match data {
                JsonValue::Array(arr) => {
                    match_items(schema, inner, arr, path, errors, Ghost(fuel));
                },
                _ => {
                    push_error(errors, path, expected_got_msg("list (array)", json_kind_name(data)));
                },
            }
        },
        Maskoid::StringMap(inner) => {
            match data {
                JsonValue::Object(obj) => {
                    match_values(schema, inner, obj, path, errors, Ghost(fuel));
                },
                _ => {
                    push_error(
                        errors,
                        path,
                        expected_got_msg("string map (object)", json_kind_name(data)),
                    );
                },
            }
        },
        Maskoid::Tuple(t) => {
            match data {
                JsonValue::Array(arr) => {
                    if arr.len() != t.elements.len() {
                        let mut what = owned("tuple of length ");
                        push_decimal(&mut what, t.elements.len());
                        let mut got = owned("length ");
                        push_decimal(&mut got, arr.len());
                        push_error(errors, path, expected_got_msg(what.as_str(), got.as_str()));
                    } else {
                        match_tuple(schema, &t.elements, arr, path, errors, Ghost(fuel));
                    }
                },
                _ => {
                    push_error(errors, path, expected_got_msg("tuple (array)", json_kind_name(data)));
                },
            }
        },
        Maskoid::TaggedUnion(u) => {
            match_union(schema, &u.variants, data, path, errors, Ghost(fuel));
        },
        Maskoid::Record(r) => {
            match data {
                JsonValue::Object(obj) => {
                    match_fields(schema, &r.fields, obj, path, errors, Ghost(fuel));
                    push_unexpected(&r.fields, obj, path, errors);
                },
                _ => {
                    push_error(
                        errors,
                        path,
                        expected_got_msg("record (object)", json_kind_name(data)),
                    );
                },
            }
        },
    }
}

fn match_option(
    schema: &SchemaskV1,
    inner: &Box<Maskoid>,
    data: &JsonValue,
    path: &mut Vec<PathSegment>,
    errors: &mut Vec<ValidationError>,
    Ghost(fuel): Ghost<nat>,
)
    requires
        fuel > 0,
        match_errors(*schema, Maskoid::Option(*inner), *data, path_view(old(path)@), fuel) is Some,
    ensures
        final(path)@ == old(path)@,
        errors_view(final(errors)@) == errors_view(old(errors)@) + match_errors(
            *schema,
            Maskoid::Option(*inner),
            *data,
            path_view(old(path)@),
            fuel,
        ).unwrap(),
    decreases fuel, 0int,
{
    let ghost f = (fuel - 1) as nat;
    if matches!(data, JsonValue::Null) {
        return;
    }
    let nested = match &**inner {
        Maskoid::Option(_) => true,
        _ => false,
    };
    if nested {
        match data {
            JsonValue::Object(obj) => {
                let key = owned("element");
                if obj.len() == 1 && obj.contains_key(key.as_str()) {
                    let v = obj.get(key.as_str()).unwrap();
                    let ghost p0 = path@;
                    let seg = PathSegment::Key(key);
                    proof {
                        lemma_path_push(p0, seg);
                    }
                    path.push(seg);
                    match_fuel(schema, inner, v, path, errors, Ghost(f));
                    path.pop();
                    assert(path@ == p0);
                } else {
                    let got = object_with_msg(obj.len());
                    push_error(
                        errors,
                        path,
                        expected_got_msg("nested option as {\"element\": ...}", got.as_str()),
                    );
                }
            },
            _ => {
                push_error(
                    errors,
                    path,
                    expected_got_msg("nested option as {\"element\": ...}", json_kind_name(data)),
                );
            },
        }
    } else {
        match_fuel(schema, inner, data, path, errors, Ghost(f));
    }
}

fn match_items(
    schema: &SchemaskV1,
    inner: &Box<Maskoid>,
    arr: &Vec<JsonValue>,
    path: &mut Vec<PathSegment>,
    errors: &mut Vec<ValidationError>,
    Ghost(fuel): Ghost<nat>,
)
    requires
        fuel > 0,
        items_errors(*schema, **inner, arr@, path_view(old(path)@), 0, (fuel - 1) as nat) is Some,
    ensures
        final(path)@ == old(path)@,
        errors_view(final(errors)@) == errors_view(old(errors)@) + items_errors(
            *schema,
            **inner,
            arr@,
            path_view(old(path)@),
            0,
            (fuel - 1) as nat,
        ).unwrap(),
    decreases fuel, 0int,
{
    let ghost f = (fuel - 1) as nat;
    let ghost p0 = path@;
    let ghost pv = path_view(p0);
    let ghost base = errors_view(errors@);
    let mut i: usize = 0;
    while i < arr.len()
        invariant
            fuel > 0,
            f == (fuel - 1) as nat,
            i <= arr@.len(),
            path@ == p0,
            pv == path_view(p0),
            items_errors(*schema, **inner, arr@, pv, i as nat, f) is Some,
            base + items_errors(*schema, **inner, arr@, pv, 0, f).unwrap() == errors_view(errors@)
                + items_errors(*schema, **inner, arr@, pv, i as nat, f).unwrap(),
        decreases arr@.len() - i,
    {
        let ghost before = errors_view(errors@);
        let seg = PathSegment::Index(i);
        proof {
            lemma_path_push(p0, seg);
        }
        path.push(seg);
        match_fuel(schema, inner, &arr[i], path, errors, Ghost(f));
        path.pop();
        assert(path@ == p0);
        proof {
            let here = match_errors(*schema, **inner, arr@[i as int], pv.push(PathView::Index(i)), f);
            let rest = items_errors(*schema, **inner, arr@, pv, (i + 1) as nat, f);
            assert(items_errors(*schema, **inner, arr@, pv, i as nat, f) == cat(here, rest));
            assert(errors_view(errors@) == before + here.unwrap());
            assert(before + (here.unwrap() + rest.unwrap()) == before + here.unwrap() + rest.unwrap());
        }
        i = i + 1;
    }
    assert(errors_view(errors@) + no_errors() == errors_view(errors@));
}

fn match_values(
    schema: &SchemaskV1,
    inner: &Box<Maskoid>,
    obj: &StrMap<JsonValue>,
    path: &mut Vec<PathSegment>,
    errors: &mut Vec<ValidationError>,
    Ghost(fuel): Ghost<nat>,
)
    requires
        fuel > 0,
        values_errors(*schema, **inner, obj.entries@, path_view(old(path)@), 0, (fuel - 1) as nat)
            is Some,
    ensures
        final(path)@ == old(path)@,
        errors_view(final(errors)@) == errors_view(old(errors)@) + values_errors(
            *schema,
            **inner,
            obj.entries@,
            path_view(old(path)@),
            0,
            (fuel - 1) as nat,
        ).unwrap(),
    decreases fuel, 0int,
{
    let ghost f = (fuel - 1) as nat;
    let ghost p0 = path@;
    let ghost pv = path_view(p0);
    let ghost base = errors_view(errors@);
    let e = &obj.entries;
    let mut i: usize = 0;
    while i < e.len()
        invariant
            fuel > 0,
            f == (fuel - 1) as nat,
            e == &obj.entries,
            i <= e@.len(),
            path@ == p0,
            pv == path_view(p0),
            values_errors(*schema, **inner, e@, pv, i as nat, f) is Some,
            base + values_errors(*schema, **inner, e@, pv, 0, f).unwrap() == errors_view(errors@)
                + values_errors(*schema, **inner, e@, pv, i as nat, f).unwrap(),
        decreases e@.len() - i,
    {
        let ghost before = errors_view(errors@);
        let seg = PathSegment::Key(e[i].0.clone());
        proof {
            lemma_path_push(p0, seg);
        }
        path.push(seg);
        match_fuel(schema, inner, &e[i].1, path, errors, Ghost(f));
        path.pop();
        assert(path@ == p0);
        proof {
            let here = match_errors(
                *schema,
                **inner,
                e@[i as int].1,
                pv.push(PathView::Key(e@[i as int].0@)),
                f,
            );
            let rest = values_errors(*schema, **inner, e@, pv, (i + 1) as nat, f);
            assert(values_errors(*schema, **inner, e@, pv, i as nat, f) == cat(here, rest));
            assert(before + (here.unwrap() + rest.unwrap()) == before + here.unwrap() + rest.unwrap());
        }
        i = i + 1;
    }
    assert(errors_view(errors@) + no_errors() == errors_view(errors@));
}

fn match_tuple(
    schema: &SchemaskV1,
    elements: &Vec<MaskoidField>,
    arr: &Vec<JsonValue>,
    path: &mut Vec<PathSegment>,
    errors: &mut Vec<ValidationError>,
    Ghost(fuel): Ghost<nat>,
)
    requires
        fuel > 0,
        elements@.len() == arr@.len(),
        tuple_errors(*schema, elements@, arr@, path_view(old(path)@), 0, (fuel - 1) as nat) is Some,
    ensures
        final(path)@ == old(path)@,
        errors_view(final(errors)@) == errors_view(old(errors)@) + tuple_errors(
            *schema,
            elements@,
            arr@,
            path_view(old(path)@),
            0,
            (fuel - 1) as nat,
        ).unwrap(),
    decreases fuel, 0int,
{
    let ghost f = (fuel - 1) as nat;
    let ghost p0 = path@;
    let ghost pv = path_view(p0);
    let ghost base = errors_view(errors@);
    let mut i: usize = 0;
    while i < arr.len()
        invariant
            fuel > 0,
            f == (fuel - 1) as nat,
            elements@.len() == arr@.len(),
            i <= arr@.len(),
            path@ == p0,
            pv == path_view(p0),
            tuple_errors(*schema, elements@, arr@, pv, i as nat, f) is Some,
            base + tuple_errors(*schema, elements@, arr@, pv, 0, f).unwrap() == errors_view(errors@)
                + tuple_errors(*schema, elements@, arr@, pv, i as nat, f).unwrap(),
        decreases arr@.len() - i,
    {
        let ghost before = errors_view(errors@);
        let seg = PathSegment::Index(i);
        proof {
            lemma_path_push(p0, seg);
        }
        path.push(seg);
        match_fuel(schema, &elements[i].maskoid, &arr[i], path, errors, Ghost(f));
        path.pop();
        assert(path@ == p0);
        proof {
            let here = match_errors(
                *schema,
                elements@[i as int].maskoid,
                arr@[i as int],
                pv.push(PathView::Index(i)),
                f,
            );
            let rest = tuple_errors(*schema, elements@, arr@, pv, (i + 1) as nat, f);
            assert(tuple_errors(*schema, elements@, arr@, pv, i as nat, f) == cat(here, rest));
            assert(before + (here.unwrap() + rest.unwrap()) == before + here.unwrap() + rest.unwrap());
        }
        i = i + 1;
    }
    assert(errors_view(errors@) + no_errors() == errors_view(errors@));
}

fn match_fields(
    schema: &SchemaskV1,
    fields: &StrMap<MaskoidField>,
    obj: &StrMap<JsonValue>,
    path: &mut Vec<PathSegment>,
    errors: &mut Vec<ValidationError>,
    Ghost(fuel): Ghost<nat>,
)
    requires
        fuel > 0,
        fields_errors(
            *schema,
            fields.entries@,
            obj.entries@,
            path_view(old(path)@),
            0,
            (fuel - 1) as nat,
        ) is Some,
    ensures
        final(path)@ == old(path)@,
        errors_view(final(errors)@) == errors_view(old(errors)@) + fields_errors(
            *schema,
            fields.entries@,
            obj.entries@,
            path_view(old(path)@),
            0,
            (fuel - 1) as nat,
        ).unwrap(),
    decreases fuel, 0int,
{
    let ghost f = (fuel - 1) as nat;
    let ghost p0 = path@;
    let ghost pv = path_view(p0);
    let ghost base = errors_view(errors@);
    let fe = &fields.entries;
    let mut i: usize = 0;
    while i < fe.len()
        invariant
            fuel > 0,
            f == (fuel - 1) as nat,
            fe == &fields.entries,
            i <= fe@.len(),
            path@ == p0,
            pv == path_view(p0),
            fields_errors(*schema, fe@, obj.entries@, pv, i as nat, f) is Some,
            base + fields_errors(*schema, fe@, obj.entries@, pv, 0, f).unwrap() == errors_view(
                errors@,
            ) + fields_errors(*schema, fe@, obj.entries@, pv, i as nat, f).unwrap(),
        decreases fe@.len() - i,
    {
        let ghost before = errors_view(errors@);
        let name = &fe[i].0;
        let field = &fe[i].1;
        match obj.get(name.as_str()) {
            Some(v) => {
                let seg = PathSegment::Key(name.clone());
                proof {
                    lemma_path_push(p0, seg);
                }
                path.push(seg);
                match_fuel(schema, &field.maskoid, v, path, errors, Ghost(f));
                path.pop();
                assert(path@ == p0);
            },
            None => {
                let optional = match &field.maskoid {
                    Maskoid::Option(_) => true,
                    _ => false,
                };
                if !optional {
                    push_error(
                        errors,
                        path,
                        quoted_name_msg("Missing required field '", name.as_str(), "'"),
                    );
                }
            },
        }
        proof {
            let here = field_errors(*schema, fe@[i as int].0, fe@[i as int].1, obj.entries@, pv, f);
            let rest = fields_errors(*schema, fe@, obj.entries@, pv, (i + 1) as nat, f);
            assert(fields_errors(*schema, fe@, obj.entries@, pv, i as nat, f) == cat(here, rest));
            assert(errors_view(errors@) == before + here.unwrap());
            assert(before + (here.unwrap() + rest.unwrap()) == before + here.unwrap() + rest.unwrap());
        }
        i = i + 1;
    }
    assert(errors_view(errors@) + no_errors() == errors_view(errors@));
}

fn push_unexpected(
    fields: &StrMap<MaskoidField>,
    obj: &StrMap<JsonValue>,
    path: &Vec<PathSegment>,
    errors: &mut Vec<ValidationError>,
)
    ensures
        errors_view(final(errors)@) == errors_view(old(errors)@) + unexpected_errors(
            fields.entries@,
            obj.entries@,
            path_view(path@),
            obj.entries@.len(),
        ),
{
    let ghost base = errors_view(errors@);
    let oe = &obj.entries;
    let mut i: usize = 0;
    while i < oe.len()
        invariant
            oe == &obj.entries,
            i <= oe@.len(),
            errors_view(errors@) == base + unexpected_errors(
                fields.entries@,
                oe@,
                path_view(path@),
                i as nat,
            ),
        decreases oe@.len() - i,
    {
        if !fields.contains_key(oe[i].0.as_str()) {
            push_error(errors, path, quoted_name_msg("Unexpected field '", oe[i].0.as_str(), "'"));
        }
        i = i + 1;
    }
}

fn push_duplicates(arr: &Vec<JsonValue>, path: &Vec<PathSegment>, errors: &mut Vec<ValidationError>)
    ensures
        errors_view(final(errors)@) == errors_view(old(errors)@) + dup_errors(
            arr@,
            path_view(path@),
            arr@.len(),
        ),
{
    let ghost base = errors_view(errors@);
    let ghost pv = path_view(path@);
    let n = arr.len();
    let mut i: usize = 0;
    while i < n
        invariant
            n == arr@.len(),
            i <= n,
            pv == path_view(path@),
            errors_view(errors@) == base + dup_errors(arr@, pv, i as nat),
        decreases n - i,
    {
        let ghost row_base = errors_view(errors@);
        let mut j: usize = i + 1;
        while j < n
            invariant
                n == arr@.len(),
                i < n,
                i + 1 <= j <= n,
                pv == path_view(path@),
                errors_view(errors@) == row_base + dup_row(arr@, pv, i as nat, j as nat),
            decreases n - j,
        {
            if json_equal(&arr[i], &arr[j]) {
                let ghost p0 = path@;
                let mut p = copy_path(path);
                let seg = PathSegment::Index(j);
                proof {
                    lemma_path_push(p@, seg);
                }
                p.push(seg);
                let mut msg = owned("Duplicate element (also at index ");
                push_decimal(&mut msg, i);
                push_str(&mut msg, ")");
                push_error(errors, &p, msg);
            }
            j = j + 1;
        }
        i = i + 1;
    }
}

fn match_union(
    schema: &SchemaskV1,
    variants: &StrMap<MaskoidField>,
    data: &JsonValue,
    path: &mut Vec<PathSegment>,
    errors: &mut Vec<ValidationError>,
    Ghost(fuel): Ghost<nat>,
)
    requires
        fuel > 0,
        union_errors(*schema, *variants, *data, path_view(old(path)@), (fuel - 1) as nat) is Some,
    ensures
        final(path)@ == old(path)@,
        errors_view(final(errors)@) == errors_view(old(errors)@) + union_errors(
            *schema,
            *variants,
            *data,
            path_view(old(path)@),
            (fuel - 1) as nat,
        ).unwrap(),
    decreases fuel, 0int,
{
    let ghost f = (fuel - 1) as nat;
    match data {
        JsonValue::String(tag) => {
            match variants.get(tag.as_str()) {
                Some(variant) => {
                    let valueless = match &variant.maskoid {
                        Maskoid::Null => true,
                        _ => false,
                    };
                    if !valueless {
                        push_error(
                            errors,
                            path,
                            quoted_name_msg(
                                "Union variant '",
                                tag.as_str(),
                                "' carries a value, expected a single-key object",
                            ),
                        );
                    }
                },
                None => {
                    push_error(errors, path, unknown_variant_msg(tag.as_str(), variants));
                },
            }
        },
        JsonValue::Object(obj) => {
            if obj.len() == 1 {
                let tag = &obj.entries[0].0;
                let value = &obj.entries[0].1;
                match variants.get(tag.as_str()) {
                    Some(variant) => {
                        let ghost p0 = path@;
                        let seg = PathSegment::Key(tag.clone());
                        proof {
                            lemma_path_push(p0, seg);
                        }
                        path.push(seg);
                        match_fuel(schema, &variant.maskoid, value, path, errors, Ghost(f));
                        path.pop();
                        assert(path@ == p0);
                    },
                    None => {
                        push_error(errors, path, unknown_variant_msg(tag.as_str(), variants));
                    },
                }
            } else {
                let got = object_with_msg(obj.len());
                push_error(
                    errors,
                    path,
                    expected_got_msg("tagged union (single-key object)", got.as_str()),
                );
            }
        },
        _ => {
            push_error(
                errors,
                path,
                expected_got_msg(
                    "tagged union (single-key object, or variant name for a valueless variant)",
                    json_kind_name(data),
                ),
            );
        },
    }
}

} // verus!

verus! {

/// Adds to `errors` every error that `data` earns against `maskoid`, reported
/// under `path`; `path` is restored before returning.
pub fn match_maskoid(
    schema: &SchemaskV1,
    maskoid: &Maskoid,
    data: &JsonValue,
    path: &mut Vec<PathSegment>,
    errors: &mut Vec<ValidationError>,
)
    requires
        crate::v1::schema_wf(*schema),
        crate::v1::maskoid_wf(*maskoid),
        crate::json::json_wf(*data),
        match_terminates(*schema, *maskoid, *data, path_view(old(path)@)),
    ensures
        final(path)@ == old(path)@,
        errors_view(final(errors)@) == errors_view(old(errors)@) + validation_errors(
            *schema,
            *maskoid,
            *data,
            path_view(old(path)@),
        ),
{
    let ghost fuel = choose|fuel: nat|
        (#[trigger] match_errors(*schema, *maskoid, *data, path_view(path@), fuel)) is Some;
    match_fuel(schema, maskoid, data, path, errors, Ghost(fuel));
}

/// The binding that validation starts from: the explicit root, else the
/// schema's default.
pub open spec fn root_name(schema: SchemaskV1, root: Option<String>) -> Option<Seq<char>> {
    match root {
        Some(r) => Some(r@),
        None => opt_view(schema.default),
    }
}

/// What [`validate`] answers: `Ok` when the data earns no error, otherwise the
/// errors in the order the matcher finds them.
pub open spec fn validate_outcome(schema: SchemaskV1, root: Option<String>, data: JsonValue) -> Result<
    (),
    Seq<ErrorView>,
> {
    match root_name(schema, root) {
        None => Err(one(Seq::empty(), "No root specified and schema has no default binding"@)),
        Some(name) => match lookup(schema.bindings.entries@, name) {
            None => Err(one(Seq::empty(), quoted_name("Binding '"@, name, "' not found in schema"@))),
            Some(m) => {
                let e = validation_errors(schema, m, data, Seq::empty());
                if e.len() == 0 {
                    Ok(())
                } else {
                    Err(e)
                }
            },
        },
    }
}

/// Matching against the root binding, if there is one, comes to an end.
pub open spec fn validate_terminates(schema: SchemaskV1, root: Option<String>, data: JsonValue) -> bool {
    match root_name(schema, root) {
        Some(name) => match lookup(schema.bindings.entries@, name) {
            Some(m) => match_terminates(schema, m, data, Seq::empty()),
            None => true,
        },
        None => true,
    }
}

/// The errors an outcome carries, as views.
pub open spec fn outcome_view(r: Result<(), Invalid>) -> Result<(), Seq<ErrorView>> {
    match r {
        Ok(()) => Ok(()),
        Err(inv) => Err(errors_view(inv.errors@)),
    }
}

/// This is the main method for checking data against a schema. If the data is
/// valid it will return `Ok(())`, otherwise an error.
pub fn validate(schema: &SchemaskV1, root: Option<String>, data: &JsonValue) -> (r: Result<(), Invalid>)
    requires
        crate::v1::schema_wf(*schema),
        crate::json::json_wf(*data),
        validate_terminates(*schema, root, *data),
    ensures
        outcome_view(r) == validate_outcome(*schema, root, *data),
        r matches Err(inv) ==> inv.errors@.len() > 0,
{
    let ghost root0 = root;
    let binding_name = match root {
        Some(name) => name,
        None => match &schema.default {
            Some(d) => d.clone(),
            None => {
                let mut errors: Vec<ValidationError> = Vec::new();
                let path: Vec<PathSegment> = Vec::new();
                push_error(&mut errors, &path, owned("No root specified and schema has no default binding"));
                assert(path_view(path@) =~= Seq::<PathView>::empty());
                assert(errors_view(Seq::<ValidationError>::empty()) =~= Seq::<ErrorView>::empty());
                return Err(Invalid { errors: errors });
            },
        },
    };
    assert(root_name(*schema, root0) == Some(binding_name@));
    let maskoid = match schema.bindings.get(binding_name.as_str()) {
        Some(m) => m,
        None => {
            let mut errors: Vec<ValidationError> = Vec::new();
            let path: Vec<PathSegment> = Vec::new();
            push_error(
                &mut errors,
                &path,
                quoted_name_msg("Binding '", binding_name.as_str(), "' not found in schema"),
            );
            assert(path_view(path@) =~= Seq::<PathView>::empty());
            assert(errors_view(Seq::<ValidationError>::empty()) =~= Seq::<ErrorView>::empty());
            return Err(Invalid { errors: errors });
        },
    };
    let mut errors: Vec<ValidationError> = Vec::new();
    let mut path: Vec<PathSegment> = Vec::new();
    assert(path_view(path@) =~= Seq::<PathView>::empty());
    assert(errors_view(errors@) =~= Seq::<ErrorView>::empty());
    proof {
        crate::strmap::lemma_find_key_bounds(schema.bindings.entries@, binding_name@);
        let j = crate::strmap::find_key(schema.bindings.entries@, binding_name@).unwrap();
        assert(crate::v1::maskoid_wf(schema.bindings.entries@[j].1));
    }
    match_maskoid(schema, maskoid, data, &mut path, &mut errors);
    if errors.len() == 0 {
        Ok(())
    } else {
        Err(Invalid { errors: errors })
    }
}

/// The step bound [`validate_settled`] checks with: two steps per binding,
/// and two more.
pub open spec fn settle_bound(schema: SchemaskV1) -> nat {
    let n = schema.bindings.entries@.len();
    if n <= (usize::MAX - 2) / 2 {
        2 * n + 2
    } else {
        usize::MAX as nat
    }
}

/// Decides [`settles`].
fn settles_check(schema: &SchemaskV1, m: &Maskoid, k: usize) -> (r: bool)
    ensures
        r == settles(*schema, *m, k as nat),
{
    let mut cur: &Maskoid = m;
    let mut left: usize = k;
    loop
        invariant
            settles(*schema, *m, k as nat) == settles(*schema, *cur, left as nat),
        decreases left,
    {
        if left == 0 {
            return false;
        }
        match cur {
            Maskoid::Ref(name) => match schema.bindings.get(name.as_str()) {
                Some(inner) => {
                    cur = inner;
                    left = left - 1;
                },
                None => {
                    return true;
                },
            },
            Maskoid::Option(inner) => {
                if matches!(**inner, Maskoid::Option(_)) {
                    return true;
                }
                cur = &**inner;
                left = left - 1;
            },
            _ => {
                return true;
            },
        }
    }
}

/// Decides [`settles_within`].
fn settles_within_check(schema: &SchemaskV1, m: &Maskoid, k: usize) -> (r: bool)
    ensures
        r == settles_within(*schema, *m, k as nat),
    decreases m,
{
    if !settles_check(schema, m, k) {
        return false;
    }
    match m {
        Maskoid::Option(inner) => settles_within_check(schema, inner, k),
        Maskoid::List(inner) => settles_within_check(schema, inner, k),
        Maskoid::SetOf(inner) => settles_within_check(schema, inner, k),
        Maskoid::StringMap(inner) => settles_within_check(schema, inner, k),
        Maskoid::Tuple(t) => {
            let mut i: usize = 0;
            while i < t.elements.len()
                invariant
                    *m == Maskoid::Tuple(*t),
                    i <= t.elements@.len(),
                    forall|j: int| 0 <= j < i ==> settles_within(*schema, #[trigger] t.elements@[j].maskoid, k as nat),
                    forall|j: int| 0 <= j < t.elements@.len() ==> decreases_to!(*m => #[trigger] t.elements@[j].maskoid),
                decreases t.elements@.len() - i,
            {
                if !settles_within_check(schema, &t.elements[i].maskoid, k) {
                    assert(!settles_within(*schema, t.elements@[i as int].maskoid, k as nat));
                    return false;
                }
                i = i + 1;
            }
            true
        },
        Maskoid::TaggedUnion(u) => {
            let e = &u.variants.entries;
            let mut i: usize = 0;
            while i < e.len()
                invariant
                    *m == Maskoid::TaggedUnion(*u),
                    e@ == u.variants.entries@,
                    i <= e@.len(),
                    forall|j: int| 0 <= j < i ==> settles_within(*schema, #[trigger] e@[j].1.maskoid, k as nat),
                    forall|j: int| 0 <= j < e@.len() ==> decreases_to!(*m => #[trigger] e@[j].1.maskoid),
                decreases e@.len() - i,
            {
                if !settles_within_check(schema, &e[i].1.maskoid, k) {
                    assert(!settles_within(*schema, e@[i as int].1.maskoid, k as nat));
                    return false;
                }
                i = i + 1;
            }
            true
        },
        Maskoid::Record(r) => {
            let e = &r.fields.entries;
            let mut i: usize = 0;
            while i < e.len()
                invariant
                    *m == Maskoid::Record(*r),
                    e@ == r.fields.entries@,
                    i <= e@.len(),
                    forall|j: int| 0 <= j < i ==> settles_within(*schema, #[trigger] e@[j].1.maskoid, k as nat),
                    forall|j: int| 0 <= j < e@.len() ==> decreases_to!(*m => #[trigger] e@[j].1.maskoid),
                decreases e@.len() - i,
            {
                if !settles_within_check(schema, &e[i].1.maskoid, k) {
                    assert(!settles_within(*schema, e@[i as int].1.maskoid, k as nat));
                    return false;
                }
                i = i + 1;
            }
            true
        },
        _ => true,
    }
}

/// Appends the names that the references inside `m` use, in order.
fn collect_refs(m: &Maskoid, out: &mut Vec<String>)
    ensures
        crate::text::views(final(out)@) == crate::text::views(old(out)@) + refs_list(*m),
    decreases m,
{
    match m {
        Maskoid::Ref(n) => {
            let ghost before = out@;
            out.push(owned(n.as_str()));
            proof {
                crate::text::lemma_views_push(before, out@.last());
                assert(out@ == before.push(out@.last()));
            }
        },
        Maskoid::Option(inner) => collect_refs(inner, out),
        Maskoid::List(inner) => collect_refs(inner, out),
        Maskoid::SetOf(inner) => collect_refs(inner, out),
        Maskoid::StringMap(inner) => collect_refs(inner, out),
        Maskoid::Tuple(t) => {
            let ghost start = crate::text::views(out@);
            let mut i: usize = 0;
            assert(t.elements@.take(0) =~= Seq::<MaskoidField>::empty());
            while i < t.elements.len()
                invariant
                    *m == Maskoid::Tuple(*t),
                    i <= t.elements@.len(),
                    crate::text::views(out@) == start + fields_refs(t.elements@.take(i as int)),
                    forall|j: int| 0 <= j < t.elements@.len() ==> decreases_to!(*m => #[trigger] t.elements@[j].maskoid),
                decreases t.elements@.len() - i,
            {
                let ghost pre = t.elements@.take(i as int + 1);
                assert(pre.drop_last() == t.elements@.take(i as int));
                assert(pre.last() == t.elements@[i as int]);
                collect_refs(&t.elements[i].maskoid, out);
                i = i + 1;
            }
            assert(t.elements@.take(i as int) == t.elements@);
        },
        Maskoid::TaggedUnion(u) => {
            let e = &u.variants.entries;
            let ghost start = crate::text::views(out@);
            let mut i: usize = 0;
            assert(e@.take(0) =~= Seq::<(String, MaskoidField)>::empty());
            while i < e.len()
                invariant
                    *m == Maskoid::TaggedUnion(*u),
                    e@ == u.variants.entries@,
                    i <= e@.len(),
                    crate::text::views(out@) == start + entries_refs(e@.take(i as int)),
                    forall|j: int| 0 <= j < e@.len() ==> decreases_to!(*m => #[trigger] e@[j].1.maskoid),
                decreases e@.len() - i,
            {
                let ghost pre = e@.take(i as int + 1);
                assert(pre.drop_last() == e@.take(i as int));
                assert(pre.last() == e@[i as int]);
                collect_refs(&e[i].1.maskoid, out);
                i = i + 1;
            }
            assert(e@.take(i as int) == e@);
        },
        Maskoid::Record(r) => {
            let e = &r.fields.entries;
            let ghost start = crate::text::views(out@);
            let mut i: usize = 0;
            assert(e@.take(0) =~= Seq::<(String, MaskoidField)>::empty());
            while i < e.len()
                invariant
                    *m == Maskoid::Record(*r),
                    e@ == r.fields.entries@,
                    i <= e@.len(),
                    crate::text::views(out@) == start + entries_refs(e@.take(i as int)),
                    forall|j: int| 0 <= j < e@.len() ==> decreases_to!(*m => #[trigger] e@[j].1.maskoid),
                decreases e@.len() - i,
            {
                let ghost pre = e@.take(i as int + 1);
                assert(pre.drop_last() == e@.take(i as int));
                assert(pre.last() == e@[i as int]);
                collect_refs(&e[i].1.maskoid, out);
                i = i + 1;
            }
            assert(e@.take(i as int) == e@);
        },
        _ => {
            assert(crate::text::views(out@) + Seq::<Seq<char>>::empty() == crate::text::views(out@));
        },
    }
}

/// Every name in `names` that names a binding refers only to names in
/// `names`.
pub open spec fn names_closed(schema: SchemaskV1, names: Set<Seq<char>>) -> bool {
    forall|n: Seq<char>|
        #[trigger] names.contains(n) ==> match lookup(schema.bindings.entries@, n) {
            Some(b) => refs_in(b, names),
            None => true,
        }
}

/// The reference `r` names no binding, or one marked in `seen`.
spec fn ref_seen(e: Seq<(String, Maskoid)>, seen: Seq<bool>, r: Seq<char>) -> bool {
    match find_key(e, r) {
        Some(x) => seen[x],
        None => true,
    }
}

/// Every reference inside binding `x` passes [`ref_seen`].
spec fn refs_seen(e: Seq<(String, Maskoid)>, seen: Seq<bool>, x: int) -> bool {
    forall|i: int| 0 <= i < refs_list(e[x].1).len() ==> ref_seen(e, seen, #[trigger] refs_list(e[x].1)[i])
}

/// The keys of the marked bindings all lie in `names`.
spec fn marked_within(e: Seq<(String, Maskoid)>, seen: Seq<bool>, names: Set<Seq<char>>) -> bool {
    forall|j: int| #![trigger seen[j]] 0 <= j < seen.len() && seen[j] ==> names.contains(e[j].0@)
}

/// Each closed set of names that holds `root` holds the keys of the marked
/// bindings.
spec fn marked_minimal(schema: SchemaskV1, seen: Seq<bool>, root: Seq<char>) -> bool {
    forall|names: Set<Seq<char>>|
        #[trigger] names_closed(schema, names) && names.contains(root) ==> marked_within(
            schema.bindings.entries@,
            seen,
            names,
        )
}

/// How many entries are still unmarked.
spec fn count_unmarked(s: Seq<bool>) -> nat
    decreases s.len(),
{
    if s.len() == 0 {
        0
    } else {
        count_unmarked(s.drop_last()) + if s.last() {
            0nat
        } else {
            1nat
        }
    }
}

proof fn lemma_count_unmarked_mark(s: Seq<bool>, i: int)
    requires
        0 <= i < s.len(),
        !s[i],
    ensures
        count_unmarked(s.update(i, true)) + 1 == count_unmarked(s),
    decreases s.len(),
{
    let t = s.update(i, true);
    if i == s.len() - 1 {
        assert(t.drop_last() == s.drop_last());
    } else {
        assert(t.drop_last() == s.drop_last().update(i, true));
        lemma_count_unmarked_mark(s.drop_last(), i);
    }
}

proof fn lemma_ref_seen_mark(e: Seq<(String, Maskoid)>, s: Seq<bool>, x: int, r: Seq<char>)
    requires
        s.len() == e.len(),
        0 <= x < s.len(),
        ref_seen(e, s, r),
    ensures
        ref_seen(e, s.update(x, true), r),
{
    crate::strmap::lemma_find_key_bounds(e, r);
}

proof fn lemma_refs_seen_mark(e: Seq<(String, Maskoid)>, s: Seq<bool>, x: int, y: int)
    requires
        s.len() == e.len(),
        0 <= x < s.len(),
        refs_seen(e, s, y),
    ensures
        refs_seen(e, s.update(x, true), y),
{
    assert forall|i: int| 0 <= i < refs_list(e[y].1).len() implies ref_seen(
        e,
        s.update(x, true),
        #[trigger] refs_list(e[y].1)[i],
    ) by {
        lemma_ref_seen_mark(e, s, x, refs_list(e[y].1)[i]);
    }
}

/// Marking the binding that a reference of a marked binding names keeps the
/// marks within every closed set of names that holds the root.
proof fn lemma_mark_minimal(schema: SchemaskV1, s: Seq<bool>, root: Seq<char>, j: int, i: int, x: int)
    requires
        crate::v1::schema_wf(schema),
        s.len() == schema.bindings.entries@.len(),
        0 <= j < s.len(),
        s[j],
        0 <= i < refs_list(schema.bindings.entries@[j].1).len(),
        find_key(schema.bindings.entries@, refs_list(schema.bindings.entries@[j].1)[i]) == Some(x),
        marked_minimal(schema, s, root),
    ensures
        marked_minimal(schema, s.update(x, true), root),
{
    let e = schema.bindings.entries@;
    let r = refs_list(e[j].1)[i];
    crate::strmap::lemma_find_key_bounds(e, r);
    crate::strmap::lemma_find_key_sorted(e, e[j].0@, j);
    assert forall|names: Set<Seq<char>>| #[trigger]
        names_closed(schema, names) && names.contains(root) implies marked_within(
        e,
        s.update(x, true),
        names,
    ) by {
        assert(marked_within(e, s, names));
        assert(names.contains(e[j].0@));
        assert(refs_in(e[j].1, names));
        assert(names.contains(r));
    }
}

/// Marks the bindings that matching can reach from binding `ri`: the marks
/// are closed under references and lie within every closed set of names
/// that holds the key of `ri`.
fn reachable(schema: &SchemaskV1, ri: usize) -> (seen: Vec<bool>)
    requires
        crate::v1::schema_wf(*schema),
        ri < schema.bindings.entries@.len(),
    ensures
        seen@.len() == schema.bindings.entries@.len(),
        seen@[ri as int],
        forall|x: int| 0 <= x < seen@.len() && #[trigger] seen@[x] ==> refs_seen(schema.bindings.entries@, seen@, x),
        marked_minimal(*schema, seen@, schema.bindings.entries@[ri as int].0@),
{
    let e = &schema.bindings.entries;
    let n = e.len();
    let ghost root = e@[ri as int].0@;
    let mut seen: Vec<bool> = Vec::new();
    while seen.len() < n
        invariant
            seen@.len() <= n,
            count_unmarked(seen@) == seen@.len(),
            forall|j: int| 0 <= j < seen@.len() ==> !#[trigger] seen@[j],
        decreases n - seen@.len(),
    {
        let ghost before = seen@;
        seen.push(false);
        assert(seen@.drop_last() == before);
    }
    proof {
        lemma_count_unmarked_mark(seen@, ri as int);
    }
    seen.set(ri, true);
    assert forall|names: Set<Seq<char>>| #[trigger]
        names_closed(*schema, names) && names.contains(root) implies marked_within(e@, seen@, names) by {}
    let mut queue: Vec<usize> = Vec::new();
    queue.push(ri);
    assert forall|x: int| 0 <= x < n && #[trigger] seen@[x] implies queue@.contains(x as usize) by {
        assert(queue@[0] == ri);
    }
    let mut head: usize = 0;
    while head < queue.len()
        invariant
            e@ == schema.bindings.entries@,
            crate::v1::schema_wf(*schema),
            n == e@.len(),
            seen@.len() == n,
            ri < n,
            root == e@[ri as int].0@,
            seen@[ri as int],
            head <= queue@.len(),
            count_unmarked(seen@) + queue@.len() == n,
            forall|q: int| 0 <= q < queue@.len() ==> #[trigger] queue@[q] < n && seen@[queue@[q] as int],
            forall|x: int| 0 <= x < n && #[trigger] seen@[x] ==> queue@.contains(x as usize),
            forall|q: int| 0 <= q < head ==> refs_seen(e@, seen@, #[trigger] queue@[q] as int),
            marked_minimal(*schema, seen@, root),
        decreases n - head,
    {
        let j = queue[head];
        let mut refs: Vec<String> = Vec::new();
        collect_refs(&e[j].1, &mut refs);
        assert(crate::text::views(refs@) == refs_list(e@[j as int].1)) by {
            assert(crate::text::views(Seq::<String>::empty()) =~= Seq::<Seq<char>>::empty());
            assert(Seq::<Seq<char>>::empty() + refs_list(e@[j as int].1) =~= refs_list(e@[j as int].1));
        }
        let ghost rl = refs_list(e@[j as int].1);
        let mut t: usize = 0;
        while t < refs.len()
            invariant
                e@ == schema.bindings.entries@,
                crate::v1::schema_wf(*schema),
                n == e@.len(),
                seen@.len() == n,
                ri < n,
                root == e@[ri as int].0@,
                seen@[ri as int],
                head < queue@.len(),
                j == queue@[head as int],
                rl == refs_list(e@[j as int].1),
                crate::text::views(refs@) == rl,
                t <= refs@.len(),
                count_unmarked(seen@) + queue@.len() == n,
                forall|q: int| 0 <= q < queue@.len() ==> #[trigger] queue@[q] < n && seen@[queue@[q] as int],
                forall|x: int| 0 <= x < n && #[trigger] seen@[x] ==> queue@.contains(x as usize),
                forall|q: int| 0 <= q < head ==> refs_seen(e@, seen@, #[trigger] queue@[q] as int),
                forall|u: int| 0 <= u < t ==> ref_seen(e@, seen@, #[trigger] rl[u]),
                marked_minimal(*schema, seen@, root),
            decreases refs@.len() - t,
        {
            assert(refs@[t as int]@ == rl[t as int]);
            match schema.bindings.position(refs[t].as_str()) {
                Some(x) => {
                    proof {
                        crate::strmap::lemma_find_key_bounds(e@, rl[t as int]);
                    }
                    if !seen[x] {
                        let ghost old_seen = seen@;
                        let ghost old_queue = queue@;
                        proof {
                            crate::strmap::lemma_find_key_bounds(e@, rl[t as int]);
                            lemma_count_unmarked_mark(old_seen, x as int);
                            lemma_mark_minimal(*schema, old_seen, root, j as int, t as int, x as int);
                            assert forall|q: int| 0 <= q < head implies refs_seen(
                                e@,
                                old_seen.update(x as int, true),
                                #[trigger] old_queue[q] as int,
                            ) by {
                                lemma_refs_seen_mark(e@, old_seen, x as int, old_queue[q] as int);
                            }
                            assert forall|u: int| 0 <= u < t implies ref_seen(
                                e@,
                                old_seen.update(x as int, true),
                                #[trigger] rl[u],
                            ) by {
                                lemma_ref_seen_mark(e@, old_seen, x as int, rl[u]);
                            }
                        }
                        seen.set(x, true);
                        queue.push(x);
                        assert forall|y: int| 0 <= y < n && #[trigger] seen@[y] implies queue@.contains(
                            y as usize,
                        ) by {
                            if y == x as int {
                                assert(queue@[old_queue.len() as int] == x);
                            } else {
                                assert(old_seen[y]);
                                assert(old_queue.contains(y as usize));
                                let w = choose|w: int| 0 <= w < old_queue.len() && old_queue[w] == y as usize;
                                assert(queue@[w] == y as usize);
                            }
                        }
                        assert(forall|q: int| 0 <= q < old_queue.len() ==> queue@[q] == old_queue[q]);
                    }
                },
                None => {},
            }
            t = t + 1;
        }
        proof {
            assert(refs_seen(e@, seen@, j as int));
        }
        head = head + 1;
    }
    proof {
        assert forall|x: int| 0 <= x < seen@.len() && #[trigger] seen@[x] implies refs_seen(e@, seen@, x) by {
            assert(queue@.contains(x as usize));
            let w = choose|w: int| 0 <= w < queue@.len() && queue@[w] == x as usize;
            assert(refs_seen(e@, seen@, queue@[w] as int));
        }
    }
    seen
}

/// [`validate`] for a schema that nothing has checked: `None` when some chain
/// of references that matching can reach from the root may loop without
/// descending into the data (within [`settle_bound`] steps it does not
/// settle), otherwise what [`validate`] answers.
pub fn validate_settled(schema: &SchemaskV1, root: Option<String>, data: &JsonValue) -> (r: Option<
    Result<(), Invalid>,
>)
    requires
        crate::v1::schema_wf(*schema),
        crate::json::json_wf(*data),
    ensures
        r is None <==> !root_settles(*schema, root, settle_bound(*schema)),
        r matches Some(x) ==> outcome_view(x) == validate_outcome(*schema, root, *data),
        r matches Some(Err(inv)) ==> inv.errors@.len() > 0,
{
    let e = &schema.bindings.entries;
    let n = e.len();
    let k: usize = if n <= (usize::MAX - 2) / 2 {
        2 * n + 2
    } else {
        usize::MAX
    };
    let name: Option<String> = match &root {
        Some(r) => Some(r.clone()),
        None => match &schema.default {
            Some(d) => Some(d.clone()),
            None => None,
        },
    };
    assert(opt_view(name) == root_name(*schema, root));
    let nm = match name {
        Some(nm) => nm,
        None => {
            proof {
                crate::laws::law_root_settled_validates(*schema, k as nat, root, *data);
            }
            return Some(validate(schema, root, data));
        },
    };
    let ri = match schema.bindings.position(nm.as_str()) {
        Some(ri) => ri,
        None => {
            proof {
                let names = set![nm@];
                assert(names.contains(nm@));
                assert(names_settled(*schema, names, k as nat));
                crate::laws::law_root_settled_validates(*schema, k as nat, root, *data);
            }
            return Some(validate(schema, root, data));
        },
    };
    proof {
        crate::strmap::lemma_find_key_bounds(e@, nm@);
    }
    let seen = reachable(schema, ri);
    let mut j: usize = 0;
    while j < n
        invariant
            e@ == schema.bindings.entries@,
            n == e@.len(),
            crate::v1::schema_wf(*schema),
            seen@.len() == n,
            ri < n,
            e@[ri as int].0@ == nm@,
            root_name(*schema, root) == Some(nm@),
            settle_bound(*schema) == k as nat,
            marked_minimal(*schema, seen@, nm@),
            j <= n,
            forall|x: int| 0 <= x < j && #[trigger] seen@[x] ==> settles_within(*schema, e@[x].1, k as nat),
        decreases n - j,
    {
        if seen[j] && !settles_within_check(schema, &e[j].1, k) {
            proof {
                assert forall|names: Set<Seq<char>>| #[trigger] names.contains(nm@) implies !names_settled(
                    *schema,
                    names,
                    k as nat,
                ) by {
                    if names_settled(*schema, names, k as nat) {
                        assert(names_closed(*schema, names));
                        assert(marked_within(e@, seen@, names));
                        assert(names.contains(e@[j as int].0@));
                        crate::strmap::lemma_find_key_sorted(e@, e@[j as int].0@, j as int);
                    }
                }
            }
            return None;
        }
        j = j + 1;
    }
    proof {
        let names = Set::new(|s: Seq<char>| ref_seen(e@, seen@, s));
        assert(names.contains(nm@));
        assert forall|s: Seq<char>| #[trigger] names.contains(s) implies match lookup(e@, s) {
            Some(b) => settles_within(*schema, b, k as nat) && refs_in(b, names),
            None => true,
        } by {
            crate::strmap::lemma_find_key_bounds(e@, s);
            if let Some(x) = find_key(e@, s) {
                assert(seen@[x]);
                assert(refs_seen(e@, seen@, x));
                assert forall|i: int| 0 <= i < refs_list(e@[x].1).len() implies names.contains(
                    #[trigger] refs_list(e@[x].1)[i],
                ) by {}
            }
        }
        assert(names_settled(*schema, names, k as nat));
        crate::laws::law_root_settled_validates(*schema, k as nat, root, *data);
    }
    Some(validate(schema, root, data))
}

} // verus!
