//! Describing Rust types as schemas. A type that implements [`Maskoidy`] says
//! which maskoid its JSON encoding matches; named types register themselves as
//! bindings, and a type met a second time is referred to by name, which breaks
//! cycles between recursive types.
use crate::json::JsonValue;
use crate::strmap::{has_key, StrMap};
use crate::text::{chars_of, owned, str_eq, views};
use crate::v1::{opt_view, Maskoid, MaskoidField, MaskoidRecord, MaskoidTaggedUnion, MaskoidTuple, SchemaskV1};
use crate::{schema_v1, Schemask};
use vstd::prelude::*;

verus! {

#[verifier::external_type_specification]
#[verifier::external_body]
pub struct ExSerdeJsonValue(serde_json::Value);

pub trait Maskoidy {
    /// What the maskoid of this type is; without a description of its own, any
    /// maskoid.
    open spec fn describes(m: Maskoid) -> bool {
        true
    }

    /// What `maskoid` does: from the ids seen and the bindings before (`seen0`,
    /// `bindings0`) to those after (`seen1`, `bindings1`), returning `m`; without
    /// a description of its own, anything.
    open spec fn steps(
        seen0: Seq<String>,
        bindings0: StrMap<Maskoid>,
        seen1: Seq<String>,
        bindings1: StrMap<Maskoid>,
        m: Maskoid,
    ) -> bool {
        true
    }

    /// The maskoid that this type's JSON encoding matches. Named types add their
    /// definition to `bindings` the first time their id is met in `seen`.
    fn maskoid(seen: &mut Vec<String>, bindings: &mut StrMap<Maskoid>) -> (m: Maskoid)
        requires
            old(bindings).wf(),
        ensures
            final(bindings).wf(),
            forall|id: Seq<char>| #[trigger] views(old(seen)@).contains(id) ==> views(final(seen)@).contains(id),
            forall|k: Seq<char>|
                #[trigger] has_key(old(bindings).entries@, k) ==> has_key(final(bindings).entries@, k),
            Self::describes(m),
            Self::steps(old(seen)@, *old(bindings), final(seen)@, *final(bindings), m),
    ;

    /// A unique identifier for this type, used for cycle detection during schema
    /// generation. Non-derived implementations return `""`.
    fn schema_id() -> (r: &'static str)
        default_ensures
            r@ == ""@,
    {
        ""
    }

    /// The name under which this type is registered as a binding during schema
    /// generation. Non-derived implementations return `""`.
    fn schema_name() -> (r: &'static str)
        default_ensures
            r@ == ""@,
    {
        ""
    }

    /// Build a [`Schemask`] rooted at this type. Named types are registered as
    /// bindings; recursive references are broken by returning a reference on the
    /// second encounter of a type.
    fn schemask() -> (r: Schemask)
        ensures
            schema_v1(r).bindings.wf(),
            exists|bindings0: StrMap<Maskoid>, seen1: Seq<String>, m: Maskoid|
                bindings0.entries@.len() == 0 && #[trigger] Self::steps(
                    Seq::empty(),
                    bindings0,
                    seen1,
                    schema_v1(r).bindings,
                    m,
                ),
            exists|n: &'static str|
                #[trigger] call_ensures(Self::schema_name, (), n) && opt_view(schema_v1(r).default) == (
                if n@.len() == 0 {
                    None::<Seq<char>>
                } else {
                    Some(n@)
                }),
    {
        let mut seen: Vec<String> = Vec::new();
        let mut bindings: StrMap<Maskoid> = StrMap::new();
        let ghost bindings0 = bindings;
        let m = Self::maskoid(&mut seen, &mut bindings);
        assert(Self::steps(Seq::empty(), bindings0, seen@, bindings, m));
        schemask_from(bindings, Self::schema_name())
    }
}

/// A schema with `bindings`, defaulting to the binding `name` unless the name is
/// empty.
pub fn schemask_from(bindings: StrMap<Maskoid>, name: &str) -> (r: Schemask)
    ensures
        schema_v1(r).bindings == bindings,
        opt_view(schema_v1(r).default) == (if name@.len() == 0 {
            None::<Seq<char>>
        } else {
            Some(name@)
        }),
{
    let default = if chars_of(name).len() == 0 {
        None
    } else {
        Some(owned(name))
    };
    (SchemaskV1 { bindings: bindings, default: default }).to_versioned()
}

/// Marks `id` as seen; `false` when it was seen before.
pub fn first_encounter(seen: &mut Vec<String>, id: &str) -> (fresh: bool)
    ensures
        fresh == !views(old(seen)@).contains(id@),
        views(final(seen)@) == (if fresh {
            views(old(seen)@).push(id@)
        } else {
            views(old(seen)@)
        }),
        !fresh ==> final(seen)@ == old(seen)@,
{
    let mut i: usize = 0;
    while i < seen.len()
        invariant
            i <= seen@.len(),
            forall|j: int| 0 <= j < i ==> (#[trigger] seen@[j])@ != id@,
        decreases seen@.len() - i,
    {
        if str_eq(seen[i].as_str(), id) {
            assert(views(seen@)[i as int] == id@);
            return false;
        }
        i = i + 1;
    }
    assert(!views(seen@).contains(id@)) by {
        if views(seen@).contains(id@) {
            let k = choose|k: int| 0 <= k < views(seen@).len() && views(seen@)[k] == id@;
            assert(seen@[k]@ == id@);
        }
    }
    let s = owned(id);
    proof {
        crate::text::lemma_views_push(seen@, s);
    }
    seen.push(s);
    true
}

/// How a named type registers itself: on the first encounter of `id` its
/// definition `def` is stored under `name`; either way the result refers to
/// `name`.
pub open spec fn registered(
    old_seen: Seq<String>,
    new_seen: Seq<String>,
    old_bindings: StrMap<Maskoid>,
    new_bindings: StrMap<Maskoid>,
    id: Seq<char>,
    name: Seq<char>,
    m: Maskoid,
) -> bool {
    &&& m matches Maskoid::Ref(n) && n@ == name
    &&& views(new_seen).contains(id)
    &&& !views(old_seen).contains(id) ==> has_key(new_bindings.entries@, name)
    &&& views(old_seen).contains(id) ==> new_bindings == old_bindings && new_seen == old_seen
}

impl Maskoidy for () {
    /// The maskoid of `()`.
    open spec fn describes(m: Maskoid) -> bool {
        m is Null
    }

    /// Nothing is seen or bound.
    open spec fn steps(
        seen0: Seq<String>,
        bindings0: StrMap<Maskoid>,
        seen1: Seq<String>,
        bindings1: StrMap<Maskoid>,
        m: Maskoid,
    ) -> bool {
        seen1 == seen0 && bindings1 == bindings0
    }

    fn maskoid(seen: &mut Vec<String>, bindings: &mut StrMap<Maskoid>) -> (m: Maskoid)
        ensures
            m is Null,
    {
        let m = Maskoid::null();
        assert(Self::describes(m));
        assert(Self::steps(old(seen)@, *old(bindings), seen@, *bindings, m));
        m
    }
}

impl Maskoidy for bool {
    /// The maskoid of `bool`.
    open spec fn describes(m: Maskoid) -> bool {
        m is Bool
    }

    /// Nothing is seen or bound.
    open spec fn steps(
        seen0: Seq<String>,
        bindings0: StrMap<Maskoid>,
        seen1: Seq<String>,
        bindings1: StrMap<Maskoid>,
        m: Maskoid,
    ) -> bool {
        seen1 == seen0 && bindings1 == bindings0
    }

    fn maskoid(seen: &mut Vec<String>, bindings: &mut StrMap<Maskoid>) -> (m: Maskoid)
        ensures
            m is Bool,
            *final(seen) == *old(seen),
            *final(bindings) == *old(bindings),
    {
        let m = Maskoid::bool();
        assert(Self::describes(m));
        assert(Self::steps(old(seen)@, *old(bindings), seen@, *bindings, m));
        m
    }
}

impl<T: Maskoidy> Maskoidy for Box<T> {
    /// A box is described as what it holds.
    open spec fn describes(m: Maskoid) -> bool {
        T::describes(m)
    }

    /// A box steps as what it holds.
    open spec fn steps(
        seen0: Seq<String>,
        bindings0: StrMap<Maskoid>,
        seen1: Seq<String>,
        bindings1: StrMap<Maskoid>,
        m: Maskoid,
    ) -> bool {
        T::steps(seen0, bindings0, seen1, bindings1, m)
    }

    fn maskoid(seen: &mut Vec<String>, bindings: &mut StrMap<Maskoid>) -> (m: Maskoid) {
        let m = T::maskoid(seen, bindings);
        assert(Self::describes(m));
        assert(Self::steps(old(seen)@, *old(bindings), seen@, *bindings, m));
        m
    }
}

impl<V: Maskoidy> Maskoidy for StrMap<V> {
    /// A string map of what the values are.
    open spec fn describes(m: Maskoid) -> bool {
        m matches Maskoid::StringMap(b) && V::describes(*b)
    }

    /// Describing the values is all it does.
    open spec fn steps(
        seen0: Seq<String>,
        bindings0: StrMap<Maskoid>,
        seen1: Seq<String>,
        bindings1: StrMap<Maskoid>,
        m: Maskoid,
    ) -> bool {
        m matches Maskoid::StringMap(b) && V::steps(seen0, bindings0, seen1, bindings1, *b)
    }

    fn maskoid(seen: &mut Vec<String>, bindings: &mut StrMap<Maskoid>) -> (m: Maskoid)
        ensures
            m is StringMap,
    {
        let m = Maskoid::string_map(V::maskoid(seen, bindings));
        assert(Self::describes(m));
        assert(Self::steps(old(seen)@, *old(bindings), seen@, *bindings, m));
        m
    }
}

impl<V: Maskoidy> Maskoidy for std::collections::HashMap<String, V> {
    /// A string map of what the values are.
    open spec fn describes(m: Maskoid) -> bool {
        m matches Maskoid::StringMap(b) && V::describes(*b)
    }

    /// Describing the values is all it does.
    open spec fn steps(
        seen0: Seq<String>,
        bindings0: StrMap<Maskoid>,
        seen1: Seq<String>,
        bindings1: StrMap<Maskoid>,
        m: Maskoid,
    ) -> bool {
        m matches Maskoid::StringMap(b) && V::steps(seen0, bindings0, seen1, bindings1, *b)
    }

    fn maskoid(seen: &mut Vec<String>, bindings: &mut StrMap<Maskoid>) -> (m: Maskoid)
        ensures
            m is StringMap,
    {
        let m = Maskoid::string_map(V::maskoid(seen, bindings));
        assert(Self::describes(m));
        assert(Self::steps(old(seen)@, *old(bindings), seen@, *bindings, m));
        m
    }
}

impl Maskoidy for i8 {
    /// The maskoid of `i8`.
    open spec fn describes(m: Maskoid) -> bool {
        m is Int
    }

    /// Nothing is seen or bound.
    open spec fn steps(
        seen0: Seq<String>,
        bindings0: StrMap<Maskoid>,
        seen1: Seq<String>,
        bindings1: StrMap<Maskoid>,
        m: Maskoid,
    ) -> bool {
        seen1 == seen0 && bindings1 == bindings0
    }

    fn maskoid(seen: &mut Vec<String>, bindings: &mut StrMap<Maskoid>) -> (m: Maskoid)
        ensures
            m is Int,
    {
        let m = Maskoid::int_();
        assert(Self::describes(m));
        assert(Self::steps(old(seen)@, *old(bindings), seen@, *bindings, m));
        m
    }
}

impl Maskoidy for i16 {
    /// The maskoid of `i16`.
    open spec fn describes(m: Maskoid) -> bool {
        m is Int
    }

    /// Nothing is seen or bound.
    open spec fn steps(
        seen0: Seq<String>,
        bindings0: StrMap<Maskoid>,
        seen1: Seq<String>,
        bindings1: StrMap<Maskoid>,
        m: Maskoid,
    ) -> bool {
        seen1 == seen0 && bindings1 == bindings0
    }

    fn maskoid(seen: &mut Vec<String>, bindings: &mut StrMap<Maskoid>) -> (m: Maskoid)
        ensures
            m is Int,
    {
        let m = Maskoid::int_();
        assert(Self::describes(m));
        assert(Self::steps(old(seen)@, *old(bindings), seen@, *bindings, m));
        m
    }
}

impl Maskoidy for i32 {
    /// The maskoid of `i32`.
    open spec fn describes(m: Maskoid) -> bool {
        m is Int
    }

    /// Nothing is seen or bound.
    open spec fn steps(
        seen0: Seq<String>,
        bindings0: StrMap<Maskoid>,
        seen1: Seq<String>,
        bindings1: StrMap<Maskoid>,
        m: Maskoid,
    ) -> bool {
        seen1 == seen0 && bindings1 == bindings0
    }

    fn maskoid(seen: &mut Vec<String>, bindings: &mut StrMap<Maskoid>) -> (m: Maskoid)
        ensures
            m is Int,
    {
        let m = Maskoid::int_();
        assert(Self::describes(m));
        assert(Self::steps(old(seen)@, *old(bindings), seen@, *bindings, m));
        m
    }
}

impl Maskoidy for i64 {
    /// The maskoid of `i64`.
    open spec fn describes(m: Maskoid) -> bool {
        m is Int
    }

    /// Nothing is seen or bound.
    open spec fn steps(
        seen0: Seq<String>,
        bindings0: StrMap<Maskoid>,
        seen1: Seq<String>,
        bindings1: StrMap<Maskoid>,
        m: Maskoid,
    ) -> bool {
        seen1 == seen0 && bindings1 == bindings0
    }

    fn maskoid(seen: &mut Vec<String>, bindings: &mut StrMap<Maskoid>) -> (m: Maskoid)
        ensures
            m is Int,
    {
        let m = Maskoid::int_();
        assert(Self::describes(m));
        assert(Self::steps(old(seen)@, *old(bindings), seen@, *bindings, m));
        m
    }
}

impl Maskoidy for u8 {
    /// The maskoid of `u8`.
    open spec fn describes(m: Maskoid) -> bool {
        m is Int
    }

    /// Nothing is seen or bound.
    open spec fn steps(
        seen0: Seq<String>,
        bindings0: StrMap<Maskoid>,
        seen1: Seq<String>,
        bindings1: StrMap<Maskoid>,
        m: Maskoid,
    ) -> bool {
        seen1 == seen0 && bindings1 == bindings0
    }

    fn maskoid(seen: &mut Vec<String>, bindings: &mut StrMap<Maskoid>) -> (m: Maskoid)
        ensures
            m is Int,
    {
        let m = Maskoid::int_();
        assert(Self::describes(m));
        assert(Self::steps(old(seen)@, *old(bindings), seen@, *bindings, m));
        m
    }
}

impl Maskoidy for u16 {
    /// The maskoid of `u16`.
    open spec fn describes(m: Maskoid) -> bool {
        m is Int
    }

    /// Nothing is seen or bound.
    open spec fn steps(
        seen0: Seq<String>,
        bindings0: StrMap<Maskoid>,
        seen1: Seq<String>,
        bindings1: StrMap<Maskoid>,
        m: Maskoid,
    ) -> bool {
        seen1 == seen0 && bindings1 == bindings0
    }

    fn maskoid(seen: &mut Vec<String>, bindings: &mut StrMap<Maskoid>) -> (m: Maskoid)
        ensures
            m is Int,
    {
        let m = Maskoid::int_();
        assert(Self::describes(m));
        assert(Self::steps(old(seen)@, *old(bindings), seen@, *bindings, m));
        m
    }
}

impl Maskoidy for u32 {
    /// The maskoid of `u32`.
    open spec fn describes(m: Maskoid) -> bool {
        m is Int
    }

    /// Nothing is seen or bound.
    open spec fn steps(
        seen0: Seq<String>,
        bindings0: StrMap<Maskoid>,
        seen1: Seq<String>,
        bindings1: StrMap<Maskoid>,
        m: Maskoid,
    ) -> bool {
        seen1 == seen0 && bindings1 == bindings0
    }

    fn maskoid(seen: &mut Vec<String>, bindings: &mut StrMap<Maskoid>) -> (m: Maskoid)
        ensures
            m is Int,
    {
        let m = Maskoid::int_();
        assert(Self::describes(m));
        assert(Self::steps(old(seen)@, *old(bindings), seen@, *bindings, m));
        m
    }
}

impl Maskoidy for u64 {
    /// The maskoid of `u64`.
    open spec fn describes(m: Maskoid) -> bool {
        m is Int
    }

    /// Nothing is seen or bound.
    open spec fn steps(
        seen0: Seq<String>,
        bindings0: StrMap<Maskoid>,
        seen1: Seq<String>,
        bindings1: StrMap<Maskoid>,
        m: Maskoid,
    ) -> bool {
        seen1 == seen0 && bindings1 == bindings0
    }

    fn maskoid(seen: &mut Vec<String>, bindings: &mut StrMap<Maskoid>) -> (m: Maskoid)
        ensures
            m is Int,
    {
        let m = Maskoid::int_();
        assert(Self::describes(m));
        assert(Self::steps(old(seen)@, *old(bindings), seen@, *bindings, m));
        m
    }
}

impl<T: Maskoidy> Maskoidy for Option<T> {
    /// An option of what the inner type is.
    open spec fn describes(m: Maskoid) -> bool {
        m matches Maskoid::Option(b) && T::describes(*b)
    }

    /// Describing the inner type is all it does.
    open spec fn steps(
        seen0: Seq<String>,
        bindings0: StrMap<Maskoid>,
        seen1: Seq<String>,
        bindings1: StrMap<Maskoid>,
        m: Maskoid,
    ) -> bool {
        m matches Maskoid::Option(b) && T::steps(seen0, bindings0, seen1, bindings1, *b)
    }

    fn maskoid(seen: &mut Vec<String>, bindings: &mut StrMap<Maskoid>) -> (m: Maskoid)
        ensures
            m is Option,
    {
        let m = Maskoid::option(T::maskoid(seen, bindings));
        assert(Self::describes(m));
        assert(Self::steps(old(seen)@, *old(bindings), seen@, *bindings, m));
        m
    }
}

impl Maskoidy for serde_json::Value {
    /// The maskoid of `serde_json::Value`.
    open spec fn describes(m: Maskoid) -> bool {
        m is Any
    }

    /// Nothing is seen or bound.
    open spec fn steps(
        seen0: Seq<String>,
        bindings0: StrMap<Maskoid>,
        seen1: Seq<String>,
        bindings1: StrMap<Maskoid>,
        m: Maskoid,
    ) -> bool {
        seen1 == seen0 && bindings1 == bindings0
    }

    fn maskoid(seen: &mut Vec<String>, bindings: &mut StrMap<Maskoid>) -> (m: Maskoid)
        ensures
            m is Any,
            *final(seen) == *old(seen),
            *final(bindings) == *old(bindings),
    {
        let m = Maskoid::any();
        assert(Self::describes(m));
        assert(Self::steps(old(seen)@, *old(bindings), seen@, *bindings, m));
        m
    }
}

impl Maskoidy for JsonValue {
    /// The maskoid of `JsonValue`.
    open spec fn describes(m: Maskoid) -> bool {
        m is Any
    }

    /// Nothing is seen or bound.
    open spec fn steps(
        seen0: Seq<String>,
        bindings0: StrMap<Maskoid>,
        seen1: Seq<String>,
        bindings1: StrMap<Maskoid>,
        m: Maskoid,
    ) -> bool {
        seen1 == seen0 && bindings1 == bindings0
    }

    fn maskoid(seen: &mut Vec<String>, bindings: &mut StrMap<Maskoid>) -> (m: Maskoid)
        ensures
            m is Any,
            *final(seen) == *old(seen),
            *final(bindings) == *old(bindings),
    {
        let m = Maskoid::any();
        assert(Self::describes(m));
        assert(Self::steps(old(seen)@, *old(bindings), seen@, *bindings, m));
        m
    }
}

impl Maskoidy for String {
    /// The maskoid of `String`.
    open spec fn describes(m: Maskoid) -> bool {
        m is String
    }

    /// Nothing is seen or bound.
    open spec fn steps(
        seen0: Seq<String>,
        bindings0: StrMap<Maskoid>,
        seen1: Seq<String>,
        bindings1: StrMap<Maskoid>,
        m: Maskoid,
    ) -> bool {
        seen1 == seen0 && bindings1 == bindings0
    }

    fn maskoid(seen: &mut Vec<String>, bindings: &mut StrMap<Maskoid>) -> (m: Maskoid)
        ensures
            m is String,
    {
        let m = Maskoid::string();
        assert(Self::describes(m));
        assert(Self::steps(old(seen)@, *old(bindings), seen@, *bindings, m));
        m
    }
}

impl<T: Maskoidy> Maskoidy for Vec<T> {
    /// A list of what the elements are.
    open spec fn describes(m: Maskoid) -> bool {
        m matches Maskoid::List(b) && T::describes(*b)
    }

    /// Describing the elements is all it does.
    open spec fn steps(
        seen0: Seq<String>,
        bindings0: StrMap<Maskoid>,
        seen1: Seq<String>,
        bindings1: StrMap<Maskoid>,
        m: Maskoid,
    ) -> bool {
        m matches Maskoid::List(b) && T::steps(seen0, bindings0, seen1, bindings1, *b)
    }

    fn maskoid(seen: &mut Vec<String>, bindings: &mut StrMap<Maskoid>) -> (m: Maskoid)
        ensures
            m is List,
    {
        let m = Maskoid::list(T::maskoid(seen, bindings));
        assert(Self::describes(m));
        assert(Self::steps(old(seen)@, *old(bindings), seen@, *bindings, m));
        m
    }
}

// ---------------------------------------------------------------- the schema language itself

/// Every id seen before is still seen.
pub open spec fn seen_grows(a: Seq<String>, b: Seq<String>) -> bool {
    forall|id: Seq<char>| #[trigger] views(a).contains(id) ==> views(b).contains(id)
}

/// Every binding present before is still present.
pub open spec fn bindings_grow(a: StrMap<Maskoid>, b: StrMap<Maskoid>) -> bool {
    forall|k: Seq<char>| #[trigger] has_key(a.entries@, k) ==> has_key(b.entries@, k)
}

/// The ids of the types that describe the schema language.
pub open spec fn known_ids() -> Seq<Seq<char>> {
    seq![
        "schemask::Schemask"@,
        "schemask::v1::SchemaskV1"@,
        "schemask::v1::Maskoid"@,
        "schemask::v1::MaskoidField"@,
        "schemask::v1::MaskoidRecord"@,
        "schemask::v1::MaskoidTaggedUnion"@,
        "schemask::v1::MaskoidTuple"@,
    ]
}

/// How many of `ids` are not in `seen`.
pub open spec fn unseen_from(ids: Seq<Seq<char>>, seen: Seq<Seq<char>>) -> nat
    decreases ids.len(),
{
    if ids.len() == 0 {
        0
    } else {
        unseen_from(ids.drop_last(), seen) + if seen.contains(ids.last()) {
            0nat
        } else {
            1nat
        }
    }
}

/// How many of the schema language's types are still to be described.
pub open spec fn unseen(seen: Seq<Seq<char>>) -> nat {
    unseen_from(known_ids(), seen)
}

/// Registering a new known id leaves fewer to describe, and forgets none.
proof fn lemma_first_encounter(a: Seq<Seq<char>>, b: Seq<Seq<char>>, id: Seq<char>, k: int)
    requires
        0 <= k < known_ids().len(),
        known_ids()[k] == id,
        !a.contains(id),
        b == a.push(id),
    ensures
        unseen(b) < unseen(a),
        forall|x: Seq<char>| #[trigger] a.contains(x) ==> b.contains(x),
        b.contains(id),
{
    assert forall|x: Seq<char>| #[trigger] a.contains(x) implies b.contains(x) by {
        let j = choose|j: int| 0 <= j < a.len() && a[j] == x;
        assert(b[j] == x);
    }
    assert(b[a.len() as int] == id);
    lemma_unseen_drop(known_ids(), a, b, id);
}

proof fn lemma_unseen_mono(ids: Seq<Seq<char>>, a: Seq<Seq<char>>, b: Seq<Seq<char>>)
    requires
        forall|x: Seq<char>| #[trigger] a.contains(x) ==> b.contains(x),
    ensures
        unseen_from(ids, b) <= unseen_from(ids, a),
    decreases ids.len(),
{
    if ids.len() > 0 {
        lemma_unseen_mono(ids.drop_last(), a, b);
    }
}

proof fn lemma_unseen_drop(ids: Seq<Seq<char>>, a: Seq<Seq<char>>, b: Seq<Seq<char>>, id: Seq<char>)
    requires
        forall|x: Seq<char>| #[trigger] a.contains(x) ==> b.contains(x),
        ids.contains(id),
        !a.contains(id),
        b.contains(id),
    ensures
        unseen_from(ids, b) < unseen_from(ids, a),
    decreases ids.len(),
{
    if ids.last() == id {
        lemma_unseen_mono(ids.drop_last(), a, b);
    } else {
        let k = choose|k: int| 0 <= k < ids.len() && ids[k] == id;
        assert(ids.drop_last()[k] == id);
        lemma_unseen_drop(ids.drop_last(), a, b, id);
    }
}


fn put(map: &mut StrMap<MaskoidField>, key: &str, m: Maskoid, doc: Option<&str>)
    requires
        old(map).wf(),
    ensures
        final(map).wf(),
        has_key(final(map).entries@, key@),
{
    let f = match doc {
        Some(d) => MaskoidField::new(m).with_description(d),
        None => MaskoidField::new(m),
    };
    let _ = map.insert(owned(key), f);
}

fn store(bindings: &mut StrMap<Maskoid>, name: &str, m: Maskoid)
    requires
        old(bindings).wf(),
    ensures
        final(bindings).wf(),
        has_key(final(bindings).entries@, name@),
        forall|k: Seq<char>|
            #[trigger] has_key(old(bindings).entries@, k) ==> has_key(final(bindings).entries@, k),
{
    let _ = bindings.insert(owned(name), m);
}

/// The self-description of [`MaskoidField`].
fn field_maskoid(seen: &mut Vec<String>, bindings: &mut StrMap<Maskoid>) -> (m: Maskoid)
    requires
        old(bindings).wf(),
    ensures
        final(bindings).wf(),
        seen_grows(old(seen)@, final(seen)@),
        bindings_grow(*old(bindings), *final(bindings)),
        unseen(views(final(seen)@)) <= unseen(views(old(seen)@)),
        registered(
            old(seen)@,
            final(seen)@,
            *old(bindings),
            *final(bindings),
            "schemask::v1::MaskoidField"@,
            "MaskoidField"@,
            m,
        ),
    decreases unseen(views(old(seen)@)),
{
    let ghost old_seen = views(seen@);
    if !first_encounter(seen, "schemask::v1::MaskoidField") {
        return Maskoid::ref_("MaskoidField");
    }
    proof {
        lemma_first_encounter(old_seen, views(seen@), "schemask::v1::MaskoidField"@, 3);
    }
    let mut map: StrMap<MaskoidField> = StrMap::new();
    let d = Maskoid::option(Maskoid::string());
    put(&mut map, "description", d, None);
    let inner = maskoid_maskoid(seen, bindings);
    put(&mut map, "maskoid", inner, None);
    store(bindings, "MaskoidField", Maskoid::record(map));
    Maskoid::ref_("MaskoidField")
}

impl Maskoidy for MaskoidField {
    /// A reference to the binding `MaskoidField`.
    open spec fn describes(m: Maskoid) -> bool {
        m matches Maskoid::Ref(n) && n@ == "MaskoidField"@
    }

    /// Registers itself on the first encounter.
    open spec fn steps(
        seen0: Seq<String>,
        bindings0: StrMap<Maskoid>,
        seen1: Seq<String>,
        bindings1: StrMap<Maskoid>,
        m: Maskoid,
    ) -> bool {
        registered(seen0, seen1, bindings0, bindings1, "schemask::v1::MaskoidField"@, "MaskoidField"@, m)
    }

    fn schema_id() -> (r: &'static str)
        ensures
            r@ == "schemask::v1::MaskoidField"@,
    {
        "schemask::v1::MaskoidField"
    }

    fn schema_name() -> (r: &'static str)
        ensures
            r@ == "MaskoidField"@,
    {
        "MaskoidField"
    }

    fn maskoid(seen: &mut Vec<String>, bindings: &mut StrMap<Maskoid>) -> (m: Maskoid)
        ensures
            registered(
                old(seen)@,
                final(seen)@,
                *old(bindings),
                *final(bindings),
                "schemask::v1::MaskoidField"@,
                "MaskoidField"@,
                m,
            ),
    {
        let m = field_maskoid(seen, bindings);
        assert(Self::describes(m));
        assert(Self::steps(old(seen)@, *old(bindings), seen@, *bindings, m));
        m
    }
}

/// The self-description of [`MaskoidRecord`].
fn record_maskoid(seen: &mut Vec<String>, bindings: &mut StrMap<Maskoid>) -> (m: Maskoid)
    requires
        old(bindings).wf(),
    ensures
        final(bindings).wf(),
        seen_grows(old(seen)@, final(seen)@),
        bindings_grow(*old(bindings), *final(bindings)),
        unseen(views(final(seen)@)) <= unseen(views(old(seen)@)),
        registered(
            old(seen)@,
            final(seen)@,
            *old(bindings),
            *final(bindings),
            "schemask::v1::MaskoidRecord"@,
            "MaskoidRecord"@,
            m,
        ),
    decreases unseen(views(old(seen)@)),
{
    let ghost old_seen = views(seen@);
    if !first_encounter(seen, "schemask::v1::MaskoidRecord") {
        return Maskoid::ref_("MaskoidRecord");
    }
    proof {
        lemma_first_encounter(old_seen, views(seen@), "schemask::v1::MaskoidRecord"@, 4);
    }
    let mut map: StrMap<MaskoidField> = StrMap::new();
    let d = Maskoid::option(Maskoid::string());
    put(&mut map, "description", d, None);
    let f = Maskoid::string_map(field_maskoid(seen, bindings));
    put(&mut map, "fields", f, None);
    store(bindings, "MaskoidRecord", Maskoid::record(map));
    Maskoid::ref_("MaskoidRecord")
}

impl Maskoidy for MaskoidRecord {
    /// A reference to the binding `MaskoidRecord`.
    open spec fn describes(m: Maskoid) -> bool {
        m matches Maskoid::Ref(n) && n@ == "MaskoidRecord"@
    }

    /// Registers itself on the first encounter.
    open spec fn steps(
        seen0: Seq<String>,
        bindings0: StrMap<Maskoid>,
        seen1: Seq<String>,
        bindings1: StrMap<Maskoid>,
        m: Maskoid,
    ) -> bool {
        registered(seen0, seen1, bindings0, bindings1, "schemask::v1::MaskoidRecord"@, "MaskoidRecord"@, m)
    }

    fn schema_id() -> (r: &'static str)
        ensures
            r@ == "schemask::v1::MaskoidRecord"@,
    {
        "schemask::v1::MaskoidRecord"
    }

    fn schema_name() -> (r: &'static str)
        ensures
            r@ == "MaskoidRecord"@,
    {
        "MaskoidRecord"
    }

    fn maskoid(seen: &mut Vec<String>, bindings: &mut StrMap<Maskoid>) -> (m: Maskoid)
        ensures
            registered(
                old(seen)@,
                final(seen)@,
                *old(bindings),
                *final(bindings),
                "schemask::v1::MaskoidRecord"@,
                "MaskoidRecord"@,
                m,
            ),
    {
        let m = record_maskoid(seen, bindings);
        assert(Self::describes(m));
        assert(Self::steps(old(seen)@, *old(bindings), seen@, *bindings, m));
        m
    }
}

/// The self-description of [`MaskoidTaggedUnion`].
fn union_maskoid(seen: &mut Vec<String>, bindings: &mut StrMap<Maskoid>) -> (m: Maskoid)
    requires
        old(bindings).wf(),
    ensures
        final(bindings).wf(),
        seen_grows(old(seen)@, final(seen)@),
        bindings_grow(*old(bindings), *final(bindings)),
        unseen(views(final(seen)@)) <= unseen(views(old(seen)@)),
        registered(
            old(seen)@,
            final(seen)@,
            *old(bindings),
            *final(bindings),
            "schemask::v1::MaskoidTaggedUnion"@,
            "MaskoidTaggedUnion"@,
            m,
        ),
    decreases unseen(views(old(seen)@)),
{
    let ghost old_seen = views(seen@);
    if !first_encounter(seen, "schemask::v1::MaskoidTaggedUnion") {
        return Maskoid::ref_("MaskoidTaggedUnion");
    }
    proof {
        lemma_first_encounter(old_seen, views(seen@), "schemask::v1::MaskoidTaggedUnion"@, 5);
    }
    let mut map: StrMap<MaskoidField> = StrMap::new();
    let d = Maskoid::option(Maskoid::string());
    put(&mut map, "description", d, None);
    let v = Maskoid::string_map(field_maskoid(seen, bindings));
    put(&mut map, "variants", v, None);
    store(bindings, "MaskoidTaggedUnion", Maskoid::record(map));
    Maskoid::ref_("MaskoidTaggedUnion")
}

impl Maskoidy for MaskoidTaggedUnion {
    /// A reference to the binding `MaskoidTaggedUnion`.
    open spec fn describes(m: Maskoid) -> bool {
        m matches Maskoid::Ref(n) && n@ == "MaskoidTaggedUnion"@
    }

    /// Registers itself on the first encounter.
    open spec fn steps(
        seen0: Seq<String>,
        bindings0: StrMap<Maskoid>,
        seen1: Seq<String>,
        bindings1: StrMap<Maskoid>,
        m: Maskoid,
    ) -> bool {
        registered(seen0, seen1, bindings0, bindings1, "schemask::v1::MaskoidTaggedUnion"@, "MaskoidTaggedUnion"@, m)
    }

    fn schema_id() -> (r: &'static str)
        ensures
            r@ == "schemask::v1::MaskoidTaggedUnion"@,
    {
        "schemask::v1::MaskoidTaggedUnion"
    }

    fn schema_name() -> (r: &'static str)
        ensures
            r@ == "MaskoidTaggedUnion"@,
    {
        "MaskoidTaggedUnion"
    }

    fn maskoid(seen: &mut Vec<String>, bindings: &mut StrMap<Maskoid>) -> (m: Maskoid)
        ensures
            registered(
                old(seen)@,
                final(seen)@,
                *old(bindings),
                *final(bindings),
                "schemask::v1::MaskoidTaggedUnion"@,
                "MaskoidTaggedUnion"@,
                m,
            ),
    {
        let m = union_maskoid(seen, bindings);
        assert(Self::describes(m));
        assert(Self::steps(old(seen)@, *old(bindings), seen@, *bindings, m));
        m
    }
}

/// The self-description of [`MaskoidTuple`].
fn tuple_maskoid(seen: &mut Vec<String>, bindings: &mut StrMap<Maskoid>) -> (m: Maskoid)
    requires
        old(bindings).wf(),
    ensures
        final(bindings).wf(),
        seen_grows(old(seen)@, final(seen)@),
        bindings_grow(*old(bindings), *final(bindings)),
        unseen(views(final(seen)@)) <= unseen(views(old(seen)@)),
        registered(
            old(seen)@,
            final(seen)@,
            *old(bindings),
            *final(bindings),
            "schemask::v1::MaskoidTuple"@,
            "MaskoidTuple"@,
            m,
        ),
    decreases unseen(views(old(seen)@)),
{
    let ghost old_seen = views(seen@);
    if !first_encounter(seen, "schemask::v1::MaskoidTuple") {
        return Maskoid::ref_("MaskoidTuple");
    }
    proof {
        lemma_first_encounter(old_seen, views(seen@), "schemask::v1::MaskoidTuple"@, 6);
    }
    let mut map: StrMap<MaskoidField> = StrMap::new();
    let d = Maskoid::option(Maskoid::string());
    put(&mut map, "description", d, None);
    let e = Maskoid::list(field_maskoid(seen, bindings));
    put(&mut map, "elements", e, None);
    store(bindings, "MaskoidTuple", Maskoid::record(map));
    Maskoid::ref_("MaskoidTuple")
}

impl Maskoidy for MaskoidTuple {
    /// A reference to the binding `MaskoidTuple`.
    open spec fn describes(m: Maskoid) -> bool {
        m matches Maskoid::Ref(n) && n@ == "MaskoidTuple"@
    }

    /// Registers itself on the first encounter.
    open spec fn steps(
        seen0: Seq<String>,
        bindings0: StrMap<Maskoid>,
        seen1: Seq<String>,
        bindings1: StrMap<Maskoid>,
        m: Maskoid,
    ) -> bool {
        registered(seen0, seen1, bindings0, bindings1, "schemask::v1::MaskoidTuple"@, "MaskoidTuple"@, m)
    }

    fn schema_id() -> (r: &'static str)
        ensures
            r@ == "schemask::v1::MaskoidTuple"@,
    {
        "schemask::v1::MaskoidTuple"
    }

    fn schema_name() -> (r: &'static str)
        ensures
            r@ == "MaskoidTuple"@,
    {
        "MaskoidTuple"
    }

    fn maskoid(seen: &mut Vec<String>, bindings: &mut StrMap<Maskoid>) -> (m: Maskoid)
        ensures
            registered(
                old(seen)@,
                final(seen)@,
                *old(bindings),
                *final(bindings),
                "schemask::v1::MaskoidTuple"@,
                "MaskoidTuple"@,
                m,
            ),
    {
        let m = tuple_maskoid(seen, bindings);
        assert(Self::describes(m));
        assert(Self::steps(old(seen)@, *old(bindings), seen@, *bindings, m));
        m
    }
}

/// The self-description of [`Maskoid`].
fn maskoid_maskoid(seen: &mut Vec<String>, bindings: &mut StrMap<Maskoid>) -> (m: Maskoid)
    requires
        old(bindings).wf(),
    ensures
        final(bindings).wf(),
        seen_grows(old(seen)@, final(seen)@),
        bindings_grow(*old(bindings), *final(bindings)),
        unseen(views(final(seen)@)) <= unseen(views(old(seen)@)),
        registered(
            old(seen)@,
            final(seen)@,
            *old(bindings),
            *final(bindings),
            "schemask::v1::Maskoid"@,
            "Maskoid"@,
            m,
        ),
    decreases unseen(views(old(seen)@)),
{
    let ghost old_seen = views(seen@);
    if !first_encounter(seen, "schemask::v1::Maskoid") {
        return Maskoid::ref_("Maskoid");
    }
    proof {
        lemma_first_encounter(old_seen, views(seen@), "schemask::v1::Maskoid"@, 2);
    }
    let mut map: StrMap<MaskoidField> = StrMap::new();
    put(&mut map, "any", Maskoid::null(), Some("Match any value without validation."));
    put(&mut map, "bool", Maskoid::null(), Some("Match any bool."));
    let v = Maskoid::string();
    put(&mut map, "const_string", v, Some("Must be exactly this string."));
    put(&mut map, "float", Maskoid::null(), Some("Match any float."));
    put(&mut map, "int", Maskoid::null(), Some("Match any integer."));
    let v = maskoid_maskoid(seen, bindings);
    put(
        &mut map,
        "list",
        v,
        Some("Homogenous list where every element matches this maskoid. Preserves order."),
    );
    put(&mut map, "null", Maskoid::null(), Some("Match null."));
    let v = maskoid_maskoid(seen, bindings);
    put(
        &mut map,
        "option",
        v,
        Some(
            "The value may match the maskoid or it may be null. In a record, the associated\nkey may also be missing. If options are nested, the inner option is treated\nlike a single element record with the key \"element\".",
        ),
    );
    let v = record_maskoid(seen, bindings);
    put(
        &mut map,
        "record",
        v,
        Some(
            "Each value is matched against the maskoid with the corresponding key. There's\nno match if there are extra elements or missing elements.",
        ),
    );
    let v = Maskoid::string();
    put(
        &mut map,
        "ref",
        v,
        Some("Match the maskoid in the root `bindings` map with this name."),
    );
    let v = maskoid_maskoid(seen, bindings);
    put(
        &mut map,
        "set",
        v,
        Some("Homogenous set where every element matches this maskoid. Unordered, no\nduplicates."),
    );
    put(&mut map, "string", Maskoid::null(), Some("Match any string."));
    let v = maskoid_maskoid(seen, bindings);
    put(
        &mut map,
        "string_map",
        v,
        Some("Homogenous map where keys are strings and every value matches this maskoid."),
    );
    let v = union_maskoid(seen, bindings);
    put(
        &mut map,
        "tagged_union",
        v,
        Some(
            "Matches exactly one maskoid, based on a tag (the key). In json, this is encoded\nas a single key object `{KEY: ELEMENT}`.",
        ),
    );
    let v = tuple_maskoid(seen, bindings);
    put(
        &mut map,
        "tuple",
        v,
        Some(
            "Heterogenous list where the entries are matched pairwise with a same-length\nlist of maskoids.",
        ),
    );
    store(bindings, "Maskoid", Maskoid::tagged_union(map));
    Maskoid::ref_("Maskoid")
}

impl Maskoidy for Maskoid {
    /// A reference to the binding `Maskoid`.
    open spec fn describes(m: Maskoid) -> bool {
        m matches Maskoid::Ref(n) && n@ == "Maskoid"@
    }

    /// Registers itself on the first encounter.
    open spec fn steps(
        seen0: Seq<String>,
        bindings0: StrMap<Maskoid>,
        seen1: Seq<String>,
        bindings1: StrMap<Maskoid>,
        m: Maskoid,
    ) -> bool {
        registered(seen0, seen1, bindings0, bindings1, "schemask::v1::Maskoid"@, "Maskoid"@, m)
    }

    fn schema_id() -> (r: &'static str)
        ensures
            r@ == "schemask::v1::Maskoid"@,
    {
        "schemask::v1::Maskoid"
    }

    fn schema_name() -> (r: &'static str)
        ensures
            r@ == "Maskoid"@,
    {
        "Maskoid"
    }

    fn maskoid(seen: &mut Vec<String>, bindings: &mut StrMap<Maskoid>) -> (m: Maskoid)
        ensures
            registered(
                old(seen)@,
                final(seen)@,
                *old(bindings),
                *final(bindings),
                "schemask::v1::Maskoid"@,
                "Maskoid"@,
                m,
            ),
    {
        let m = maskoid_maskoid(seen, bindings);
        assert(Self::describes(m));
        assert(Self::steps(old(seen)@, *old(bindings), seen@, *bindings, m));
        m
    }
}

/// The self-description of [`SchemaskV1`].
fn v1_maskoid(seen: &mut Vec<String>, bindings: &mut StrMap<Maskoid>) -> (m: Maskoid)
    requires
        old(bindings).wf(),
    ensures
        final(bindings).wf(),
        seen_grows(old(seen)@, final(seen)@),
        bindings_grow(*old(bindings), *final(bindings)),
        unseen(views(final(seen)@)) <= unseen(views(old(seen)@)),
        registered(
            old(seen)@,
            final(seen)@,
            *old(bindings),
            *final(bindings),
            "schemask::v1::SchemaskV1"@,
            "SchemaskV1"@,
            m,
        ),
    decreases unseen(views(old(seen)@)),
{
    let ghost old_seen = views(seen@);
    if !first_encounter(seen, "schemask::v1::SchemaskV1") {
        return Maskoid::ref_("SchemaskV1");
    }
    proof {
        lemma_first_encounter(old_seen, views(seen@), "schemask::v1::SchemaskV1"@, 1);
    }
    let mut map: StrMap<MaskoidField> = StrMap::new();
    let b = Maskoid::string_map(maskoid_maskoid(seen, bindings));
    put(
        &mut map,
        "bindings",
        b,
        Some(
            "Bindings are names associated with parts of the schema. The names are used to\nidentify where to start validation, as well as allow types to refer to other\ntypes (or themselves, recursively) forming a graph.",
        ),
    );
    let d = Maskoid::option(Maskoid::string());
    put(
        &mut map,
        "default",
        d,
        Some("Which bound element to validate against if none are explicitly specified"),
    );
    store(
        bindings,
        "SchemaskV1",
        Maskoid::record(map).with_description(
            "This is the main type used for validation. It describes the structure of one or\nmore related data types.",
        ),
    );
    Maskoid::ref_("SchemaskV1")
}

impl Maskoidy for SchemaskV1 {
    /// A reference to the binding `SchemaskV1`.
    open spec fn describes(m: Maskoid) -> bool {
        m matches Maskoid::Ref(n) && n@ == "SchemaskV1"@
    }

    /// Registers itself on the first encounter.
    open spec fn steps(
        seen0: Seq<String>,
        bindings0: StrMap<Maskoid>,
        seen1: Seq<String>,
        bindings1: StrMap<Maskoid>,
        m: Maskoid,
    ) -> bool {
        registered(seen0, seen1, bindings0, bindings1, "schemask::v1::SchemaskV1"@, "SchemaskV1"@, m)
    }

    fn schema_id() -> (r: &'static str)
        ensures
            r@ == "schemask::v1::SchemaskV1"@,
    {
        "schemask::v1::SchemaskV1"
    }

    fn schema_name() -> (r: &'static str)
        ensures
            r@ == "SchemaskV1"@,
    {
        "SchemaskV1"
    }

    fn maskoid(seen: &mut Vec<String>, bindings: &mut StrMap<Maskoid>) -> (m: Maskoid)
        ensures
            registered(
                old(seen)@,
                final(seen)@,
                *old(bindings),
                *final(bindings),
                "schemask::v1::SchemaskV1"@,
                "SchemaskV1"@,
                m,
            ),
    {
        let m = v1_maskoid(seen, bindings);
        assert(Self::describes(m));
        assert(Self::steps(old(seen)@, *old(bindings), seen@, *bindings, m));
        m
    }
}

/// The self-description of [`Schemask`].
fn schemask_maskoid(seen: &mut Vec<String>, bindings: &mut StrMap<Maskoid>) -> (m: Maskoid)
    requires
        old(bindings).wf(),
    ensures
        final(bindings).wf(),
        seen_grows(old(seen)@, final(seen)@),
        bindings_grow(*old(bindings), *final(bindings)),
        unseen(views(final(seen)@)) <= unseen(views(old(seen)@)),
        registered(
            old(seen)@,
            final(seen)@,
            *old(bindings),
            *final(bindings),
            "schemask::Schemask"@,
            "Schemask"@,
            m,
        ),
    decreases unseen(views(old(seen)@)),
{
    let ghost old_seen = views(seen@);
    if !first_encounter(seen, "schemask::Schemask") {
        return Maskoid::ref_("Schemask");
    }
    proof {
        lemma_first_encounter(old_seen, views(seen@), "schemask::Schemask"@, 0);
    }
    let mut map: StrMap<MaskoidField> = StrMap::new();
    let v = v1_maskoid(seen, bindings);
    put(&mut map, "v1", v, None);
    store(
        bindings,
        "Schemask",
        Maskoid::tagged_union(map).with_description(
            "Versioned schemask enum. Currently only has a V1 variant.",
        ),
    );
    Maskoid::ref_("Schemask")
}

impl Maskoidy for Schemask {
    /// A reference to the binding `Schemask`.
    open spec fn describes(m: Maskoid) -> bool {
        m matches Maskoid::Ref(n) && n@ == "Schemask"@
    }

    /// Registers itself on the first encounter.
    open spec fn steps(
        seen0: Seq<String>,
        bindings0: StrMap<Maskoid>,
        seen1: Seq<String>,
        bindings1: StrMap<Maskoid>,
        m: Maskoid,
    ) -> bool {
        registered(seen0, seen1, bindings0, bindings1, "schemask::Schemask"@, "Schemask"@, m)
    }

    fn schema_id() -> (r: &'static str)
        ensures
            r@ == "schemask::Schemask"@,
    {
        "schemask::Schemask"
    }

    fn schema_name() -> (r: &'static str)
        ensures
            r@ == "Schemask"@,
    {
        "Schemask"
    }

    fn maskoid(seen: &mut Vec<String>, bindings: &mut StrMap<Maskoid>) -> (m: Maskoid)
        ensures
            registered(
                old(seen)@,
                final(seen)@,
                *old(bindings),
                *final(bindings),
                "schemask::Schemask"@,
                "Schemask"@,
                m,
            ),
    {
        let m = schemask_maskoid(seen, bindings);
        assert(Self::describes(m));
        assert(Self::steps(old(seen)@, *old(bindings), seen@, *bindings, m));
        m
    }
}

} // verus!
