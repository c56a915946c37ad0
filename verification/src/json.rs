//! JSON values as the validator reads them.
use crate::strmap::StrMap;
use crate::text::str_eq;
use vstd::prelude::*;

verus! {

/// A JSON number, kept as `serde_json` keeps it: a non-negative integer, a
/// negative integer, or a float given by its IEEE-754 bit pattern.
#[derive(Clone, Copy, Debug, PartialEq, Eq, Structural)]
pub enum JsonNumber {
    PosInt(u64),
    NegInt(i64),
    Float(u64),
}

/// A JSON value. Objects map keys to values in key order.
#[derive(Debug)]
pub enum JsonValue {
    Null,
    Bool(bool),
    Number(JsonNumber),
    String(String),
    Array(Vec<JsonValue>),
    Object(StrMap<JsonValue>),
}

impl JsonNumber {
    /// An integer (`is_i64() || is_u64()` in `serde_json`), as opposed to a float.
    pub open spec fn is_integer(self) -> bool {
        !(self is Float)
    }
}

/// The word that messages use for the kind of a value.
pub open spec fn kind_name(v: JsonValue) -> Seq<char> {
    match v {
        JsonValue::Null => "null"@,
        JsonValue::Bool(_) => "bool"@,
        JsonValue::Number(n) => if n.is_integer() {
            "int"@
        } else {
            "float"@
        },
        JsonValue::String(_) => "string"@,
        JsonValue::Array(_) => "array"@,
        JsonValue::Object(_) => "object"@,
    }
}

/// The word that messages use for the kind of a value.
pub fn json_kind_name(v: &JsonValue) -> (r: &'static str)
    ensures
        r@ == kind_name(*v),
{
    match v {
        JsonValue::Null => "null",
        JsonValue::Bool(_) => "bool",
        JsonValue::Number(n) => match n {
            JsonNumber::Float(_) => "float",
            _ => "int",
        },
        JsonValue::String(_) => "string",
        JsonValue::Array(_) => "array",
        JsonValue::Object(_) => "object",
    }
}

/// Whether the bits are those of `0.0` or `-0.0`.
pub open spec fn zero_bits(a: u64) -> bool {
    a == 0 || a == 0x8000_0000_0000_0000u64
}

/// Equality of numbers as `serde_json` compares them: integers of the same kind
/// by value, floats (always finite) as `f64` values, so that `0.0 == -0.0`;
/// an integer never equals a float.
pub open spec fn number_eq(x: JsonNumber, y: JsonNumber) -> bool {
    match (x, y) {
        (JsonNumber::Float(a), JsonNumber::Float(b)) => a == b || (zero_bits(a) && zero_bits(b)),
        _ => x == y,
    }
}

/// Decides [`number_eq`].
pub fn numbers_equal(x: &JsonNumber, y: &JsonNumber) -> (r: bool)
    ensures
        r == number_eq(*x, *y),
{
    match (x, y) {
        (JsonNumber::Float(a), JsonNumber::Float(b)) => *a == *b || ((*a == 0 || *a == 0x8000_0000_0000_0000u64)
            && (*b == 0 || *b == 0x8000_0000_0000_0000u64)),
        _ => *x == *y,
    }
}

/// Equality of JSON values as `serde_json::Value`'s `==`: same kind, equal
/// scalars, equal strings, arrays equal element by element, objects equal entry
/// by entry in key order.
pub open spec fn json_eq(a: JsonValue, b: JsonValue) -> bool
    decreases a,
{
    match a {
        JsonValue::Null => b is Null,
        JsonValue::Bool(x) => b matches JsonValue::Bool(y) && x == y,
        JsonValue::Number(x) => b matches JsonValue::Number(y) && number_eq(x, y),
        JsonValue::String(x) => b matches JsonValue::String(y) && x@ == y@,
        JsonValue::Array(x) => b matches JsonValue::Array(y) && items_eq(x@, y@),
        JsonValue::Object(x) => b matches JsonValue::Object(y) && entries_eq(x.entries@, y.entries@),
    }
}

/// Two sequences of values, equal element by element.
pub open spec fn items_eq(xs: Seq<JsonValue>, ys: Seq<JsonValue>) -> bool
    decreases xs,
{
    xs.len() == ys.len() && (xs.len() == 0 || (items_eq(xs.drop_last(), ys.drop_last())
        && json_eq(xs.last(), ys.last())))
}

/// Two sequences of entries, equal entry by entry.
pub open spec fn entries_eq(xs: Seq<(String, JsonValue)>, ys: Seq<(String, JsonValue)>) -> bool
    decreases xs,
{
    xs.len() == ys.len() && (xs.len() == 0 || (entries_eq(xs.drop_last(), ys.drop_last())
        && xs.last().0@ == ys.last().0@ && json_eq(xs.last().1, ys.last().1)))
}

/// Decides [`json_eq`].
pub fn json_equal(a: &JsonValue, b: &JsonValue) -> (r: bool)
    ensures
        r == json_eq(*a, *b),
    decreases a,
{
    match (a, b) {
        (JsonValue::Null, JsonValue::Null) => true,
        (JsonValue::Bool(x), JsonValue::Bool(y)) => *x == *y,
        (JsonValue::Number(x), JsonValue::Number(y)) => numbers_equal(x, y),
        (JsonValue::String(x), JsonValue::String(y)) => str_eq(x.as_str(), y.as_str()),
        (JsonValue::Array(x), JsonValue::Array(y)) => {
            assert(json_eq(*a, *b) == items_eq(x@, y@));
            if x.len() != y.len() {
                return false;
            }
            let mut i: usize = 0;
            while i < x.len()
                invariant
                    x.len() == y.len(),
                    i <= x.len(),
                    items_eq(x@.take(i as int), y@.take(i as int)),
                    json_eq(*a, *b) == items_eq(x@, y@),
                    forall|j: int| 0 <= j < x@.len() ==> decreases_to!(*a => #[trigger] x@[j]),
                decreases x.len() - i,
            {
                assert(x@.take(i as int + 1).drop_last() == x@.take(i as int));
                assert(y@.take(i as int + 1).drop_last() == y@.take(i as int));
                assert(decreases_to!(*a => x@[i as int]));
                if !json_equal(&x[i], &y[i]) {
                    proof {
                        assert(x@.take(i as int + 1).last() == x@[i as int]);
                        assert(y@.take(i as int + 1).last() == y@[i as int]);
                        assert(!items_eq(x@.take(i as int + 1), y@.take(i as int + 1)));
                        lemma_items_eq_prefix(x@, y@, i as int + 1);
                        assert(!items_eq(x@, y@));
                    }
                    return false;
                }
                i = i + 1;
            }
            assert(x@.take(i as int) == x@);
            assert(y@.take(i as int) == y@);
            true
        },
        (JsonValue::Object(x), JsonValue::Object(y)) => {
            assert(json_eq(*a, *b) == entries_eq(x.entries@, y.entries@));
            let xe = &x.entries;
            let ye = &y.entries;
            if xe.len() != ye.len() {
                return false;
            }
            let mut i: usize = 0;
            while i < xe.len()
                invariant
                    xe.len() == ye.len(),
                    i <= xe.len(),
                    entries_eq(xe@.take(i as int), ye@.take(i as int)),
                    json_eq(*a, *b) == entries_eq(xe@, ye@),
                    forall|j: int| 0 <= j < xe@.len() ==> decreases_to!(*a => #[trigger] xe@[j].1),
                decreases xe.len() - i,
            {
                assert(xe@.take(i as int + 1).drop_last() == xe@.take(i as int));
                assert(ye@.take(i as int + 1).drop_last() == ye@.take(i as int));
                assert(decreases_to!(*a => xe@[i as int].1));
                if !str_eq(xe[i].0.as_str(), ye[i].0.as_str()) || !json_equal(&xe[i].1, &ye[i].1) {
                    proof {
                        assert(xe@.take(i as int + 1).last() == xe@[i as int]);
                        assert(ye@.take(i as int + 1).last() == ye@[i as int]);
                        lemma_entries_eq_prefix(xe@, ye@, i as int + 1);
                    }
                    return false;
                }
                i = i + 1;
            }
            assert(xe@.take(i as int) == xe@);
            assert(ye@.take(i as int) == ye@);
            true
        },
        _ => false,
    }
}

proof fn lemma_items_eq_prefix(xs: Seq<JsonValue>, ys: Seq<JsonValue>, n: int)
    requires
        0 <= n <= xs.len(),
        xs.len() == ys.len(),
        !items_eq(xs.take(n), ys.take(n)),
    ensures
        !items_eq(xs, ys),
    decreases xs.len() - n,
{
    if n < xs.len() {
        assert(xs.take(n + 1).drop_last() == xs.take(n));
        assert(ys.take(n + 1).drop_last() == ys.take(n));
        lemma_items_eq_prefix(xs, ys, n + 1);
    } else {
        assert(xs.take(n) == xs);
        assert(ys.take(n) == ys);
    }
}

proof fn lemma_entries_eq_prefix(xs: Seq<(String, JsonValue)>, ys: Seq<(String, JsonValue)>, n: int)
    requires
        0 <= n <= xs.len(),
        xs.len() == ys.len(),
        !entries_eq(xs.take(n), ys.take(n)),
    ensures
        !entries_eq(xs, ys),
    decreases xs.len() - n,
{
    if n < xs.len() {
        assert(xs.take(n + 1).drop_last() == xs.take(n));
        assert(ys.take(n + 1).drop_last() == ys.take(n));
        lemma_entries_eq_prefix(xs, ys, n + 1);
    } else {
        assert(xs.take(n) == xs);
        assert(ys.take(n) == ys);
    }
}

/// `items_eq` compares position by position.
pub proof fn lemma_items_eq_pointwise(xs: Seq<JsonValue>, ys: Seq<JsonValue>)
    ensures
        items_eq(xs, ys) <==> (xs.len() == ys.len() && forall|j: int|
            0 <= j < xs.len() ==> #[trigger] json_eq(xs[j], ys[j])),
    decreases xs.len(),
{
    if xs.len() > 0 && xs.len() == ys.len() {
        lemma_items_eq_pointwise(xs.drop_last(), ys.drop_last());
        assert forall|j: int| 0 <= j < xs.len() - 1 implies xs.drop_last()[j] == xs[j] && ys.drop_last()[j]
            == ys[j] by {}
        if forall|j: int| 0 <= j < xs.len() ==> #[trigger] json_eq(xs[j], ys[j]) {
            assert(json_eq(xs[xs.len() - 1], ys[ys.len() - 1]));
            assert forall|j: int| 0 <= j < xs.drop_last().len() implies #[trigger] json_eq(
                xs.drop_last()[j],
                ys.drop_last()[j],
            ) by {
                assert(json_eq(xs[j], ys[j]));
            }
        }
    }
}

/// `entries_eq` compares position by position.
pub proof fn lemma_entries_eq_pointwise(xs: Seq<(String, JsonValue)>, ys: Seq<(String, JsonValue)>)
    ensures
        entries_eq(xs, ys) <==> (xs.len() == ys.len() && forall|j: int|
            0 <= j < xs.len() ==> #[trigger] entry_eq(xs[j], ys[j])),
    decreases xs.len(),
{
    if xs.len() > 0 && xs.len() == ys.len() {
        let (xd, yd) = (xs.drop_last(), ys.drop_last());
        lemma_entries_eq_pointwise(xd, yd);
        let n = xs.len() - 1;
        if entries_eq(xs, ys) {
            assert forall|j: int| 0 <= j < xs.len() implies #[trigger] entry_eq(xs[j], ys[j]) by {
                if j < n {
                    assert(entry_eq(xd[j], yd[j]));
                    assert(xd[j] == xs[j] && yd[j] == ys[j]);
                }
            }
        }
        if forall|j: int| 0 <= j < xs.len() ==> #[trigger] entry_eq(xs[j], ys[j]) {
            assert(entry_eq(xs[n], ys[n]));
            assert forall|j: int| 0 <= j < xd.len() implies #[trigger] entry_eq(xd[j], yd[j]) by {
                assert(entry_eq(xs[j], ys[j]));
                assert(xd[j] == xs[j] && yd[j] == ys[j]);
            }
        }
    }
}

/// Two entries with equal keys and equal values.
pub open spec fn entry_eq(x: (String, JsonValue), y: (String, JsonValue)) -> bool {
    x.0@ == y.0@ && json_eq(x.1, y.1)
}

/// JSON equality is symmetric.
pub proof fn lemma_json_eq_symmetric(a: JsonValue, b: JsonValue)
    requires
        json_eq(a, b),
    ensures
        json_eq(b, a),
    decreases a,
{
    match a {
        JsonValue::Array(x) => {
            if let JsonValue::Array(y) = b {
                lemma_items_eq_pointwise(x@, y@);
                lemma_items_eq_pointwise(y@, x@);
                assert(x@.len() == y@.len());
                assert forall|j: int| 0 <= j < y@.len() implies #[trigger] json_eq(y@[j], x@[j]) by {
                    assert(json_eq(x@[j], y@[j]));
                    assert(decreases_to!(a => x@[j]));
                    lemma_json_eq_symmetric(x@[j], y@[j]);
                }
                assert(items_eq(y@, x@));
            }
        },
        JsonValue::Object(x) => {
            if let JsonValue::Object(y) = b {
                lemma_entries_eq_pointwise(x.entries@, y.entries@);
                lemma_entries_eq_pointwise(y.entries@, x.entries@);
                assert(x.entries@.len() == y.entries@.len());
                assert forall|j: int| 0 <= j < y.entries@.len() implies #[trigger] entry_eq(
                    y.entries@[j],
                    x.entries@[j],
                ) by {
                    assert(entry_eq(x.entries@[j], y.entries@[j]));
                    assert(decreases_to!(a => x.entries@[j].1));
                    lemma_json_eq_symmetric(x.entries@[j].1, y.entries@[j].1);
                }
                assert(entries_eq(y.entries@, x.entries@));
            }
        },
        _ => {},
    }
}

/// Every object inside `v` keeps its keys strictly increasing, as the
/// objects that `serde_json` parses do.
pub open spec fn json_wf(v: JsonValue) -> bool
    decreases v,
{
    match v {
        JsonValue::Array(a) => items_wf(a@),
        JsonValue::Object(o) => o.wf() && entries_wf(o.entries@),
        _ => true,
    }
}

/// Every value of the sequence is well-formed.
pub open spec fn items_wf(xs: Seq<JsonValue>) -> bool
    decreases xs,
{
    xs.len() == 0 || (items_wf(xs.drop_last()) && json_wf(xs.last()))
}

/// Every value of the entries is well-formed.
pub open spec fn entries_wf(xs: Seq<(String, JsonValue)>) -> bool
    decreases xs,
{
    xs.len() == 0 || (entries_wf(xs.drop_last()) && json_wf(xs.last().1))
}

/// Decides [`json_wf`].
pub fn json_is_wf(v: &JsonValue) -> (r: bool)
    ensures
        r == json_wf(*v),
    decreases v,
{
    match v {
        JsonValue::Array(a) => {
            let mut i: usize = 0;
            while i < a.len()
                invariant
                    *v == JsonValue::Array(*a),
                    i <= a@.len(),
                    items_wf(a@.take(i as int)),
                    forall|j: int| 0 <= j < a@.len() ==> decreases_to!(*v => #[trigger] a@[j]),
                decreases a@.len() - i,
            {
                let ghost t = a@.take(i as int + 1);
                assert(t.drop_last() == a@.take(i as int));
                assert(t.last() == a@[i as int]);
                if !json_is_wf(&a[i]) {
                    proof {
                        lemma_items_wf_prefix(a@, i as int + 1);
                    }
                    return false;
                }
                i = i + 1;
            }
            assert(a@.take(i as int) == a@);
            true
        },
        JsonValue::Object(o) => {
            if !o.is_wf() {
                return false;
            }
            let e = &o.entries;
            let mut i: usize = 0;
            while i < e.len()
                invariant
                    *v == JsonValue::Object(*o),
                    e@ == o.entries@,
                    o.wf(),
                    i <= e@.len(),
                    entries_wf(e@.take(i as int)),
                    forall|j: int| 0 <= j < e@.len() ==> decreases_to!(*v => #[trigger] e@[j].1),
                decreases e@.len() - i,
            {
                let ghost t = e@.take(i as int + 1);
                assert(t.drop_last() == e@.take(i as int));
                assert(t.last() == e@[i as int]);
                if !json_is_wf(&e[i].1) {
                    proof {
                        lemma_entries_wf_prefix(e@, i as int + 1);
                    }
                    return false;
                }
                i = i + 1;
            }
            assert(e@.take(i as int) == e@);
            true
        },
        _ => true,
    }
}

proof fn lemma_items_wf_prefix(xs: Seq<JsonValue>, n: int)
    requires
        0 <= n <= xs.len(),
        !items_wf(xs.take(n)),
    ensures
        !items_wf(xs),
    decreases xs.len() - n,
{
    if n < xs.len() {
        assert(xs.take(n + 1).drop_last() == xs.take(n));
        lemma_items_wf_prefix(xs, n + 1);
    } else {
        assert(xs.take(n) == xs);
    }
}

proof fn lemma_entries_wf_prefix(xs: Seq<(String, JsonValue)>, n: int)
    requires
        0 <= n <= xs.len(),
        !entries_wf(xs.take(n)),
    ensures
        !entries_wf(xs),
    decreases xs.len() - n,
{
    if n < xs.len() {
        assert(xs.take(n + 1).drop_last() == xs.take(n));
        lemma_entries_wf_prefix(xs, n + 1);
    } else {
        assert(xs.take(n) == xs);
    }
}

} // verus!
