//! Version 1 of the schema language: maskoids (the type descriptions), schemas
//! made of named bindings, and the errors that validation reports.
use crate::strmap::StrMap;
use crate::text::{dec, push_decimal, push_str};
use vstd::prelude::*;

verus! {

/// A description of the shape that a JSON value must have.
#[derive(Debug)]
pub enum Maskoid {
    /// Match any value without validation.
    Any,
    /// Match any bool.
    Bool,
    /// Must be exactly this string.
    ConstString(String),
    /// Match any float.
    Float,
    /// Match any integer.
    Int,
    /// Homogenous list where every element matches this maskoid. Preserves order.
    List(Box<Maskoid>),
    /// Match null.
    Null,
    /// The value may match the maskoid or it may be null. In a record, the associated
    /// key may also be missing. If options are nested, the inner option is treated
    /// like a single element record with the key "element".
    Option(Box<Maskoid>),
    /// Each value is matched against the maskoid with the corresponding key. There's
    /// no match if there are extra elements or missing elements.
    Record(MaskoidRecord),
    /// Match the maskoid in the root `bindings` map with this name.
    Ref(String),
    /// Homogenous set where every element matches this maskoid. Unordered, no
    /// duplicates.
    SetOf(Box<Maskoid>),
    /// Match any string.
    String,
    /// Homogenous map where keys are strings and every value matches this maskoid.
    StringMap(Box<Maskoid>),
    /// Matches exactly one maskoid, based on a tag (the key). In json, this is encoded
    /// as a single key object `{KEY: ELEMENT}`.
    TaggedUnion(MaskoidTaggedUnion),
    /// Heterogenous list where the entries are matched pairwise with a same-length
    /// list of maskoids.
    Tuple(MaskoidTuple),
}

/// A maskoid with an optional description, as a record field, union variant or
/// tuple element.
#[derive(Debug)]
pub struct MaskoidField {
    pub description: Option<String>,
    pub maskoid: Maskoid,
}

#[derive(Debug)]
pub struct MaskoidRecord {
    pub description: Option<String>,
    pub fields: StrMap<MaskoidField>,
}

#[derive(Debug)]
pub struct MaskoidTaggedUnion {
    pub description: Option<String>,
    pub variants: StrMap<MaskoidField>,
}

#[derive(Debug)]
pub struct MaskoidTuple {
    pub description: Option<String>,
    pub elements: Vec<MaskoidField>,
}

} // verus!

verus! {

/// The description that a maskoid carries itself (records, unions and tuples).
pub open spec fn description_of(m: Maskoid) -> Option<Seq<char>> {
    match m {
        Maskoid::Tuple(t) => opt_view(t.description),
        Maskoid::TaggedUnion(u) => opt_view(u.description),
        Maskoid::Record(r) => opt_view(r.description),
        _ => None,
    }
}

/// The characters of an optional string.
pub open spec fn opt_view(o: Option<String>) -> Option<Seq<char>> {
    match o {
        Some(s) => Some(s@),
        None => None,
    }
}

fn opt_str(o: &Option<String>) -> (r: Option<&str>)
    ensures
        r is Some == o is Some,
        r matches Some(s) ==> Some(s@) == opt_view(*o),
{
    match o {
        Some(s) => Some(s.as_str()),
        None => None,
    }
}

impl Maskoid {
    pub fn any() -> (m: Self)
        ensures
            m is Any,
    {
        Maskoid::Any
    }

    pub fn bool() -> (m: Self)
        ensures
            m is Bool,
    {
        Maskoid::Bool
    }

    pub fn const_string(value: &str) -> (m: Self)
        ensures
            m matches Maskoid::ConstString(v) && v@ == value@,
    {
        Maskoid::ConstString(crate::text::owned(value))
    }

    /// The description of a record, tagged union or tuple; `None` for the rest.
    pub fn description(&self) -> (r: Option<&str>)
        ensures
            r is Some == description_of(*self) is Some,
            r matches Some(d) ==> Some(d@) == description_of(*self),
    {
        match self {
            Maskoid::Tuple(m) => opt_str(&m.description),
            Maskoid::TaggedUnion(m) => opt_str(&m.description),
            Maskoid::Record(m) => opt_str(&m.description),
            _ => None,
        }
    }

    pub fn float() -> (m: Self)
        ensures
            m is Float,
    {
        Maskoid::Float
    }

    pub fn int_() -> (m: Self)
        ensures
            m is Int,
    {
        Maskoid::Int
    }

    pub fn list(inner: Maskoid) -> (m: Self)
        ensures
            m == Maskoid::List(Box::new(inner)),
    {
        Maskoid::List(Box::new(inner))
    }

    pub fn null() -> (m: Self)
        ensures
            m is Null,
    {
        Maskoid::Null
    }

    pub fn option(inner: Maskoid) -> (m: Self)
        ensures
            m == Maskoid::Option(Box::new(inner)),
    {
        Maskoid::Option(Box::new(inner))
    }

    pub fn record(fields: StrMap<MaskoidField>) -> (m: Self)
        ensures
            m == Maskoid::Record(MaskoidRecord { description: None, fields }),
    {
        Maskoid::Record(MaskoidRecord { description: None, fields: fields })
    }

    pub fn ref_(name: &str) -> (m: Self)
        ensures
            m matches Maskoid::Ref(n) && n@ == name@,
    {
        Maskoid::Ref(crate::text::owned(name))
    }

    pub fn set(inner: Maskoid) -> (m: Self)
        ensures
            m == Maskoid::SetOf(Box::new(inner)),
    {
        Maskoid::SetOf(Box::new(inner))
    }

    pub fn string() -> (m: Self)
        ensures
            m is String,
    {
        Maskoid::String
    }

    pub fn string_map(inner: Maskoid) -> (m: Self)
        ensures
            m == Maskoid::StringMap(Box::new(inner)),
    {
        Maskoid::StringMap(Box::new(inner))
    }

    pub fn tagged_union(variants: StrMap<MaskoidField>) -> (m: Self)
        ensures
            m == Maskoid::TaggedUnion(MaskoidTaggedUnion { description: None, variants }),
    {
        Maskoid::TaggedUnion(MaskoidTaggedUnion { description: None, variants: variants })
    }

    pub fn tuple(elements: Vec<MaskoidField>) -> (m: Self)
        ensures
            m == Maskoid::Tuple(MaskoidTuple { description: None, elements }),
    {
        Maskoid::Tuple(MaskoidTuple { description: None, elements: elements })
    }

    /// Sets the description of a record, tagged union or tuple; any other
    /// maskoid is returned unchanged. Reading the description back gives `desc`.
    pub fn with_description(self, desc: &str) -> (m: Self)
        ensures
            match self {
                Maskoid::Tuple(t) => m matches Maskoid::Tuple(t2) && t2.elements == t.elements,
                Maskoid::TaggedUnion(u) => m matches Maskoid::TaggedUnion(u2) && u2.variants
                    == u.variants,
                Maskoid::Record(r) => m matches Maskoid::Record(r2) && r2.fields == r.fields,
                _ => m == self,
            },
            description_of(m) == (if self is Tuple || self is TaggedUnion || self is Record {
                Some(desc@)
            } else {
                None
            }),
    {
        let d = Some(crate::text::owned(desc));
        match self {
            Maskoid::Tuple(t) => Maskoid::Tuple(MaskoidTuple { description: d, elements: t.elements }),
            Maskoid::TaggedUnion(u) => Maskoid::TaggedUnion(
                MaskoidTaggedUnion { description: d, variants: u.variants },
            ),
            Maskoid::Record(r) => Maskoid::Record(MaskoidRecord { description: d, fields: r.fields }),
            other => other,
        }
    }
}

impl MaskoidField {
    pub fn new(maskoid: Maskoid) -> (f: Self)
        ensures
            f == (MaskoidField { description: None, maskoid }),
    {
        MaskoidField { description: None, maskoid: maskoid }
    }

    /// Sets the description; the maskoid is kept.
    pub fn with_description(self, desc: &str) -> (f: Self)
        ensures
            f.maskoid == self.maskoid,
            opt_view(f.description) == Some(desc@),
    {
        MaskoidField { description: Some(crate::text::owned(desc)), maskoid: self.maskoid }
    }
}

/// One step into a JSON value: an array index or an object key.
#[derive(Clone, Debug, PartialEq, Eq)]
pub enum PathSegment {
    Index(usize),
    Key(String),
}

/// A path segment as characters.
pub enum PathView {
    Index(usize),
    Key(Seq<char>),
}

impl PathSegment {
    pub open spec fn view(&self) -> PathView {
        match self {
            PathSegment::Index(i) => PathView::Index(*i),
            PathSegment::Key(k) => PathView::Key(k@),
        }
    }

    /// A fresh segment with the same view.
    pub fn copy(&self) -> (r: Self)
        ensures
            r.view() == self.view(),
    {
        match self {
            PathSegment::Index(i) => PathSegment::Index(*i),
            PathSegment::Key(k) => PathSegment::Key(k.clone()),
        }
    }

    /// The text `Display` gave this segment: `.key` or `[index]`.
    pub fn render(&self) -> (r: String)
        ensures
            r@ == segment_text(self.view()),
    {
        let mut s = String::new();
        push_segment(&mut s, self);
        s
    }
}

/// `.key` for a key, `[index]` for an index.
pub open spec fn segment_text(p: PathView) -> Seq<char> {
    match p {
        PathView::Key(k) => "."@ + k,
        PathView::Index(i) => "["@ + dec(i as nat) + "]"@,
    }
}

fn push_segment(s: &mut String, p: &PathSegment)
    ensures
        final(s)@ == old(s)@ + segment_text(p.view()),
{
    match p {
        PathSegment::Key(k) => {
            push_str(s, ".");
            push_str(s, k.as_str());
        },
        PathSegment::Index(i) => {
            push_str(s, "[");
            push_decimal(s, *i);
            push_str(s, "]");
        },
    }
}

/// The views of the segments of a path.
pub open spec fn path_view(p: Seq<PathSegment>) -> Seq<PathView> {
    p.map_values(|s: PathSegment| s.view())
}

/// A path copied segment by segment.
pub fn copy_path(p: &Vec<PathSegment>) -> (r: Vec<PathSegment>)
    ensures
        path_view(r@) == path_view(p@),
{
    let mut out: Vec<PathSegment> = Vec::new();
    let mut i: usize = 0;
    while i < p.len()
        invariant
            i <= p.len(),
            out@.len() == i,
            forall|j: int| 0 <= j < i ==> (#[trigger] out@[j]).view() == p@[j].view(),
        decreases p.len() - i,
    {
        out.push(p[i].copy());
        i = i + 1;
    }
    assert(path_view(out@) =~= path_view(p@));
    out
}

/// A single complaint about the data, at a path into it.
#[derive(Clone, Debug)]
pub struct ValidationError {
    pub message: String,
    pub path: Vec<PathSegment>,
}

/// A validation error as characters.
pub struct ErrorView {
    pub message: Seq<char>,
    pub path: Seq<PathView>,
}

impl ValidationError {
    pub open spec fn view(&self) -> ErrorView {
        ErrorView { message: self.message@, path: path_view(self.path@) }
    }

    /// The text `Display` gave this error: the path (or `(root)` when it is
    /// empty), a colon, and the message.
    pub fn render(&self) -> (r: String)
        ensures
            r@ == error_text(self.view()),
    {
        let mut s = String::new();
        push_error_text(&mut s, self);
        s
    }
}

/// The segments of a path written one after another.
pub open spec fn path_text(p: Seq<PathView>) -> Seq<char>
    decreases p.len(),
{
    if p.len() == 0 {
        Seq::empty()
    } else {
        path_text(p.drop_last()) + segment_text(p.last())
    }
}

/// `PATH: MESSAGE`, where an empty path reads `(root)`.
pub open spec fn error_text(e: ErrorView) -> Seq<char> {
    (if path_text(e.path).len() == 0 {
        "(root)"@
    } else {
        path_text(e.path)
    }) + ": "@ + e.message
}

fn push_error_text(s: &mut String, e: &ValidationError)
    ensures
        final(s)@ == old(s)@ + error_text(e.view()),
{
    let mut p = String::new();
    let mut i: usize = 0;
    while i < e.path.len()
        invariant
            i <= e.path@.len(),
            p@ == path_text(path_view(e.path@).take(i as int)),
        decreases e.path@.len() - i,
    {
        assert(path_view(e.path@).take(i as int + 1).drop_last() == path_view(e.path@).take(i as int));
        push_segment(&mut p, &e.path[i]);
        i = i + 1;
    }
    assert(path_view(e.path@).take(i as int) == path_view(e.path@));
    if crate::text::chars_of(p.as_str()).len() == 0 {
        push_str(s, "(root)");
    } else {
        push_str(s, p.as_str());
    }
    push_str(s, ": ");
    push_str(s, e.message.as_str());
}

/// All errors found in a value.
#[derive(Clone, Debug)]
pub struct Invalid {
    pub errors: Vec<ValidationError>,
}

/// The views of a sequence of errors.
pub open spec fn errors_view(e: Seq<ValidationError>) -> Seq<ErrorView> {
    e.map_values(|x: ValidationError| x.view())
}

/// The errors' texts, one per line.
pub open spec fn invalid_text(e: Seq<ErrorView>) -> Seq<char>
    decreases e.len(),
{
    if e.len() == 0 {
        Seq::empty()
    } else if e.len() == 1 {
        error_text(e[0])
    } else {
        invalid_text(e.drop_last()) + "\n"@ + error_text(e.last())
    }
}

impl Invalid {
    /// The text `Display` gave this value: each error's text, separated by line
    /// breaks.
    pub fn render(&self) -> (r: String)
        ensures
            r@ == invalid_text(errors_view(self.errors@)),
    {
        let mut s = String::new();
        let mut i: usize = 0;
        while i < self.errors.len()
            invariant
                i <= self.errors@.len(),
                s@ == invalid_text(errors_view(self.errors@).take(i as int)),
            decreases self.errors@.len() - i,
        {
            let ghost pre = errors_view(self.errors@).take(i as int + 1);
            assert(pre.drop_last() == errors_view(self.errors@).take(i as int));
            if i > 0 {
                push_str(&mut s, "\n");
            }
            push_error_text(&mut s, &self.errors[i]);
            i = i + 1;
        }
        assert(errors_view(self.errors@).take(i as int) == errors_view(self.errors@));
        s
    }
}

/// This is the main type used for validation. It describes the structure of one or
/// more related data types.
#[derive(Debug)]
pub struct SchemaskV1 {
    /// Bindings are names associated with parts of the schema. The names are used to
    /// identify where to start validation, as well as allow types to refer to other
    /// types (or themselves, recursively) forming a graph.
    pub bindings: StrMap<Maskoid>,
    /// Which bound element to validate against if none are explicitly specified
    pub default: Option<String>,
}

impl SchemaskV1 {
    pub fn to_versioned(self) -> (r: crate::Schemask)
        ensures
            r == crate::Schemask::V1(self),
    {
        crate::Schemask::V1(self)
    }
}

/// Every map inside `m` (record fields, union variants) keeps its keys
/// strictly increasing, as the ordered maps of the schema language do.
pub open spec fn maskoid_wf(m: Maskoid) -> bool
    decreases m,
{
    match m {
        Maskoid::Option(inner) => maskoid_wf(*inner),
        Maskoid::List(inner) => maskoid_wf(*inner),
        Maskoid::SetOf(inner) => maskoid_wf(*inner),
        Maskoid::StringMap(inner) => maskoid_wf(*inner),
        Maskoid::Tuple(t) => forall|i: int|
            0 <= i < t.elements@.len() ==> maskoid_wf(#[trigger] t.elements@[i].maskoid),
        Maskoid::TaggedUnion(u) => u.variants.wf() && forall|i: int|
            0 <= i < u.variants.entries@.len() ==> maskoid_wf(#[trigger] u.variants.entries@[i].1.maskoid),
        Maskoid::Record(r) => r.fields.wf() && forall|i: int|
            0 <= i < r.fields.entries@.len() ==> maskoid_wf(#[trigger] r.fields.entries@[i].1.maskoid),
        _ => true,
    }
}

/// The bindings and every map inside them keep their keys strictly increasing.
pub open spec fn schema_wf(s: SchemaskV1) -> bool {
    &&& s.bindings.wf()
    &&& forall|i: int| 0 <= i < s.bindings.entries@.len() ==> maskoid_wf(#[trigger] s.bindings.entries@[i].1)
}

/// Decides [`maskoid_wf`].
pub fn maskoid_is_wf(m: &Maskoid) -> (r: bool)
    ensures
        r == maskoid_wf(*m),
    decreases m,
{
    match m {
        Maskoid::Option(inner) => maskoid_is_wf(inner),
        Maskoid::List(inner) => maskoid_is_wf(inner),
        Maskoid::SetOf(inner) => maskoid_is_wf(inner),
        Maskoid::StringMap(inner) => maskoid_is_wf(inner),
        Maskoid::Tuple(t) => {
            let mut i: usize = 0;
            while i < t.elements.len()
                invariant
                    *m == Maskoid::Tuple(*t),
                    i <= t.elements@.len(),
                    forall|j: int| 0 <= j < i ==> maskoid_wf(#[trigger] t.elements@[j].maskoid),
                    forall|j: int| 0 <= j < t.elements@.len() ==> decreases_to!(*m => #[trigger] t.elements@[j].maskoid),
                decreases t.elements@.len() - i,
            {
                if !maskoid_is_wf(&t.elements[i].maskoid) {
                    assert(!maskoid_wf(t.elements@[i as int].maskoid));
                    return false;
                }
                i = i + 1;
            }
            true
        },
        Maskoid::TaggedUnion(u) => {
            if !u.variants.is_wf() {
                return false;
            }
            let e = &u.variants.entries;
            let mut i: usize = 0;
            while i < e.len()
                invariant
                    *m == Maskoid::TaggedUnion(*u),
                    e@ == u.variants.entries@,
                    u.variants.wf(),
                    i <= e@.len(),
                    forall|j: int| 0 <= j < i ==> maskoid_wf(#[trigger] e@[j].1.maskoid),
                    forall|j: int| 0 <= j < e@.len() ==> decreases_to!(*m => #[trigger] e@[j].1.maskoid),
                decreases e@.len() - i,
            {
                if !maskoid_is_wf(&e[i].1.maskoid) {
                    assert(!maskoid_wf(e@[i as int].1.maskoid));
                    return false;
                }
                i = i + 1;
            }
            true
        },
        Maskoid::Record(r) => {
            if !r.fields.is_wf() {
                return false;
            }
            let e = &r.fields.entries;
            let mut i: usize = 0;
            while i < e.len()
                invariant
                    *m == Maskoid::Record(*r),
                    e@ == r.fields.entries@,
                    r.fields.wf(),
                    i <= e@.len(),
                    forall|j: int| 0 <= j < i ==> maskoid_wf(#[trigger] e@[j].1.maskoid),
                    forall|j: int| 0 <= j < e@.len() ==> decreases_to!(*m => #[trigger] e@[j].1.maskoid),
                decreases e@.len() - i,
            {
                if !maskoid_is_wf(&e[i].1.maskoid) {
                    assert(!maskoid_wf(e@[i as int].1.maskoid));
                    return false;
                }
                i = i + 1;
            }
            true
        },
        _ => true,
    }
}

impl SchemaskV1 {
    /// Decides [`schema_wf`].
    pub fn is_wf(&self) -> (r: bool)
        ensures
            r == schema_wf(*self),
    {
        if !self.bindings.is_wf() {
            return false;
        }
        let e = &self.bindings.entries;
        let mut i: usize = 0;
        while i < e.len()
            invariant
                e@ == self.bindings.entries@,
                self.bindings.wf(),
                i <= e@.len(),
                forall|j: int| 0 <= j < i ==> maskoid_wf(#[trigger] e@[j].1),
            decreases e@.len() - i,
        {
            if !maskoid_is_wf(&e[i].1) {
                return false;
            }
            i = i + 1;
        }
        true
    }
}

} // verus!
