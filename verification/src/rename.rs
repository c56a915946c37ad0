//! The key names that serde's `rename_all` rules give fields and variants, so
//! that a schema describes a type under the names its JSON encoding uses.
use crate::text::{chars_of, push_char, push_str, replace_char, str_eq};
use vstd::prelude::*;

verus! {

/// A serde `rename_all` rule.
#[derive(Clone, Copy, Debug, PartialEq, Eq, Structural)]
pub enum RenameRule {
    Camel,
    Kebab,
    Lower,
    Unchanged,
    Pascal,
    ScreamingKebab,
    ScreamingSnake,
    Snake,
    Upper,
}

/// ASCII upper-casing of one character.
pub open spec fn ascii_upper_char(c: char) -> char {
    if 'a' <= c && c <= 'z' {
        ((c as u32) - 32) as char
    } else {
        c
    }
}

/// ASCII lower-casing of one character.
pub open spec fn ascii_lower_char(c: char) -> char {
    if 'A' <= c && c <= 'Z' {
        ((c as u32) + 32) as char
    } else {
        c
    }
}

/// `str::to_ascii_uppercase`.
pub open spec fn ascii_upper(s: Seq<char>) -> Seq<char> {
    s.map_values(|c: char| ascii_upper_char(c))
}

/// `str::to_ascii_lowercase`.
pub open spec fn ascii_lower(s: Seq<char>) -> Seq<char> {
    s.map_values(|c: char| ascii_lower_char(c))
}

fn upper_char(c: char) -> (r: char)
    ensures
        r == ascii_upper_char(c),
{
    if 'a' <= c && c <= 'z' {
        (((c as u32) - 32) as u8) as char
    } else {
        c
    }
}

fn lower_char(c: char) -> (r: char)
    ensures
        r == ascii_lower_char(c),
{
    if 'A' <= c && c <= 'Z' {
        (((c as u32) + 32) as u8) as char
    } else {
        c
    }
}

/// `str::to_ascii_uppercase` as a new string.
pub fn to_ascii_upper(s: &str) -> (r: String)
    ensures
        r@ == ascii_upper(s@),
{
    let cs = chars_of(s);
    let mut out = String::new();
    let mut i: usize = 0;
    while i < cs.len()
        invariant
            cs@ == s@,
            i <= cs@.len(),
            out@ == ascii_upper(s@.take(i as int)),
        decreases cs@.len() - i,
    {
        push_char(&mut out, upper_char(cs[i]));
        assert(ascii_upper(s@.take(i as int + 1)) == ascii_upper(s@.take(i as int)).push(
            ascii_upper_char(s@[i as int]),
        ));
        i = i + 1;
    }
    assert(s@.take(i as int) == s@);
    out
}

/// `str::to_ascii_lowercase` as a new string.
pub fn to_ascii_lower(s: &str) -> (r: String)
    ensures
        r@ == ascii_lower(s@),
{
    let cs = chars_of(s);
    let mut out = String::new();
    let mut i: usize = 0;
    while i < cs.len()
        invariant
            cs@ == s@,
            i <= cs@.len(),
            out@ == ascii_lower(s@.take(i as int)),
        decreases cs@.len() - i,
    {
        push_char(&mut out, lower_char(cs[i]));
        assert(ascii_lower(s@.take(i as int + 1)) == ascii_lower(s@.take(i as int)).push(
            ascii_lower_char(s@[i as int]),
        ));
        i = i + 1;
    }
    assert(s@.take(i as int) == s@);
    out
}

/// The PascalCase of a snake-case field: `_` dropped, the first character and
/// each one after a `_` upper-cased (ASCII).
pub open spec fn pascal_field(s: Seq<char>) -> Seq<char> {
    pascal_field_from(s, 0, true)
}

pub open spec fn pascal_field_from(s: Seq<char>, i: nat, cap: bool) -> Seq<char>
    decreases s.len() - i,
{
    if i >= s.len() {
        Seq::empty()
    } else if s[i as int] == '_' {
        pascal_field_from(s, i + 1, true)
    } else if cap {
        seq![ascii_upper_char(s[i as int])] + pascal_field_from(s, i + 1, false)
    } else {
        seq![s[i as int]] + pascal_field_from(s, i + 1, false)
    }
}

pub(crate) fn pascal_field_string(s: &str) -> (r: String)
    ensures
        r@ == pascal_field(s@),
{
    let cs = chars_of(s);
    let mut out = String::new();
    let mut cap = true;
    let mut i: usize = 0;
    while i < cs.len()
        invariant
            cs@ == s@,
            i <= cs@.len(),
            out@ + pascal_field_from(s@, i as nat, cap) == pascal_field(s@),
        decreases cs@.len() - i,
    {
        let c = cs[i];
        let ghost before = out@;
        if c == '_' {
            cap = true;
        } else if cap {
            push_char(&mut out, upper_char(c));
            assert(before + (seq![ascii_upper_char(c)] + pascal_field_from(s@, i as nat + 1, false))
                == out@ + pascal_field_from(s@, i as nat + 1, false));
            cap = false;
        } else {
            push_char(&mut out, c);
            assert(before + (seq![c] + pascal_field_from(s@, i as nat + 1, false)) == out@
                + pascal_field_from(s@, i as nat + 1, false));
            cap = false;
        }
        i = i + 1;
    }
    assert(out@ + Seq::<char>::empty() == out@);
    out
}

/// The first character lower-cased (ASCII), the rest kept: what
/// `s[..1].to_ascii_lowercase() + &s[1..]` gives when the first character is a
/// single byte.
pub open spec fn lower_first(s: Seq<char>) -> Seq<char> {
    seq![ascii_lower_char(s[0])] + s.skip(1)
}

/// A first character that `s[..1]` can slice: the string is not empty and
/// starts with an ASCII character.
pub open spec fn ascii_head(s: Seq<char>) -> bool {
    s.len() > 0 && (s[0] as u32) < 128
}

fn lower_first_string(s: &str) -> (r: String)
    requires
        s@.len() > 0,
    ensures
        r@ == lower_first(s@),
{
    let cs = chars_of(s);
    let mut out = String::new();
    push_char(&mut out, lower_char(cs[0]));
    let mut i: usize = 1;
    while i < cs.len()
        invariant
            cs@ == s@,
            1 <= i <= cs@.len(),
            out@ == seq![ascii_lower_char(s@[0])] + s@.subrange(1, i as int),
        decreases cs@.len() - i,
    {
        push_char(&mut out, cs[i]);
        assert(s@.subrange(1, i as int + 1) == s@.subrange(1, i as int).push(s@[i as int]));
        i = i + 1;
    }
    out
}

/// Whether `char::is_uppercase` holds of a character.
pub uninterp spec fn char_is_upper(c: char) -> bool;

/// What `char::to_lowercase` yields for a character.
pub uninterp spec fn char_lower(c: char) -> Seq<char>;

/// `char::is_uppercase` (the Unicode `Uppercase` property). Its result is named
/// [`char_is_upper`]; of the Unicode tables only the ASCII part is stated: the
/// upper-case ASCII characters are `A` to `Z`.
#[verifier::external_body]
fn is_uppercase(c: char) -> (r: bool)
    ensures
        r == char_is_upper(c),
        (c as u32) < 128 ==> (r <==> ('A' <= c && c <= 'Z')),
{
    c.is_uppercase()
}

/// `char::to_lowercase`, collected. Its result is named [`char_lower`]; of the
/// Unicode tables only the ASCII part is stated: `A` to `Z` map to `a` to `z`,
/// every other ASCII character to itself.
#[verifier::external_body]
fn lowercase_of(c: char) -> (r: String)
    ensures
        r@ == char_lower(c),
        (c as u32) < 128 ==> r@ == seq![ascii_lower_char(c)],
{
    c.to_lowercase().collect()
}

/// The snake-case of a PascalCase variant: each upper-case character after the
/// first is preceded by `_`, and every character is lower-cased (Unicode).
pub open spec fn snake_variant(s: Seq<char>) -> Seq<char>
    decreases s.len(),
{
    if s.len() == 0 {
        Seq::empty()
    } else {
        let i = s.len() - 1;
        snake_variant(s.drop_last()) + (if i > 0 && char_is_upper(s[i]) {
            seq!['_']
        } else {
            Seq::empty()
        }) + char_lower(s[i])
    }
}

/// What is known of the Unicode case of an ASCII character: it is upper case
/// exactly when it is `A` to `Z`, and lower-cases as ASCII does.
pub open spec fn ascii_case_known(c: char) -> bool {
    (c as u32) < 128 ==> ((char_is_upper(c) <==> ('A' <= c && c <= 'Z')) && char_lower(c) == seq![
        ascii_lower_char(c),
    ])
}

fn snake_variant_string(s: &str) -> (r: String)
    ensures
        r@ == snake_variant(s@),
        forall|j: int| 0 <= j < s@.len() ==> ascii_case_known(#[trigger] s@[j]),
{
    let cs = chars_of(s);
    let mut out = String::new();
    let mut i: usize = 0;
    while i < cs.len()
        invariant
            cs@ == s@,
            i <= cs@.len(),
            out@ == snake_variant(s@.take(i as int)),
            forall|j: int| 0 <= j < i ==> ascii_case_known(#[trigger] s@[j]),
        decreases cs@.len() - i,
    {
        let ghost before = out@;
        let c = cs[i];
        let up = is_uppercase(c);
        if i > 0 && up {
            push_char(&mut out, '_');
        }
        let low = lowercase_of(c);
        push_str(&mut out, low.as_str());
        proof {
            let t = s@.take(i as int + 1);
            assert(t.drop_last() == s@.take(i as int));
            assert(t[i as int] == c);
            if i > 0 && up {
                assert(before.push('_') == before + seq!['_']);
            } else {
                assert(before + Seq::<char>::empty() == before);
            }
        }
        i = i + 1;
    }
    assert(s@.take(i as int) == s@);
    out
}

impl RenameRule {
    /// The rule that serde names by `name` in `rename_all = "..."`; an unknown
    /// name leaves names unchanged.
    pub open spec fn spec_named(name: Seq<char>) -> RenameRule {
        if name == "lowercase"@ {
            RenameRule::Lower
        } else if name == "UPPERCASE"@ {
            RenameRule::Upper
        } else if name == "PascalCase"@ {
            RenameRule::Pascal
        } else if name == "camelCase"@ {
            RenameRule::Camel
        } else if name == "snake_case"@ {
            RenameRule::Snake
        } else if name == "SCREAMING_SNAKE_CASE"@ {
            RenameRule::ScreamingSnake
        } else if name == "kebab-case"@ {
            RenameRule::Kebab
        } else if name == "SCREAMING-KEBAB-CASE"@ {
            RenameRule::ScreamingKebab
        } else {
            RenameRule::Unchanged
        }
    }

    /// The rule that serde names by `name` in `rename_all = "..."`.
    pub fn named(name: &str) -> (r: RenameRule)
        ensures
            r == Self::spec_named(name@),
    {
        if str_eq(name, "lowercase") {
            RenameRule::Lower
        } else if str_eq(name, "UPPERCASE") {
            RenameRule::Upper
        } else if str_eq(name, "PascalCase") {
            RenameRule::Pascal
        } else if str_eq(name, "camelCase") {
            RenameRule::Camel
        } else if str_eq(name, "snake_case") {
            RenameRule::Snake
        } else if str_eq(name, "SCREAMING_SNAKE_CASE") {
            RenameRule::ScreamingSnake
        } else if str_eq(name, "kebab-case") {
            RenameRule::Kebab
        } else if str_eq(name, "SCREAMING-KEBAB-CASE") {
            RenameRule::ScreamingKebab
        } else {
            RenameRule::Unchanged
        }
    }

    /// The key a field (written in snake case) gets under this rule.
    pub open spec fn field_name(self, f: Seq<char>) -> Seq<char> {
        match self {
            RenameRule::Unchanged | RenameRule::Lower | RenameRule::Snake => f,
            RenameRule::Upper | RenameRule::ScreamingSnake => ascii_upper(f),
            RenameRule::Pascal => pascal_field(f),
            RenameRule::Camel => lower_first(pascal_field(f)),
            RenameRule::Kebab => replace_char(f, '_', "-"@),
            RenameRule::ScreamingKebab => replace_char(ascii_upper(f), '_', "-"@),
        }
    }

    /// The key a variant (written in PascalCase) gets under this rule.
    pub open spec fn variant_name(self, v: Seq<char>) -> Seq<char> {
        match self {
            RenameRule::Unchanged | RenameRule::Pascal => v,
            RenameRule::Lower => ascii_lower(v),
            RenameRule::Upper => ascii_upper(v),
            RenameRule::Camel => lower_first(v),
            RenameRule::Snake => snake_variant(v),
            RenameRule::ScreamingSnake => ascii_upper(snake_variant(v)),
            RenameRule::Kebab => replace_char(snake_variant(v), '_', "-"@),
            RenameRule::ScreamingKebab => replace_char(ascii_upper(snake_variant(v)), '_', "-"@),
        }
    }

    /// The key a field gets under this rule. The camel-case rule slices off the
    /// first character by byte, which needs a leading ASCII character.
    pub fn apply_to_field(&self, field: &str) -> (r: String)
        requires
            *self == RenameRule::Camel ==> ascii_head(pascal_field(field@)),
        ensures
            r@ == self.field_name(field@),
    {
        match self {
            RenameRule::Unchanged | RenameRule::Lower | RenameRule::Snake => crate::text::owned(field),
            RenameRule::Upper | RenameRule::ScreamingSnake => to_ascii_upper(field),
            RenameRule::Pascal => pascal_field_string(field),
            RenameRule::Camel => {
                let pascal = pascal_field_string(field);
                lower_first_string(pascal.as_str())
            },
            RenameRule::Kebab => crate::text::replaced(field, '_', "-"),
            RenameRule::ScreamingKebab => {
                let up = to_ascii_upper(field);
                crate::text::replaced(up.as_str(), '_', "-")
            },
        }
    }

    /// The key a variant gets under this rule. The camel-case rule slices off the
    /// first character by byte, which needs a leading ASCII character.
    pub fn apply_to_variant(&self, variant: &str) -> (r: String)
        requires
            *self == RenameRule::Camel ==> ascii_head(variant@),
        ensures
            r@ == self.variant_name(variant@),
            *self == RenameRule::Snake || *self == RenameRule::ScreamingSnake || *self == RenameRule::Kebab
                || *self == RenameRule::ScreamingKebab ==> forall|j: int|
                0 <= j < variant@.len() ==> ascii_case_known(#[trigger] variant@[j]),
    {
        match self {
            RenameRule::Unchanged | RenameRule::Pascal => crate::text::owned(variant),
            RenameRule::Lower => to_ascii_lower(variant),
            RenameRule::Upper => to_ascii_upper(variant),
            RenameRule::Camel => lower_first_string(variant),
            RenameRule::Snake => snake_variant_string(variant),
            RenameRule::ScreamingSnake => {
                let s = snake_variant_string(variant);
                to_ascii_upper(s.as_str())
            },
            RenameRule::Kebab => {
                let s = snake_variant_string(variant);
                crate::text::replaced(s.as_str(), '_', "-")
            },
            RenameRule::ScreamingKebab => {
                let s = snake_variant_string(variant);
                let up = to_ascii_upper(s.as_str());
                crate::text::replaced(up.as_str(), '_', "-")
            },
        }
    }
}

/// An identifier without its raw prefix `r#`.
pub open spec fn unraw_text(s: Seq<char>) -> Seq<char> {
    if s.len() >= 2 && s[0] == 'r' && s[1] == '#' {
        s.skip(2)
    } else {
        s
    }
}

/// The name of an identifier without its raw prefix (`r#type` reads `type`).
pub fn unraw(ident: &str) -> (r: String)
    ensures
        r@ == unraw_text(ident@),
{
    let cs = chars_of(ident);
    if cs.len() >= 2 && cs[0] == 'r' && cs[1] == '#' {
        let mut out = String::new();
        let mut i: usize = 2;
        while i < cs.len()
            invariant
                cs@ == ident@,
                2 <= i <= cs@.len(),
                out@ == ident@.subrange(2, i as int),
            decreases cs@.len() - i,
        {
            push_char(&mut out, cs[i]);
            assert(ident@.subrange(2, i as int + 1) == ident@.subrange(2, i as int).push(ident@[i as int]));
            i = i + 1;
        }
        out
    } else {
        crate::text::owned(ident)
    }
}

} // verus!
