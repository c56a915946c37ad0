# schemask

Schemask is a small schema language for JSON data: a schema names bindings,
each a *maskoid* (null, string, constant string, bool, int, float, reference,
option, list, set, string map, tuple, tagged union, record). This crate
validates JSON values against schemas, generates TypeScript, Rust and Markdown
descriptions of schemas, and describes Rust types as schemas.

The library in `src/` is verified with Verus: every public function states what
it returns in its contract, and the properties that the schema language
promises (what each maskoid accepts, that a set ignores order, that error
paths do not change whether a value matches, how derived schemas name fields
and variants) are proved as lemmas.

Layout:

- `src/v1.rs`: maskoids, schemas, validation errors.
- `src/validate.rs`: the errors a value earns, as spec functions, and the
  matcher that reports exactly those.
- `src/laws.rs`: the properties of validation.
- `src/gen_typescript.rs`, `src/gen_markdown.rs`, `src/gen_rust.rs`: the
  generators, each against a spec of its output text.
- `src/maskoidy.rs`: the `Maskoidy` trait, its impls for standard types, and the
  schema of the schema language itself.
- `src/derivation.rs`, `src/rename.rs`: what `#[derive(Maskoidy)]` builds from a
  type definition and its serde attributes.
- `src/json.rs`, `src/strmap.rs`, `src/text.rs`: JSON values, a sorted string
  map, and string helpers.
- `app/`: the command-line tool (argument parsing, reading files, serde).
