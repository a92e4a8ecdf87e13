# conclave

The library core of Conclave, a deterministic workflow language, written in
Verus: every function in `src/` carries a contract that Verus proves.

- `text`, `json`: character-level helpers, the JSON value model and its
  canonical form (keys sorted, no whitespace).
- `hash`: SHA-256 digests and the `sha256:<hex>` text form.
- `lang`: lexer, parser, AST normalizer, AST JSON, and the lowering of a goal
  to Plan IR (with the module cache of published modules).
- `ir`: the Plan IR, its canonical JSON, stable ids and validation.
- `manifest`: the sealed manifest, its hash and the sealing rules.
- `pack`: the packed artifact format (magic, length-prefixed JSON) and the
  bundle hash check.
- `fetch`: the reply lines of the fetch capability.

`app/` holds the command-line program and the fetch capability's stdio loop:
file and network I/O, argument parsing, and the serde copies of the library
types. `tests/` exercises the library through its public API.
