# arendal

The front end and interpreter of Arendal, a small expression language, written
in Verus: every function states what it does in `requires` / `ensures` and is
proved to do it.

Input goes through these stages, each with a mathematical model that the
contracts speak of:

- `tokenizer`, `lexer`: characters to tokens to lexemes (brackets matched,
  separators folded).
- `parser`: lexemes to a module of type definitions, assignments and
  expressions (`ast`), against a grammar written as spec functions.
- `checker`, `program`: name resolution and type checking of a module, the
  order of its global assignments, and duplicate and circular definitions.
- `interpreter`, `env`: evaluation, and an environment that keeps the globals
  of earlier input.
- `safety`: type safety — a checked expression evaluates to a value of its
  type, or fails only by dividing by zero.

Around them: identifiers and symbols (`identifier`, `symbol`, `keyword`),
values and types (`value`, `types`, `integer`), scoped names (`names`,
`scope`), source positions and problem reports (`input`, `problem`, `error`),
an arena of tree nodes (`vectree`, `arena`) and ids (`id`).

Arbitrary-precision arithmetic comes from `num`, hex encoding from
`data-encoding`, the environment's name index from `im`, and random tree ids
from `rand`; each call stands behind a small function whose contract says
what the crate's documentation promises.
