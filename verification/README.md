# skill_flow

The logic of a data-driven skill system for games, written and proved in Verus: an expression
language, a compiler from skill definitions to skill graphs, a runtime that executes them, and the
state of a skill editor. Game semantics stay outside: a game registers actions, modifiers, cast
models and syntax nodes.

## Layout

- `src/` is the verified library.
  - Values: `value`, `table`, `keys`, `text`, `decimal`, `number`, `collect`.
  - Expressions: `lexer`, `expr`.
  - Compilation: `def`, `registry`, `modifier`, `lower`, `payload`, `append`, `graph`, `validate`,
    `compile`.
  - Runtime: `context`, `action`, `node`, `materialize`, `branch`, `execute`, `effect`,
    `requirement`, `ledger`, `library`, `cast`, `resume`.
  - Around it: `asset`, `editor`, `scan`, `naming`, `decode`, `gameplay`, `component`, `error`,
    `message`.
  - Laws that span several functions stand in the modules whose names end in `_laws`, and beside
    what they speak of.
- `app/` is the Bevy side: plugins, systems, RON texts and files.
- `tests/` runs the library.

## Numbers

The library has no floating point. A `SkillNumber` is the bit pattern of a double. Comparison and
negation are done on the bits; rounded arithmetic, parsing and printing are left to the host. A
function that needs such a result looks it up in a `NumberTable`. Where the table has no answer the
function stops with `SkillError::Unanswered`; the host adds the answer and calls again. What was
being worked on is then as it was. `compile_dirty_skill_assets` and `process_effect_spawns` keep
what they had finished, and another call goes on with the rest.
`app/numbers.rs` holds that loop.

## Contracts

The types that the contracts speak of have views, such as `ValueView` or `ContextView`, and the
contract of a function gives its result as a spec function over views: `expr_value` for expressions,
`compiled` for compilation, `node_run` and `frames_run` for execution, `advanced` for waking
branches, `cast` for casts, `reloading` for sources. What is trusted stands in `keys`: the calls of
`indexmap`.

## Entities

The library knows an entity by its number. Expressions see it as a text, the number in decimal:
`event.target` and `event.caster` are the target and the caster of the signal, unless its payload
has something under these names.
