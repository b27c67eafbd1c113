# sporec_typeck

The building blocks of the Spore language's type checker, written in Verus:
executable Rust whose behaviour is stated in `requires` / `ensures` contracts
and proved. The library holds the checker's state, rules and analyses; it
does not hold the driver that walks a whole module (expression checking and
item registration).

## Layout

- `src/` — the verified library, one module per concern:
  - `text`, `names`, `name_map`, `effect_set`: strings, sorted name lists,
    name-keyed maps, effect sets and the hierarchy of named effect surfaces
    (expansion, propagation checks, recursive surfaces).
  - `ast`, `ast_eq`, `hir`, `lower`: the syntax tree the checker reads and its
    lowering to the high-level IR.
  - `types`, `env`, `check`: types and their mathematical values, scoped
    environments, the checker state, type resolution, substitution and
    unification.
  - `pattern`, `expr`, `typing`, `method`, `bounds`, `signature`, `suggest`,
    `spawns`: typing rules of patterns, expressions and calls, method and
    bound lookup.
  - `import`: bringing the symbols an import resolved into the checker's
    declarations, with ambiguous imports reported.
  - `module`, `module_lookup`, `exports`, `prelude_interface`: module
    interfaces, the module registry (imports, visibility, import cycles, the
    prelude), the interface a module exports and the interface of the
    prelude's source.
  - `hole`, `cost`, `budget`, `platform`: typed holes and their dependency
    graph, cost analysis and budgets, platform startup rules.
  - `laws`: properties that relate several functions, as proof functions.
- `tests/` — ordinary Rust tests that run the compiled library.
- `app/` — the parts that Verus cannot take: floating-point scoring of holes
  and JSON output of hole reports.

Each public function's contract is stated over spec functions and views in
the module that defines it; `laws.rs` holds the cross-function laws.
