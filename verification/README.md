# vimyc

A small typed language for the rules of an OpenRA bot, and its compiler.

```
rule build-power {
  priority 800
  category economy exclusive
  do       produce-power-plant

  require not queue-busy(Building)
  require can-build(Building, powr)
  require power-excess < 100 or count(powr) == 0
  require cash >= 300
}
```

The library is written in Verus: each function carries a contract, and
Verus proves the code meets it.

## Layout

- `src/` — the verified library.
  - `diag`, `text`, `types`, `env`: spans and diagnostics, string helpers,
    the type language, and the tables of predicates, builtins, actions,
    categories and enum domains.
  - `token`, `lexer`: the lexer, specified byte by byte (`lex_from`).
  - `ast`, `grammar`, `parser`: the tree, the grammar as a relation between
    token ranges and trees, and a parser proved to report nothing exactly
    when the tokens are a program, and then to return the one tree they
    write, every node's span covering the tokens that write it.
  - `unit`: several files, one compilation.
  - `typing`, `said`, `check`: the typing rules and the diagnostics they
    call for, as specification, and a checker proved to report exactly
    those, each message in place, and nothing for a rule set they accept.
  - `ir`, `lower`, `totality`: the lowered form, lowering (names resolved,
    `count` decided, defs inlined) with what each expression lowers to, and
    the proof that every rule set that checks lowers.
  - `phase`: a priority that checks reads no game state.
  - `eval`, `state`, `analysis`: integer semantics of the operators, the
    order in which rules fire and which are blocked, and per-rule blame.
  - `specialise`: removing what a doctrine's settled gates decide.
  - `emit`: the expr backend and the `.vy` printer.
- `app/` — the command-line program: file I/O, JSON, and the parts that
  compute with floating point.
- `tests/` — the tests, run against the compiled library.
