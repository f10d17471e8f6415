# coccinelleforrust

Coccinelle for Rust: semantic patches (`.cocci` files) matched against Rust
code and applied to it.  The library is written in Verus and verified.

- `src/parsing_cocci`: reading a semantic patch into rules (`parse_cocci`,
  `visitor_ast0`, `ast0`), dropping rules that cannot apply
  (`cleanup_rules`), classifying metavariables (`free_vars`), marking
  conditions (`test_exps`), logical lines (`logical_lines`), and the words a
  file must contain for the patch to apply, with the queries for grep-like
  tools (`get_constants`, `cocci_grep`).
- `src/parsing_rs`: parsing Rust code into trees (`parse_rs`,
  `visitor_ast`, `ast_rs`) and carrying a formatter's layout into added code
  (`format`).
- `src/engine`: matching rules against code (`cocci_vs_rs`), expanding
  disjunctions (`disjunctions`) and applying the rules (`transformation`).
- `src/commons`: text helpers, the bridge to the Rust parser and to regular
  expressions, positions and errors.
- `app/main.rs`: the `cfr` command: options, files, rustfmt and diffs.
