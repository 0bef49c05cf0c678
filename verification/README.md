# cync

The front end of the Cync language, as a verified library: Verus verifies
every function under `src/`, and most of them (all the public ones that
compute something) carry a `requires` / `ensures` contract; some small
private helpers carry none.

- Routes and names: `route`, `text_order`, `route_tree`, `route_root_table`,
  `keyed` (maps and sets without duplicate keys).
- Modules: `module_merge` (merging module blocks) and `merge_laws` (no name
  taken twice), `module_skeleton`,
  `skeleton_build`, `alias_resolution` and `lookup_canonical_route` (global
  name and alias resolution), `dependency_graph`.
- Shapes: `elementary_shape` (the lattice of built-in shapes),
  `type_description` (written types into shape descriptions),
  `function_description`, `bind_shape`, `content_build` and `contents` (the
  contents of definitions), `shape_build` and `realize` (computable shapes),
  `subshape` (subshape decisions), `shape_check`, `display`.
- Lexing: `lexer` (positions and lexing results).

`app/` holds the command line and the token recognizer, which rest on
`clap` and `logos`; `tests/` holds the tests.
