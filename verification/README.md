# connect_migrate

Analysis of Apollo Connectors schemas ahead of an upgrade from
`connect/v0.3` to `connect/v0.4`: it finds the `@connect(selection: …)`
directives of a project, turns the divergences between the two readings of
each selection into site records with a recommended decision, and renders
the `recommendations.md` document (or JSONL records).

The library under `src/` is verified with Verus:

- `text` — character classes, pattern replacement, line splitting, number formatting.
- `decode` — GraphQL string literals (block and single-line) to their values.
- `model` — divergence kinds, recommendations, site records and their views.
- `classify` — the triage heuristics and their reasons.
- `line_index` — byte offsets to 1-based line and column.
- `tree` — which files of a project are scanned (extension `graphql`) and the
  order in which a directory's entries are visited.
- `scan` — the schema outline read from the GraphQL syntax tree
  (`apollo-parser`), and the search for `@connect` selections in it.
- `sites` — site records of each selection, their identifiers, the analysis.
- `rewrite` — sections (one per selection) and their proposed rewrites.
- `markdown` — the recommendations document.
- `laws` — properties of the analysis as a whole.

`app/` holds the command-line program: argument parsing, listing
directories, reading files, the clock, and writing the output.

The dual parse of each selection under `connect/v0.3` and `connect/v0.4`
(`JSONSelection::parse_with_spec`, `structural_eq`, `diff_kinds`) belongs to
the connectors code of `apollo-federation`, which this build does not link.
The library takes its outcome as an input (`SelectionComparison`); the
program's `compare_selection` reports an error instead, so `analyze` fails on
any project that holds a `@connect(selection: …)` directive. Projects without
one are analysed in full.
