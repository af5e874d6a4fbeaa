# cflox

A front end for Lox, the language of *Crafting Interpreters*, written in
Verus: each piece states what it does in its contract, and Verus proves the
code meets it.

## Layout

- `src/text.rs` — chars versus UTF-8 byte offsets, decimal and repeated text.
- `src/parser/` — the scanner (`lexing`), tokens and spans, the syntax tree
  (`ast`, with its view as plain values), the grammar as spec functions
  (`grammar`), the recursive-descent parser (`mod.rs`, `statements`), and
  diagnostics with their rendering against the source.
- `src/interpreter/` — the resolver, which finds for each variable reference
  the scope its variable lives in, and environments, where names are bound
  to values.
- `src/vm/` — bytecode ops and their encoding, chunks, and a stack machine
  that runs one instruction at a time.
- `src/gc/` — an arena of values reached through handles.
- `src/run/` — error bookkeeping for a run.
- `app/` — the command-line program: reading files and standard input,
  printing, and the parts that compute with `f64` numbers (evaluation in the
  tree-walking interpreter, and the machine's arithmetic).
- `tests/` — tests of the library.

## What the contracts say

- `parser::lexing::scan` gives exactly the tokens and errors that
  `scan_from` describes, with spans as byte offsets.
- `parser::parse_str` gives the declarations that `grammar::sp_program`
  describes and the scanner's diagnostics followed by the parser's errors;
  `parse_str_with_ids` does the same, numbering nodes on from where an
  earlier parse stopped. `scan_finishes_on` and `Diagnostic::can_render`
  decide the conditions that scanning and rendering require.
- `Diagnostic::render` gives the text that `spec_render` describes;
  `escapes::law_colour_only_adds_escapes` states that the coloured report is
  the plain one with escape sequences added, and
  `escapes::law_render_clamps_the_span` that a span renders as its clamped
  span does.
- Scanning gives tokens in source order, each naming the text it covers
  (`lexing::law_scanned_tokens_follow_the_source`, and by byte spans
  `parser::law_scanned_spans_follow_the_source`); among ASCII chars exactly
  the letters are alphabetic (`lexing::alphabetic`); parsing never halts
  (`progress::lemma_program`).
- `parse_str_with_ids` hands each node of the program an id from the window
  of ids it took from its `NodeIds`, no id twice while that window is no
  wider than the `u64` ids.
- `interpreter::resolver::resolve` records the distances, and reports the
  errors, that `res_decls` describes; `law_innermost_is_nearest` states that a
  name resolves to the nearest scope declaring it.
- Environments: looking a name up after defining or assigning it gives the
  value stored (`law_get_after_define`, `law_get_after_assign`), defining
  a name leaves older environments as they were, and assigning a bound name
  updates its binding in place.
- The resolution table gives each node the distance last recorded for its
  id (`law_resolve_gives_the_last_record`).
- Bytecode: reading what was written gives it back.
