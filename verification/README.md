# vdl

A compiler for VDL, a small language for writing down a knowledge graph of
entities (axioms, laws, principles, concepts, ...) with typed relationships,
evidence and annotations. The compiler lexes and parses `.vdl` sources,
validates the module against its rules, builds the knowledge graph, answers
queries on it and generates Markdown, JSON, search-index and DOT output.

The library under `src/` is written in Verus: every function states its
behaviour in `requires`/`ensures` over mathematical models (sequences of
characters and bytes, entry sequences for ordered maps) and is proved.

- `lexer/` turns source bytes into tokens with positions (`lex` equals a
  spec `lex_spec`); `lexer/laws.rs` relates the keyword table to the token
  texts, orders the tokens' spans and counts their lines and columns, and
  shows what a quoted literal and its escapes lex to and that the written
  text of a literal or annotation lexes back to it; `lexer/locality.rs`
  shows that lexing is local, so a comment between two pieces of source
  adds no token.
- `parser/` is a recursive-descent parser over the tokens; `parse` equals
  the grammar written as spec functions in `parser/grammar.rs`.
- `validator/` checks type constraints, references, evidence, dependency
  cycles and version format; `validate` succeeds exactly on valid modules
  and otherwise reports every violation together, with their count, one
  line each in rule order. The dependency-cycle check
  reports, exactly, the simple cycles that its colour-marking depth-first
  search meets; `validator/order.rs` shows that each message starts at the
  cycle's smallest id.
- `graph/` builds the graph (`from_module` succeeds exactly on modules
  without dependency cycles, and its error names the cycle that the
  depth-first search of `graph/dfs.rs` meets first), and answers
  breadth-first ancestor and descendant queries. `graph/laws.rs` holds the
  laws that relate these functions.
- `codegen/` produces the text of each output format (the DOT drawing
  with a legend of its colours).
- `cli/` holds the logic of the command-line commands (compiling a set of
  sources, diagnostics, search, subgraph and diff reports).

Calls into `indexmap` and `regex` go through small trusted wrappers whose
contracts state what those crates document.

`app/` is the command-line program around the library: argument parsing,
file I/O, serialisation and error rendering. `tests/` runs the library on
concrete inputs.
