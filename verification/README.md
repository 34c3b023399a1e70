# rlox

Two implementations of Lox from *Crafting Interpreters* — a tree-walking
interpreter and a single-pass bytecode compiler with a stack VM — plus a
runner for the official Lox script suite.

The library (`src/`) is verified with Verus: its functions carry
contracts, almost all of them stating the exact result, and the proofs
are checked by the verifier.

- `scanner`, `parser`, `resolver`, `ast`, `token`, `error`: the tree-walking
  front end. The scanner and parser are specified by a lexical grammar and a
  grammar over token models; the resolver by a functional model of its
  scope walk.
- `vm_scanner`, `compiler`, `compile_model`, `chunk`, `debug`: the bytecode
  front end, its instruction set and the disassembler. `compile_model`
  states, as functions on a model of the compiler's state, the code and the
  errors that compiling a source text yields; the compiler is proved to
  produce exactly that.
- `directives`, `suite`, `tally`: the script-suite runner's decisions —
  expectation comments, which scripts run, whether a run meets its
  expectations, per-directory counts.
- `text`, `lexical`, `status`: shared helpers.

`app/` is ordinary Rust around the library: the REPLs and file runners, the
two evaluators (their values are floating-point numbers, which the verified
library does not hold) and the process-spawning side of the suite runner.
`tests/` exercises the library.
