# postfix_processor

An interpreter for PostFix, a small stack language, written in Verus.

A program has the form `(postfix N (c1 c2 ...))`: it takes `N` integer
arguments and runs its commands on a data stack whose top holds the first
argument. Commands are integer literals, `add sub mul div rem`, `lt gt eq`,
`pop swap sel nget exec`, and executable sequences `( ... )`. The answer is
the integer left on top of the data stack.

Layout of `src/`:

- `ast.rs` — commands and values, with their mathematical models.
- `grammar.rs` — the grammar of programs as specification functions.
- `parser.rs` — the reader, proved to follow the grammar; syntax errors are
  displayed with `pest`'s error renderer.
- `semantics.rs` — the small-step semantics as specification functions.
- `interpreter.rs` — the machine, proved to follow the semantics, and the
  trace of the configurations a run passes through.
- `text.rs` — the text of numbers, commands, values and configurations.
- `laws.rs`, `reading.rs` — properties across steps and runs, and the proof
  that the text of a program reads back as the same commands.

`app/main.rs` is the command-line program:
`postfix <file> [args...]` or `postfix -e "(postfix N ...)" [args...]`.
