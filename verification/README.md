# dyap

A small dynamically typed scripting language: a lexer, a one-pass compiler
to stack-machine instructions, and the machine that runs them, verified
with Verus.

## Layout

- `src/lexer.rs` — the token grammar as a spec function (`lex`) and the
  lexer proved against it.
- `src/compiler.rs`, `src/scope.rs` — the compiler; variable tables are
  `FxHashMap`s from `rustc-hash`, reached through small trusted wrappers.
- `src/value.rs`, `src/arith.rs`, `src/index.rs`, `src/iter.rs`,
  `src/relate.rs`, `src/show.rs`, `src/text.rs`, `src/num.rs` — values and
  what the language does with them, each operation with an exact contract
  over the value's view (`ValueV`).
- `src/vm.rs`, `src/semantics.rs`, `src/machine.rs`, `src/builtins.rs`,
  `src/format.rs` — the machine. `semantics.rs` states what one step does
  (`step_spec`); `VM::step` is proved to do exactly that. Work outside the
  machine (files, standard input and output, the console) is handed to the
  host as an `IoRequest`, and the host's `IoReply` is taken in by
  `VM::resume`.
- `src/laws.rs` — properties relating several operations: reads after
  writes, inverse arithmetic, walking ranges and arrays, symmetry of
  equality and ordering, and others.
- `app/main.rs` — the command-line runner: reads the program file, compiles
  it, and serves the machine's requests with real files and the terminal.

Numbers are 48-bit two's complement integers. Floating-point literals are
recognised by the lexer and compiler, but the machine stops with
`FloatUnsupported` when it reaches one.
