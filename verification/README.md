# mini_c

The middle of a compiler for MiniC, a small C-like language, written in Verus:
the abstract syntax tree, the type checker, the generator of three-address code
(TAC) and the identifier grammar. Every function carries a contract that Verus
proves.

## Layout

- `src/ir/ast.rs` — the AST, parameterised by its decoration (`()` before type
  checking, `Type` after), with a mathematical view of every node.
- `src/ir/tac.rs` — addresses, operators and instructions of TAC, and their text.
- `src/semantic/` — the variable and signature environments, the type checker
  (`type_check`, specified by `program_check`), and the laws about what it
  accepts (`properties.rs`): checking only decorates a program, every checked
  expression and statement is well typed, an accepted program has `main`.
- `src/codegen/` — the translation to TAC (`translate_statement`,
  `translate_program`, specified by `tr_stmt`), the checks of which programs it
  translates (`statement_supported`, `program_supported`), and its laws: every
  jump lands on a label of the same code (`properties.rs`); labels and
  temporaries are numbered densely from the counters, every label is defined
  exactly once, and code translated later with the same environment shares no
  name with earlier code (`freshness.rs`); the code of an expression computes
  its value and the code of a condition jumps to its false label exactly when
  the condition does not hold, for every meaning of the operators
  (`semantics.rs`, with a small execution model of three-address code).
- `src/parser/identifiers.rs` — identifiers: a letter or `_`, then letters,
  digits or `_`, reserved words refused.
- `src/text.rs` — decimal text of integers, used by label and temporary names
  and by error messages.

Float constants have no text in `src/`: an instruction that holds one renders
as `None`.
