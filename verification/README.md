# qalam

The core of a small expression language with Arabic keywords and
messages, verified with Verus.

- `src/token.rs`, `src/operators.rs`: token kinds and the operator table
  (precedence and associativity per kind).
- `src/ast.rs`, `src/parser.rs` and `src/parser/`: the expression tree and a
  precedence-climbing parser over a token stream, specified by a
  step-by-step model of the parse (`parser/spec.rs`) with laws about
  precedence and assignment (`parser/laws.rs`).
- `src/value.rs`, `src/chunk.rs`, `src/number.rs`: values (numbers as the
  bits of their doubles), compiled code, and whole-number reading of
  doubles.
- `src/vm.rs` and `src/vm/`: the stack machine: its state and invariant,
  one verified operation per instruction (`vm.rs`, `vm/ops.rs`), a guard
  that decides exactly when an instruction can run (`vm/guard.rs`), a
  dispatcher (`vm/step.rs`) and laws (`vm/laws.rs`).
- `app/`: the instruction loop with calls into natives, and the
  floating-point arithmetic and text of values.
- `tests/`: tests of the parser and the machine.
