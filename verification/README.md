# oxo_kernel

A small proof kernel for a dependently typed calculus with inductive
families, together with the back end that turns checked first-order programs
into machine code. Every function of the library is verified with Verus
against a mathematical model of what it computes.

## Layout

- `src/term.rs`: terms, inductive declarations, and the syntactic helpers
  (lifting, spines, occurrence and positivity tests).
- `src/value.rs`: values and normalisation by evaluation (evaluation,
  application, recursor reduction, read-back), with a model of values as
  sequences and trees.
- `src/formers.rs`: the types of inductive formers, constructors, recursor
  methods and recursors.
- `src/kernel.rs`: contexts, conversion, type inference and checking.
- `src/signature.rs`: the well-formedness checks on signatures and axioms.
- `src/erasure.rs`: erasure of proofs and types, and normalisation of erased
  terms.
- `src/compile.rs`: compilation of erased first-order programs to a
  first-order intermediate code, and a reference machine for that code.
- `src/lowering.rs`, `src/target.rs`, `src/emulator.rs`: lowering of the
  intermediate code to RV64 instructions, their binary encoding, and an
  emulator for the encoded image.

Evaluation is given a recursion budget; where the budget runs out or a value
of the wrong shape turns up, the functions report a failure (`None` or
`KernelError::Malformed`) rather than diverge or abort.
