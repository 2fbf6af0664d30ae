# lox_bytecode_vm

A bytecode compiler and virtual machine for the Lox language, written in
Verus: the scanner, the parser, the compiler and the virtual machine carry
contracts that Verus proves.

## Layout

- `src/value.rs`: NaN-boxed values (`nil`, booleans, numbers, heap references).
- `src/opcode.rs`: the instruction set and its byte encoding.
- `src/chunk.rs`: code, run-length encoded line table, constant pool, and the
  disassembler's reading of an instruction.
- `src/token.rs`, `src/scanner.rs`: tokens and the scanner, specified token by
  token (`spec_token`).
- `src/ast.rs`, `src/parser.rs`: the syntax tree and a recursive-descent
  parser that always terminates and only builds well-formed trees.
- `src/syntax.rs`, `src/grammar.rs`: the contents of trees, tokens and errors,
  and the grammar as spec functions over the items the scanner hands out;
  each parsing function gives what its rule gives.
- `src/heap.rs`: the object heap (a `slab::Slab`) with its string intern table
  (an `FxHashMap`).
- `src/emission.rs`, `src/compiler.rs`: the bytecode each expression,
  statement and program compiles to, and the function objects it stores in
  the heap, as spec functions, and the single-pass compiler that emits it.
- `src/frame.rs`, `src/vm.rs`: call frames and a virtual machine that runs one
  instruction per `step`, each instruction specified exactly.
- `app/`: the `lox` command. It drives the machine: it prints, performs the
  floating-point arithmetic and the native functions the machine hands it,
  parses number literals, and shows errors with their messages.
- `tests/`: unit tests of each part and whole Lox programs.

Floating point stays out of the library: a number is carried as the bits of
its `f64`, and every operation on numbers is handed to the driver as an
`Action`.
