# riasm

A bare-bones assembly-like interpreter for embedding: it has no instructions
and no registers of its own; the embedding program declares every register and
supplies every instruction. The library scans program text into tokens and runs
them.

Layout of `src/` (verified with Verus):

- `text.rs` – character classes, splitting, comment and whitespace handling.
- `number.rs` – reading and writing decimal `i32`s.
- `asm_value.rs` – values, register references and their resolution.
- `asm_instruction.rs` – the `Instruction` trait the embedding program implements.
- `asm_definition.rs` – a definition: declared registers and instructions, errors, halting,
  and the lines of a state dump.
- `run.rs` – executing a token stream, one step per token.
- `scan.rs` – turning program text into tokens; scanning and running in one go.

`app/main.rs` is a small program that declares a few instructions, drives the
interpreter one step at a time and prints what it reports.
