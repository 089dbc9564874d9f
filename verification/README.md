# cao_lang

The data structures of the Cao-Lang language, verified with Verus: the program
representation that the compiler reads (modules, functions, cards and card
indices), the translation of cards into bytecode (`compiler::codegen`: each card's
code, with its scopes and locals, global variable ids, patched jumps and calls
resolved by name), the
hash tables of the runtime, bytecode encoding, instruction
decoding and disassembly, and the bookkeeping of the allocator.

- `src/` is the verified library. Each public function states its behaviour in
  `requires` / `ensures` over spec functions and views; the laws that relate
  several functions are public proof functions.
- `tests/` exercises the library.
- `app/` holds what Verus does not take: the serde mirrors of the library types,
  JSON reading and writing, printing, and the walk over the card tree.

Not in the crate: the virtual machine that runs compiled programs, the
flattening of a module tree into functions that feeds the compiler, and the
compilation of closures.
