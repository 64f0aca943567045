# slotted

Slotted-e-graph support for a rule-based e-graph engine, verified with Verus.

Terms that differ only in the names of their free slots should share an
e-class. This library holds what the engine needs for that:

* `src/sort/`: the container sorts of maps and vectors with their primitives,
  among them the algebra of renamings (`compose`, `inverse`, `map-union`,
  `find-mapping`, `shape`, `apply-mapping`). `operations.rs` ties each registered
  operation to the function it stands for.
* `src/slotted_encoding/`: the pass that turns an ordinary program into slotted
  form. `model.rs`, `machinery.rs` and `program.rs` say as mathematical functions
  what a program becomes; `slotted_encoding.rs` computes it.
* `src/ast.rs`, `src/text.rs` and `src/names.rs`: the syntax that the pass reads
  and writes, its text, name tables and fresh names.

The laws of the library are public proof functions: those of renamings in
`sort/renaming.rs`, of numberings in `sort/numbering.rs`, of the container
primitives in `sort/laws.rs` and `sort/operations.rs`, and of the encoding in
`erasure.rs`, `rules.rs`, `slots.rs`, `meaning.rs`, `size.rs` and `laws.rs` under
`slotted_encoding/`.

`app/` adds the debugging output that `SLOTTED_DEBUG` switches on.
