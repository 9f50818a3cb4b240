# kernel

Verified kernel building blocks.

- `src/io.rs`: memory-mapped I/O regions (`IoRaw`, `MMIo`), the offset check
  `offset_valid`, and the accessor traits `IoAccess`, `IoAccess64`,
  `IoAccessRelaxed`, `IoAccess64Relaxed`, whose checked accessors are proved to
  touch the device only at offsets that fit the region and are aligned.
- `src/maple_tree.rs`: `MapleTree`, a map from non-overlapping inclusive index
  ranges to values, changed through the `Guard` that `lock` returns. Contracts
  state what every index maps to after each operation.
- `src/error.rs`: the error codes the two modules return.
- `src/fmt.rs`: decimal text of numbers, for the debug strings of `IoRaw` and `MMIo`.
- `app/lib.rs`: the device side: volatile loads and stores for an `MMIo`
  region, and a `Formatter` adapter for `IoRaw::debug_string`.
