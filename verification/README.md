# samply_core

A verified core for a sampling profiler and its symbolication service,
written in Verus.

`src/` holds the library, all of it verified by Verus; its public functions
carry `requires` / `ensures` contracts:

- `symbols`, `compact_symbol_table`, `looked_up_addresses`, `symbolicate`,
  `api`, `v5`, `source`: symbol tables, per-address lookups, and the
  requests, responses and decisions of the symbolication, source and
  disassembly APIs;
- `macho`, `windows`, `pdb_info`, `dwarf`, `debug_id_ext`: the decisions taken
  on the data of Mach-O files, PDB files (breakpad IDs, symbol maps, inline
  ranges, frames, type sizes, and the signatures of functions and inlined
  functions) and build identifiers;
- `gecko_profile`, `profile_order`, `sampler`, `thread_sampling`,
  `stackwalk`, `proc_maps`, `kernel_error`: the profile being recorded
  (interned strings, frames, stacks and the order of its lists), the sampling
  loop's bookkeeping, frame-pointer stack walks and library lists;
- `path_mapper`, `shared`, `text`, `seqs`: paths of source files, file access,
  text helpers and sequence lemmas.

Calls into outside crates (`uuid`, `debugid`, `regex`, `memchr`, `bitvec`,
`range-collections`) go through small trusted wrappers whose contracts state
what those crates document.

`app/` is ordinary Rust around the library: reading PDB files (with `pdb`)
into the library's records, JSON for
requests, responses and profiles, and the messages of kernel errors.
`tests/` runs the library on concrete values.
