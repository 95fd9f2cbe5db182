# bump_scope

A bump allocator with scopes and checkpoints, and fixed-capacity collections
whose memory is accounted for in it, written in Verus and proved against its
contracts.

## Layout

- `src/` — the verified library.
  - `raw_chunk`, `bumping`, `align`, `layout`, `chunk_size`, `chunk_list`:
    chunks, the arithmetic of a single bump, and the chunk sequence with its
    invariant (well-formed, disjoint, ever larger chunks).
  - `raw_bump`: the allocator itself — allocation, preparing room without
    moving the bump position, checkpoints, `reset_to`, `reset`, claiming.
  - `mut_bump_scope_guard`: scope guards that restore the allocator.
  - `stats`: statistics over the chunks (`allocated + remaining == capacity`).
  - `fixed_bump_vec`, `fixed_bump_string`, `mut_bump_vec_rev`: collections;
    `owned_slice`, `owned_str`, `mut_bump_vec`: their iterators and drains.
  - `unicode`, `from_utf8_error`, `from_utf16_error`, `range`,
    `one_sided_range`: UTF-8 handling, errors and index ranges.
- `tests/` — tests run against the compiled library.
- `app/` — what the library cannot hold: base allocators over the system
  allocator and `allocator-api2`, panicking constructors, and `serde`
  support.
