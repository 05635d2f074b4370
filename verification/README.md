# machina

A terminal tool for viewing and editing the memory of other processes on
Linux ("Machina Politykiera"). The user picks a process, scans its heap,
stack and anonymous mappings for a value of a chosen type, narrows the
results with further scans, pins addresses and writes new values to them.

The library in `src/` is verified with Verus:

- `kmp` — Knuth-Morris-Pratt search; every occurrence of a pattern is
  found, in increasing order, and nothing else.
- `little_endian`, `scan_value` — values and their bytes in memory, with
  proofs that writing and reading back round-trip.
- `memory_scanner`, `memory_address`, `memory_editor` — first and next
  scans, pinned addresses, the checks before a value is written.
- `input_field`, `type_selector`, `events`, `logger`, `title` — the state
  and decisions of the terminal interface.

`app/` holds what is not verified: the terminal, threads, `ptrace` and
`/proc/<pid>/mem` access, and drawing.
