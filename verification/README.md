# nucleus

The capability core of the Vesper nucleus, an AArch64 microkernel, written
in Verus: every operation states what it returns and what it does to the
kernel state, and Verus proves the code meets it.

## Layout

- `src/` — the verified library.
  - Capabilities: `key`, `rights`, `object_type`, `error`, `syscall_status`,
    `key_entry`, `key_table` (guarded, incarnation-checked capability
    tables), `table_ops` (`CopyDerive`, `Move`, `Delete`).
  - Objects: `access`, `object_pool` (typed pools with generation-checked
    identities), `store`, `completion` (blocked-invocation records and wait
    queues), `notification`, `event_count`, `sched`, `thread`, `domain`
    (domain control blocks).
  - Architecture: `arch` (AArch64 objects and ASID pools), `page_table`
    (translation-table walks and descriptors), `arch_ops` (`Frame`,
    `PageTable`, `AddressSpace`, `ASIDPool` invocations).
  - The nucleus: `nucleus` (the whole state and its invariant), `retype`
    (`Untyped.Retype`), `sync_ops`, `thread_ops`, `invoke`, `dispatch`
    (capability invocation by kind) and `entry` (the supervisor-call path:
    reply words, parking a blocked caller and choosing whom to resume).
  - `waiter_queues`: the invariant that every queued waiter names a
    distinct waiting record, and proofs that every operation keeps it.
- `tests/` — scenario tests run against the compiled library.
- `app/` — the exception glue: reading the syndrome and registers, writing
  replies into saved frames, and switching stacks.
