# starry_modules

Kernel logic with Verus contracts: user memory areas and their page-table
work, address-space checks and copy planning, copy-on-write and file
mapping decisions, physical frame reference counts, socket options and
state machines (TCP, UDP, Unix, vsock), the TCP listen table and port
allocation, IP packet headers and routing, the reverse-echo service's
replies, address text and parsing, the log line format, and
per-CPU IPI event queues.

- `src/` is the verified library. Operations that touch hardware or other
  kernel services return the work to do (`MemOp`, `SyncOp`, decisions and
  plans) instead of doing it.
- `app/` holds what stays outside verification: the `log` front end, the
  IPI callbacks (boxed closures), the global frame table, the namespace
  section of the linker, the loop that carries out `MemOp` work and page
  faults, the router's packet loop over the network devices, UDP send and
  receive over the stack, and the reverse-echo service's socket loop.
- `tests/` runs the library on concrete values.
