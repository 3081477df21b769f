# logic_mesh

The verified core of a reactive block engine. Blocks are small units of
logic (timers, schedules, string and parsing blocks) wired together by
links; an engine runs each block as a task and moves values along the
links.

`src/` is the library, checked by Verus:

- `calendar`, `schedule`, `text` — civil dates, local time, occupancy
  windows, day masks and the text parsing they need;
- `timers`, `misc`, `strings` — the blocks' per-cycle state machines and
  computations;
- `desc`, `catalog`, `registry` — block descriptors, the built-in blocks and
  the registry that resolves names to block kinds;
- `pins`, `inputs`, `engine`, `connectors`, `ids`, `clock` — a running
  block's pins and links, input draining, the engine's block table and link
  checks, connector bookkeeping, block ids and the clock;
- `laws` — properties that span several operations.

`app/` is the engine itself on tokio: actor tasks, mailboxes, the message
loop, Haystack values and the floating-point blocks.
