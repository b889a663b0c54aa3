# ccze_rs

A streaming log colorizer and verification pipeline, with optional Linux
integration (kernel modules, LSM policy, seccomp, XDP, zRAM, cgroups,
transactional rollback, fleet gossip).

## Layout

- `src/` is the library, verified with Verus: log parsers and rendering,
  severity detection, the service protocol state machine, record framing,
  the vector file format, seccomp filters, LSM rules and capability parsing,
  kernel-module task state machines, XDP filters, gossip bookkeeping, zRAM
  pools and snapshots, rollback attempts, configuration reading, values and healing
  plans. Contracts state each function's result; `law_*` proof functions
  state properties that relate several operations.
- `app/` is the `ccze` program: standard I/O, the command line, the
  floating-point statistics (analytics, state-vector features, jitter,
  scheduling energies), and the drivers that run commands, read files and use
  the network on the library's behalf.
- `tests/` exercises the library on concrete inputs.

Floating-point figures that the library stores or passes on (severities,
entropies, ratios, thresholds) are held as IEEE 754 bit patterns; all
arithmetic and comparison on them happens in `app/`.
