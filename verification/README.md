# sysmon

A terminal system monitor: CPU, memory, network and disk charts, a process
list with filter, sort and kill, a concurrent TCP port scanner and a Git
repository analyser, in one TUI.

The crate is a Verus library with a thin program around it.

- `src/` — the verified library
  - `controls` — the state machine of the interface: what each key press,
    mouse event, scan or analysis message and refresh does, with the laws
    that every state keeps
  - `scanner` — host and port lists, service names, presets, the scan work
    list and the order of the results
  - `gitanalyzer`, `tally` — what is read of each commit and the running
    totals that become the repository statistics
  - `procs`, `ranking`, `order`, `paths` — filtering and ordering of
    processes, a stable merge sort by key, path completion
  - `history`, `display`, `units`, `calendar`, `text` — chart buffers,
    screen layout helpers, byte sizes, dates and text helpers
- `app/` — terminal I/O (crossterm, ratatui), system readings (sysinfo),
  repository reading (git2), threads and sockets
- `tests/` — tests of the library
