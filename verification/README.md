# SystemL

A user-mode, systemd-compatible service manager: it parses unit files, resolves
their dependencies, supervises services, fires timers, watches paths and hands
off sockets, and serves the `org.freedesktop.systemd1` interfaces on a private
bus. What decides is a library whose behaviour is stated in contracts and proved
with Verus; what reads, writes and waits is ordinary Rust around it.

## Layout

- `src/unit/` — unit names, unit files and their sections, drop-ins, search
  paths. Rendering what was parsed loses nothing, and directives that are not
  supported never keep a unit from loading.
- `src/deps/` — the dependency graph, the order of jobs, and transactions.
- `src/runtime/` — the manager, the steps of a service's life, timers, paths,
  sockets, enabling and masking.
- `src/bus/` — what the bus interfaces answer.
- `src/client.rs`, `src/ctl.rs`, `src/journal.rs` — what the client and the log
  reader print.
- `src/text.rs`, `src/number.rs`, `src/civil.rs`, `src/paths.rs`, `src/keys.rs`,
  `src/text_map.rs` — text, numbers, dates, paths and maps.
- `tests/` — tests on concrete values.
- `app/` — the programs `systeml`, `systemlctl` and `journalctl`: processes,
  signals, files, sockets, the bus.

Facts about the file system and the environment come into the library as
arguments, and what is to be done comes out as plain values. The functions of
other crates that the library calls stand behind small wrappers, whose contracts
say what is taken on trust.
