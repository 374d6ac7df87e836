# webtop

A macOS system monitor served as a web dashboard: CPU, GPU, memory, disk,
network, power, processes, a "largest folders" view and a panel for the
services a stack declares in a manifest.

## Layout

- `src/` — the library, verified with Verus. It holds every decision the
  program makes: parsing `ps`, `launchctl` and `ifconfig` output, and reading
  the `system_profiler` reports once `app/` has decoded their JSON; counter deltas and saturating totals; the directory-size walk as a
  state machine and its budgeted variant; scan scheduling and claim
  arithmetic; ring-buffer history; rollup statements and bucket arithmetic;
  calendar buckets for the history views; log rotation; the LaunchAgent
  plist; request validation for the HTTP endpoints.
- `app/` — the binary around it: command line, sampling through sysinfo,
  macmon and the I/O Registry, SQLite, the axum server, and the threads that
  open directories for the walk. Floating-point readings (utilisation,
  power, energy) stay here.
- `tests/` — tests of the library, including a simulated filesystem that
  drives the directory walk.

Contracts are stated over `Seq`, `Map` and spec functions; properties that
span several calls are public proof functions named `law_*`.
