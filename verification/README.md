# ram_tui

A terminal memory monitor for Linux. The library (`src/`) is written in Verus and
proved against its contracts; the program around it (`app/`) reads `/proc`, `/sys`,
the terminal and the command line, and draws.

## Layout

- `src/text.rs`, `src/ansi.rs`, `src/cellwidth.rs`, `src/format.rs`, `src/civil.rs`,
  `src/clamp.rs`: text building, ANSI escapes, terminal cell widths, byte and time
  formatting, sanitising untrusted names.
- `src/meminfo.rs`, `src/cgroup.rs`, `src/procfs.rs`: parsing `/proc/meminfo`,
  `/proc/swaps`, cgroup limits and the per-process `/proc` files.
- `src/processes.rs`, `src/sorting.rs`: grouping processes by name, PSS/USS
  enrichment and the stable ranking by metric.
- `src/framebuf.rs`, `src/meter.rs`, `src/palette.rs`, `src/themes.rs`,
  `src/layout.rs`, `src/dashboard.rs`: differential frame output, gauges, colour
  palettes, theme and mode cycling, the theme window and the process table rows.
- `src/terminal.rs`, `src/session.rs`: decoding key bytes and the interactive
  session's state machine (selection, search, expansion, kill confirmation).
- `src/diagnostics.rs`: log rotation, the debug switch and the crash report box.
- `src/minimal.rs`: the logic of the single-file prototype.

Laws that relate several operations are public proof functions named `law_*`.

`tests/` runs the library on concrete values; `app/` holds `main`, I/O, the
floating-point drawing code and the serde/clap types.
