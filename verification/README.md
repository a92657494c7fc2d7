# gpuflo

A read-only AMD GPU instrument for Linux. The decision logic is a library
verified with Verus; the binary around it only performs I/O.

- `src/` — the verified library: `gpu_metrics` decoding, sysfs and procfs
  text parsing, discovery and topology decisions, process attribution,
  freshness cells, the per-GPU reducer (sample routing, production ticks,
  session windows and peaks, health assembly), the daily summary, health
  priority, the monitor's schedule and mailbox,
  command-line and configuration resolution, session state of the
  interactive surface, presentation text, and exit codes.
- `app/` — the binary: argument splitting, file reads, the AMD SMI loader,
  the monitor thread, the daily summary file, JSON and line output, and the
  terminal interface.
- `tests/` — tests of the library's public functions on concrete values.
