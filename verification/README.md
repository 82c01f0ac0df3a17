# diskmon_mail

A disk-space monitor for Linux servers: it reads the mounted file systems,
keeps an alert state and a 31-day usage history between runs, and sends an
HTML report by email when a mount point crosses a usage threshold, stays
over it past a cooldown, escalates, or recovers.

The decisions and the text of every report are a library verified with
Verus; the program around it reads the machine, the configuration and the
state file, and talks to the mail server.

- `src/` — the verified library:
  - `severity.rs` usage as an exact ratio, thresholds and severities;
  - `config.rs` the settings and their defaults;
  - `disk.rs`, `df.rs` disk records, and reading `df` output and the
    volumes the system reports;
  - `alert.rs` the periodic check: events, notifications and the next
    alert state, with the laws it keeps;
  - `history.rs`, `trend.rs` the usage history and the growth trends;
  - `summary.rs`, `report.rs`, `format.rs`, `text.rs` the executive
    summary, the HTML report and the number and text formatting;
  - `mail.rs` subject, addresses, SMTP security and retry decisions;
  - `keyed_map.rs` a map kept in key order; `system.rs` the machine's
    description.
- `app/` — the command-line program: configuration (`config.yaml` or
  `DISKMON_CONFIG_PATH`), state file (`diskmon-state.json` or
  `DISKMON_STATE_PATH`), `df` and `sysinfo`, JSON output, and SMTP.
- `tests/` — tests of the library.

Percentages are counted in hundredths of a percent (`8500` is 85%) and
instants in nanoseconds since the Unix epoch.
