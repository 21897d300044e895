# ddev_gui

A desktop dashboard and status-bar indicator for [DDEV](https://ddev.com)
projects. The library in `src/` is written in Verus and verified: it decides
which `ddev`/`docker` commands to run, reads what they print, and builds what
the user sees. The program in `app/` runs the processes and hosts the Tauri
window, tray, notifications and preference file.

- `src/text.rs` — trimming, ASCII lower-casing, line splitting and ordering of
  character sequences.
- `src/json.rs` — the JSON model filled by `serde_json`'s parser.
- `src/ddev.rs` — `ddev` arguments and outcomes, payload extraction, project
  list decoding and its stable case-insensitive sort.
- `src/commands.rs` — lifecycle reports and notifications, terminal choice for
  `ddev ssh`, `ddev config` arguments, `docker ps`/`docker stats` reading.
- `src/tray.rs` — tray menu and tooltip contents, menu selections, lookups.
- `src/prefs.rs` — preferences and the polling interval.
