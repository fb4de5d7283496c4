# brows

A browser picker for Windows 11: when a link is opened, it asks which
installed browser (or Chromium profile) should open it, unless a URL rule
or the default browser settles the choice.

The decisions of the program are a library verified with Verus (`src/`):

- `browser` — reading browser registrations (`shell\open\command`, display
  names), merging machine and user registrations, Chromium profiles from
  `Local State`, grouping for the picker, launch arguments.
- `config` — the settings: URL rules and the saved browser order (a stable
  sort by position, unlisted browsers last).
- `ipc` — the line protocol on the named pipe between a resident instance
  and the processes that forward links to it, with its round-trip laws.
- `updater` — version comparison, the once-a-day check, the update state
  machine and the checks on a downloaded executable.
- `ui::picker`, `ui::settings`, `ui::tray` — the state machines and
  decisions behind the windows and the tray icon.
- `registry`, `lang`, `icon`, `cli`, `util`, `text`, `version` — registry
  writes for the registration, texts, pixel conversion, command line,
  small JSON lookup, character-level text primitives, version numbers.

`app/` is the Windows program around it: Win32 calls, the named pipe, the
registry, eframe windows, the settings file (serde/toml) and the update
download. `tests/` runs the library on concrete values.
