# petit

Job definitions, configuration and duration handling for a small task
scheduler, with their parsing and validation rules verified by Verus.

- `src/` — the verified library:
  - `base/` — durations (`"1h30m"` and friends), schedules, retry policies,
    task and dependency conditions;
  - `config/yaml.rs` — the job and global configuration types, job
    validation, and their conversion into the core types;
  - `cli_config.rs` — the command line program's settings and their defaults,
    and where they are loaded from;
  - `parsers/poml.rs` — the markdown job format (POML);
  - `tui/log_overlay.rs` — what the log overlay shows of a task run;
  - `text.rs`, `json.rs` — text and JSON helpers with their specifications.
- `app/` — reading files, serde (YAML, TOML, JSON), and drawing with ratatui,
  around the library.
- `tests/` — tests of the library.
