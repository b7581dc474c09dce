# codexswitch_cli

The profile bookkeeping of CodexSwitch, a switcher between saved Codex
accounts, written in Verus. The functions in `src/` carry contracts that
Verus proves, except the small wrappers marked `#[verifier::external_body]`
around calls into `colored`, `serde_json`, `toml_edit` and `String::push`:
their contracts state what those crates document and are trusted, not
proved.

## Layout

- `src/` — the verified library.
  - `labels`, `strmap`: labels naming saved profiles, kept in a string-keyed
    table whose keys never repeat.
  - `index`: the profiles index (per-profile metadata), its labels, legacy
    format detection and the repair plan.
  - `store`, `commands`: the store a command works on, and what save, load,
    label and delete commands change in it.
  - `identity`: account identities, the choice of a profile for credentials,
    and snowflake ids.
  - `order`, `select`: listing order, the candidates offered, and picking
    profiles by label or id.
  - `managed_files`, `paths`: the files a profile manages and where they live.
  - `transfer`: export selection and import checks.
  - `config_snapshot`: saving and restoring selected `config.toml` keys.
  - `json_response`, `json_output`, `entries`, `status`, `details`, `ui`: the
    JSON envelope, error summaries, entry rendering and the `status --all`
    layout, usage helpers, and the steps and texts of fetching usage.
  - `laws`: properties that span several operations.
- `tests/` — tests of the library on concrete values.
- `app/` — file system, terminal and process work around the library: the
  commands (`save`, `load`, `list`, `status`, labels, `delete`, `export`,
  `import`, repair), with usage requests and credential refreshes reached
  through its `Host` trait.
