# ntix

Declarative package management for Windows: a Lua config names the packages
wanted from winget, Chocolatey and Scoop; `ntix diff` shows what would change
and `ntix apply` installs, upgrades, adopts and removes packages, manages Scoop
buckets and copies managed config files.

## Layout

- `src/` — the library, verified with Verus:
  - `config` reads the value a config script returns (options, package
    lists, config files, `import` arguments, merging imported package lists);
  - `package_manager` builds the shell commands (ids are validated first),
    parses the output of winget, Chocolatey and Scoop, and judges which
    managers are usable;
  - `diff` decides where each declared package goes (install, upgrade, skip,
    adopt, untracked), finds orphans, bucket and config-file changes;
  - `execution` plans each operation and records successes in the state;
  - `report` lays out the diff tree and the state listing, with styles;
  - `str_map`, `text`, `hash` are the supporting pieces.
- `app/` — the program around it: command line, Lua runtime, processes,
  files, locking and colours.
- `tests/` — tests of the library.

## Dependencies

Config files are compared by their SHA-256 digest (`hash::sha256_hex`); the
digest itself comes from the general-purpose `sha2` crate, which the library
calls behind a single trusted function rather than computing SHA-256 itself.
The JSON that `scoop status --json` prints is read with `serde_json`, likewise
behind one trusted function.
