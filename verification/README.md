# librojo

The verified core of a tool that keeps Roblox places and project files on
disk in sync, written in Verus.

- `src/` is the library. Every function there carries a contract that Verus
  proves: file-name encoding, reference paths between instances and the index
  of files that hold them, the decisions taken when files or instances change
  (suppressed echo events and their withdrawal after a failed rename, the new
  paths, meta files and `name` field of a renamed file, the file names of a
  class change, the pass that rewrites references after a rename,
  re-snapshots, recovery checks), reading JSON5 text and writing JSON5 with
  sorted keys, git plumbing output and content hashes, minimum-cost
  assignment (cheapest over every matching of the same kind), and
  the choices behind the commands (clone planning, upload modes and polling,
  log file rotation, live-syncback payload layout).
- `tests/` runs the library on concrete inputs.
- `app/` is the command line program around the library: argument parsing,
  logging, running git, and reading and writing files.

Outside crates are reached only through a few small functions whose
contracts are trusted: `sha1` for content hashes, `flate2` for compressing old
logs, `json5` (into `serde_json` values) for reading JSON5 text, and a
handful of standard library calls (`String::push`, `str::to_lowercase`,
`char::is_alphabetic`, `char::is_alphanumeric`, `str::from_utf8`, `{:?}`
formatting of strings, and the kind of an I/O error). `app/` logs through
`tracing-subscriber`.
