# shrinkpath

Smart cross-platform path shortening, verified with Verus.

A path string is parsed into a prefix (`/`, `~`, `C:\`, `\\server\share`,
`.`, or nothing), directory segments classified by priority (Identity,
Context, Expendable), and a filename that is never truncated. Four
strategies shorten it: Fish, Ellipsis, Hybrid (the default) and Unique.

Layout:

- `src/platform.rs` — path style detection and separators.
- `src/path_info.rs` — parsing and reassembly, with their specifications.
- `src/strategy/` — the four strategies, each specified exactly. For
  Ellipsis and Hybrid it is proved that the result ends with the filename
  and is no longer than the target whenever the filename alone fits it.
- `src/lib.rs` — options, mapped locations, `shrink` and the convenience
  functions; `src/metadata.rs` — `shrink_detailed` and per-segment metadata.
- `src/laws.rs` — properties of the library as a whole.
- `src/cli.rs`, `src/fs_aware.rs` — the decisions behind the command line and
  the filesystem helpers.
- `src/text.rs` — UTF-8 byte lengths and character-level helpers.
- `app/` — the command-line program and the filesystem-touching helpers.

Lengths are UTF-8 byte lengths, the value `str::len` returns.
