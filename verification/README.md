# bftp

An FTP-style shell for Baidu Netdisk, with its logic verified by Verus.

## Layout

- `src/` — the verified library:
  - `text.rs`: character-level helpers (splitting, joining, trimming, decimal text, integer parsing).
  - `path_utils.rs`: remote path simplification and resolution, local path resolution, and the
    `file_name` / `parent` / `join` operations of Unix paths.
  - `wildcard.rs`: globs, their translation to regular expressions, and the selection of matching entries.
  - `cli.rs`: splitting a command line into words, `bftp config …`, and the account a session uses.
  - `commands.rs`: what each shell command asks for, with its paths resolved.
  - `completion.rs`: completion of command names.
  - `config.rs`: accounts, tokens and settings.
  - `client.rs`: the decisions of downloads and uploads (byte ranges, resuming, block lists, progress files).
  - `requests.rs`: the URLs and form bodies of the HTTP API.
  - `display.rs`: sizes, timestamps, and the lines of listings and search results.
  - `calendar.rs`: the dates that timestamps are shown with are calendar dates.
  - `auth.rs`, `session.rs`, `models.rs`, `error.rs`, `constants.rs`.
- `tests/` — tests of the library against concrete values.
- `app/` — the program: configuration file, HTTP transfers, the terminal and the file system.

The `regex`, `md5`, `urlencoding` and `serde_json` crates are called from the library through a
few trusted wrappers whose contracts are stated next to them; everything else in `src/` is proved.
