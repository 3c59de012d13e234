# netfly

The core of Netfly, a light tabbed browser shell: tab and session state,
turning typed input into URLs, search-engine shortcuts, rebindable shortcut
settings, bookmarks and quickmarks, host-based ad blocking, userscript
parsing and matching, download bookkeeping, and the `netfly://` bridge that
content pages use to talk to the shell. The library's functions are
verified with Verus against contracts stated over mathematical models
(`Seq`, `Set`, `Map`, and a view of each type); the exceptions are the few
trusted items that call outside code, listed at the end.

## Layout

- `src/` — the verified library.
  - `text`, `strmap`, `encode`, `json`, `glob`, `paths` — strings, an ordered
    string-keyed map, percent-encoding, JSON string literals, the `*` glob of
    `@match` patterns, and the data file names.
  - `browser` — tabs, the active tab, the closed-tab stack and webview ids.
  - `config` — settings, shortcut overrides, and `normalize_url`.
  - `bookmarks`, `sessions`, `history` — bookmarks and quickmarks, session
    contents, and the rules around recording and searching visits.
  - `adblock` — the blocklist format, suffix matching, cosmetic filtering.
  - `userscripts` — the `==UserScript==` header, matching, and injection.
  - `downloads` — the download log, file names and save paths.
  - `navigation` — what a content-webview navigation leads to.
- `tests/` — tests of the library on concrete values.
- `app/` — file, database and network I/O around the library: reading and
  writing the TOML and JSON files, the SQLite history, fetching downloads,
  and the shared state the shell's commands work on.

Calls into outside crates (`url`, `serde_json`, `dirs`, and a few parts of
`std`) stand behind small trusted items (`external_body` wrappers, one
`assume_specification` for `String::push`, and declared outside types) whose
contracts Verus takes on trust; each one's doc comment says what it claims.
