# keefuzz

`keefuzz` picks an entry from a KeePass database with `fzf` and copies its
password to the clipboard (or prints it with `--print`).

The logic is a Verus-verified library under `src/`:

- `item` — the line that lists an entry (group path and display name, URL,
  username, notes; TAB-separated, NUL-terminated, fields sanitized).
- `preview` — the preview text for a listed line.
- `entries` — a plain model of the database's groups and entries, and the
  walk that collects the entries holding a password.
- `order`, `listing` — the order of entries and the finder's input.
- `finder` — what the finder's exit code and output mean.
- `cli` — the command line, read through lexopt.
- `key` — the password in a password file, and the keys built from it.
- `text` — character-level helpers.

`app/main.rs` is the program around it: terminal, files, clipboard and the
`fzf` process.
