# devsecrets

A terminal UI and command-line tool for local development secrets, organised
by project and environment, with a verified core.

- `src/` is the library, written in Verus: the store model and its commands,
  `.env` parsing and writing, reference resolution, the fuzzy matcher, the
  folder assignments, path handling, and the state machine of the interactive
  interface (with its in-app editor). Every function there carries a contract
  that Verus proves; the public `law_*` proof functions state properties that
  span several operations (what a read gives back after a write, that
  entries written as `.env` read back the same, whatever the values hold
  (quotes, backslashes, newlines, JSON), for keys that are non-empty, trimmed,
  free of `=` and newlines, and start neither with `#` nor with `export `; that each key press keeps the
  selection inside its pane, …).
- `app/` is the program around it: argument parsing, files, terminal drawing
  and key events, prompts, and the clipboard tools.
- `tests/` exercises the library on concrete values.

On the command line, `secret list` prints each `KEY=value` as stored
(`--mask` hides the values), and `secret set --type number|json` refuses a
value that is not a decimal number or not valid JSON; the declared type is
kept with the environment and applies to later `set`s of that key.
