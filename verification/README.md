# Minecraft panel

The logic of a panel that manages Minecraft servers on Docker Compose, verified with Verus.

- `src/` is the library: server definitions and their compose files, the backup sidecar, the
  console and the events read off it, the file browser, accounts, sessions and who may ask what,
  the dialogues of the first run. Every function states in its contract what it returns; what
  holds of several functions together is stated by the public proof functions named `law_…`.
- `tests/` runs the library on concrete values.
- `app/` is the program around it: HTTP, SQLite, Docker, files, the terminal and the clock. It
  reads, hands over what was read, and performs what the library decides.

What the library takes on trust stands next to the calls: of other crates in `json`, `patterns`,
`urlcode`, `docker::read_time` and `registry::random_u32`; of the standard library in `text`
(`String::push`, `String::push_str` and text read from bytes).
