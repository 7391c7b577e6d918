# fujin

A sidebar plugin for a terminal multiplexer: a list of the panes of all tabs, with the state of
the agents and commands that run in them, and keys to jump, search, mark, preview and end them.

- `src/` is the library, verified with Verus: the state of the sidebar, what each event, key
  and message does to it, and the lines that are drawn. The library asks the host for nothing
  itself; it appends requests to `State::calls`.
- `tests/` runs the library on concrete values.
- `app/` is the plugin around it: it decodes what the host sends, carries out the requests,
  prints the lines, and reads and writes the files of the store.

What the library takes from outside without proof stands in `src/text.rs`, `src/matcher.rs`,
`src/entry.rs`, `src/width.rs` and `src/config.rs`, each with a comment on what is claimed.
