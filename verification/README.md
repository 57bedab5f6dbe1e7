# fff_tui

A fuzzy file picker for the terminal: type a query, browse file-name and
content matches, pick one or several results and print their paths.

- `src/` is the library, verified with Verus: query editing with a byte
  cursor, result navigation and multi-selection, the key-press state machine,
  the assembly of search results (ordering, filtering, grouping by file),
  fuzzy-match highlighting, the layout of result rows and of the other parts
  of a frame, and the command-line decisions. `laws.rs` and `search_laws.rs`
  hold the properties that relate several operations.
- `app/` is the program around it: argument parsing, the search backend
  (`fff-search`), terminal handling, drawing with `ratatui`, and the event
  loop.
- `tests/` exercises the library on concrete values.
