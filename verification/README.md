# steer

The logic of the Steer coding agent's terminal UI and workspace tools,
written in Verus with its behaviour stated in contracts and proved.

- `src/` is the verified library: chat scrolling state and viewport layout,
  conversation branches, the chat list built from them and the row widget
  each entry is drawn with, inline image
  attachments, slash commands, the edit engine, file reading, text, glob and structural
  search, environment summaries and their cache, and the conversion of
  remote replies.
  Calls into outside crates (base64, image, regex, grep-regex,
  grep-searcher, glob, ast-grep) stand behind small trusted wrappers whose contracts say what
  the library relies on.
- `tests/` runs the library on concrete values.
- `app/` is a small command-line front end that does the file-system work
  and hands plain values to the library.
