# logviewer

A log viewer's core, verified with Verus.

- `src/` is the library: the Loguage query interpreter (`interpreter`,
  `session`, `playground`, `syntax`), the reading of log lines into index
  documents and of documents back into hits (`indexing`, `record`,
  `numeric`), and the shaping of hits for display (`histogram`, `table`,
  `highlight`, `status`), plus a one-value mailbox fed by a channel
  (`mailbox`).
- `app/` is the program around it: the window, the tree-sitter parser of the
  query language, the on-disk index, and file reading.

Searches read the index on disk, so the interpreter does not run them
itself: a `Session` names the next search it needs, the program runs it and
supplies the hits, until the session finishes.
