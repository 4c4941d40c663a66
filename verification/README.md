# vimtelligence

The core of a modal terminal text editor, verified with Verus.

- `src/parser.rs` — the grammar of Vim-style commands (`3dw`, `ciw`, `dd`, `gg`, ...).
- `src/debouncer.rs` — remembers the last characters typed in insert mode and finds a
  structural command they end with; typing on after the command cancels it.
- `src/buffer.rs` — the text buffer (a `ropey::Rope`) as a sequence of characters, and its
  lines as Ropey cuts them.
- `src/editor.rs` — the editor state, what keys do in each mode, and the structural
  commands `dd`, `ciw`, `diw` and `daw`.
- `src/ai.rs` — turns a request in natural language into a structural command.
- `src/layout.rs` — what the screen shows: highlighted lines, scrolling, cursor, status, and
  the pieces that a graphical front end draws with a block cursor.
- `src/syntax.rs` — syntax trees from tree-sitter, the leaves to highlight, the node at a
  byte and the nearest enclosing bracketed node.
- `src/keymap.rs` — keys of a graphical toolkit as editor keys.
- `src/text.rs` — character classes and string helpers.

`app/` is the terminal program around the library: the event loop, drawing with ratatui,
files, and the assistant task.
