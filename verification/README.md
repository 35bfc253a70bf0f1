# minimacs

A terminal text editor with emacs keybindings. The editing core is a Verus
library whose functions carry `requires`/`ensures` contracts proved by the
verifier; a thin terminal front end drives it.

## Layout

- `src/` — the verified library:
  - `text` — chars, UTF-8 lengths, small string helpers.
  - `history` — undo/redo groups, clean-state tracking, and the laws that
    undo and redo invert each other and restore the text.
  - `buffer` — the rope-backed text, line/column arithmetic, grapheme
    motion, edits recorded in the history, file contents decoding and
    encoding (LF/CRLF) with the save/load round trip.
  - `command`, `keymap`, `input` — commands, the key-chord trie, and how a
    key press is dispatched.
  - `display` — terminal-safe chars, column widths, tab stops, the streaming
    row layout of a line (wrapping, wide glyphs, combining marks) and the
    direct layout of printable ASCII lines, proved to agree with it.
  - `editing` — word motion, vertical motion, kill-line, indentation,
    recentering, paste normalization.
  - `pane` — a window's point, mark and view, and the editing commands
    carried out on the buffer it shows (motion, insertion, deletion,
    kill, region, paste, undo/redo), the mark moving with the text; the
    pane tree of split windows (split, delete, delete others, cycle focus).
  - `buffers` — the buffer list: killing a buffer, the switch target,
    and where each buffer was last shown.
  - `help` — the `describe-bindings` text of a keymap table.
  - `disk` — what a file held when a buffer last read or wrote it (its
    time stamp and SHA-256 fingerprint), and whether it changed since.
  - `isearch` — incremental search state and match navigation.
  - `minibuffer`, `prompts`, `path`, `naming` — prompts and what their
    answers do, path normalization and completion, unique buffer names,
    the quit sequence.
  - `native` — colors, cell styles and key codes for embedding front ends.
  - `order` — the orders used when sorting names.
- `app/` — the terminal front end: the event loop, drawing, file I/O,
  the OS clipboard.
- `tests/` — tests of the library.
