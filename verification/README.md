# leap

A modeless, LEAP-driven terminal text editor in the spirit of the Canon Cat.
There are no files: the whole workspace is one continuous text stream kept in
a database, divided into documents by in-band marker characters, and resumed
exactly where you left off. `C-s` / `C-r` leap to text as you type it.

## Layout

- `src/` is the editor's core, verified with Verus:
  - `buffer` — the text stream (a `ropey` rope), cursor and movement, edits
    and their journal, search, document boundaries, display lines;
  - `store` — the append-only edit log: append, resume, undo/redo on the
    parent chain, snapshots;
  - `editor` — key dispatch, kill ring, LEAP sessions, paging, documents, and
    the layout of each frame; `leap`, `echo`, `statusline`, `input`, `view`
    hold the session state, the chrome and the front-end-neutral model;
  - `calc` — the inline calculator's tokenizer and parser;
  - `finder`, `walk` — the file finder's query line, fuzzy ranking (with
    `nucleo-matcher`), selection and layout, and the candidates' order;
  - `hold` — the hold-to-confirm gesture;
  - `workspace`, `tutorial` — what a fresh workspace starts with;
  - `text`, `rope` — string helpers and the contracts of the rope operations.
- `app/` is the terminal program: the command line, the SQLite workspace file,
  the crossterm event loop and drawing, the file-system walk, and the
  calculator's floating-point evaluation.
- `tests/` exercises the library.

There is one front-end, the terminal program. A windowed (GPU-drawn) front-end
is not part of this crate: its drawing, window events and pixel-smooth
scrolling are all outside what the library models.

Each public operation states what it does over plain mathematical values
(`Seq<char>`, `int`, views of each type); the laws of the editor (what a
persisted log resumes, what LEAP never changes, what a kill and a yank
restore, that the finder's ranking is unique, ...) are proof functions next to
the code they speak of.
