# ratodo

A todo list that is still just a Markdown file, with a terminal view beside
it. This crate is the library behind it, written in Verus: the parser and
writer for the file, the capture syntax (`@tomorrow`, `#tag`, `!high`), the
agenda, the calendar export, the theme file, the list on screen, the input
box and the add form, and what each key does. Each of them has a contract,
and Verus proves the code meets it.

## Layout

- `src/` is the verified library. The calendar arithmetic and date parsing
  are chrono's and the display widths are ratatui's, reached through small
  wrappers in `date.rs` and `ui.rs` whose contracts say what the library
  relies on.
- `app/` is the program around it: argument handling, the files on disk
  (reading, the atomic write, the check for an outside edit, the backup),
  `$EDITOR`, the file watcher, the terminal and the drawing. It performs
  the work the library hands back and nothing else:
  - `tui.rs` runs the event loop. The decisions are
    `session::Session::on_key`'s; the loop reads keys, performs the
    `Effect` that comes back and writes the files a `live::Step` asks for.
  - `draw.rs` turns the pieces that `layout` and `Form::layout` lay out into
    ratatui widgets, and draws the frames, the borders and the cursor.
  - `files.rs` and `main.rs` hold the file and command-line I/O.
- `tests/` runs the library on concrete values.

A `$word` in a capture picks the list it goes to (`$work` or `$work.md`
for `work.md`); without one it goes to `todo.md`, or the first list. The
word never lands in the file, an edit refuses one, and a word naming no
open list is refused rather than creating a file.

The statistics screen is not implemented: `s`, `1`, `2` and `3` do nothing.
