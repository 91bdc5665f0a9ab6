# simple_csv_reader

A CSV reader that shows a file's cells as a table of editable text fields.

- `src/` is the library, verified with Verus:
  - `text.rs`: text as character sequences: search, split, join, replace
    and lines, with their specifications and laws (split then join gives
    the text back; lines hold no line feed; lines joined again give the
    text back but a final line feed).
  - `csv/reader.rs`: a line into cells (`break_line_and_sort`), text into a
    table (`read_buffer_to_table`, `full_read`, `try_full_read`), and
    `multi_split`. A doubled quote `""` in the text stands for one `"`.
    In a line, a quoted cell is written `,"` text `",`; the quoted cells
    are taken out, the rest is cut at every comma, and each quoted cell
    goes back after every plain cell that the line shows right before it.
    A line whose first `",` comes before (or overlaps) its first `,"`
    cannot be cut, and such text is not read.
  - `gui/app.rs`: the table view's state (`App`, `Message`): loading,
    editing a cell, and the layout of cells into rows of `cols` cells.
  - `matcell.rs` and `matcell/`: the editable cell: its text as grapheme
    clusters (`value.rs`), its cursor (`cursor.rs`), editing at the cursor
    (`editor.rs`), and `cell_step`, how it answers clicks, drags, typing,
    keys and the clipboard. Laws: the text changes only on edits, and an
    event sends the table at most one message, one for each change.
- `app/` is the window: it reads the file named on the command line, draws
  the table with `iced`, and in `matcell.rs` measures and draws each cell
  and performs what `cell_step` asks for.
- `tests/` runs the library on concrete inputs.
