# diskvis

A terminal disk usage visualizer whose logic is verified with Verus.

`diskvis` scans a directory tree and shows where the space went: as a tree, as
bars, as a treemap or as a flat list of the largest files. On a terminal it is
interactive, with mouse support, a path picker, a permissions inspector, a popup
for new files and directories and a small text editor; elsewhere it prints plain
rows or JSON.

## Layout

- `src/` is the library: everything that decides or computes something, with
  contracts that are proved.
  - `walker` – which entries are scanned, how they become a tree, glob patterns
  - `display` – the rows of each mode, sizes, colors, the treemap
  - `tui` – the state of the screens, what keys and the mouse do to it, and
    what is drawn (`tui::draw`)
  - `editor` – the document, its undo history, keys, columns and rows
  - `config`, `cli`, `plain`, `splash` – settings, options, plain output and the
    box that is shown during a long scan
  - `binary64`, `bytes`, `text`, `order`, `paths`, `stamp`, `style`, `layout`,
    `lists`, `keys` – what the others are built on
- `app/` is the program: the terminal, the file system, threads and the formats
  of the settings file and of JSON.
- `tests/` runs the library on concrete values.

## How it fits together

The screens are a state machine. An event goes into the state, a new state and
an `Effect` come out: scan this directory, read that file, save the settings.
The program does it and hands the outcome back. Directories are scanned in the
background; meanwhile a tree that was kept, or an empty one, is shown. Drawing gives a list of widgets,
which the program paints.

Every state has a mathematical form (`AppView`, `EditorView`, `SpotlightView`
and so on), and contracts say what an operation does to it. What holds of the
operations together is stated in public proof functions, such as
`undo_reverts_edit`, `stale_answers_are_ignored` or `only_main_screen_quits`.

Calls into other crates stand behind small functions marked `external_body`.
Their doc comments say which function is called and what is claimed of it.

Percentages, bars and blocks are shares of `u64` sizes. They are computed in
`binary64`, which rounds as the floating-point numbers of that name do.

The library holds paths as text. A name that is not UTF-8 is shown with
replacement characters, and the program remembers which path that text stands
for, so that it can be entered, edited and inspected like any other.
