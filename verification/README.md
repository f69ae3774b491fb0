# ratatui_plus

A terminal UI toolkit whose logic is verified with Verus.

- `src/` holds the library: rectangles and layout, colors (with degradation to
  the terminal's color level), styles and their SGR sequences, the cell buffer
  and its diff renderer, the canvas drawing primitives, the input byte parser,
  the widgets, the window manager of the desktop and its demo programs, and the
  decisions of the terminal and application runtime. Each public function
  carries a contract; the properties that span several functions are stated
  and proved as `law_*` proof functions.
- `app/` holds what runs around it: terminal I/O through the operating system,
  the event loop with its input thread, the programs of the desktop behind a
  trait object, and the few computations on floating point.
- `tests/` exercise the library on concrete values.
