# oryxis_terminal

The logic of a terminal-emulator widget, written in Verus: every function
under `src/` carries a contract that Verus proves, and the `law_*` proof
functions state the properties that hold across calls (no clipboard text
can end or reopen the bracketed paste, switching Privacy Mode changes masking
but never colouring, a hyperlink cell never opens scraped text, the viewport
never leaves the scrollback, ...).

- `src/` is the verified library. The emulator's grid reaches it as a
  `GridView` of plain cells; colours, mouse modes and pointer events as small
  enums of its own.
- `app/` is the ordinary Rust around it: alacritty's `Term` and its parser,
  the PTY, the clipboard, the pixel geometry (floating point) and the glue
  that hands the library plain values.
- `tests/` runs the library on concrete inputs, including a small emulator
  that lays text out the way the grid holds it.
