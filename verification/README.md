# blitz_notepad

A Notepad-compatible text editor. Its core is a library verified with Verus;
`app/` is the program around it.

## The library

- Documents: `piece_table`, `line_index`, `reindex`, `document`, with the laws
  about editing, undoing and saving in `undo_laws` and `save_laws`.
- Text: `encoding` (UTF-8, UTF-16, Shift_JIS), `text`, `text_units` (emoji and
  characters as they are shown), `date_time`, `search`, `scan`, `sorting`.
- The editor: `app` with its laws in `app_laws`, `settings`, `ui`, `error`.
- Windows: `gui` (what a window remembers), `scroll`, `wrap`, `pointer`, `mouse`,
  `menu`, `input`, `keys`, `commands`, `dialog`, `windows`, `jobs`, `web`.
- Pictures: `ruler` (how wide text is, in parts of a pixel), `glyphs`, `sketch`
  (a picture as a list of marks), `draw`, `frame`, `canvas`, `picture`.
- Printing: `print`.

Each type has a mathematical value (`...Model`) that the contracts speak of; a
function that changes something says what the new value is as a function of the
old one. Proof functions named `law_...` state what holds across functions.

Work that leaves the program is not done by the library. A command returns an
`Effect` for the program to carry out, and the program hands back what came of
it.

## The program

`app/` opens windows, reads and writes files, loads fonts and measures glyphs,
draws text, and talks to the clipboard, the printer and the browser. Text is
drawn with floating point numbers, which the library does without: it works with
the widths that the program has noted on the `Ruler`.
