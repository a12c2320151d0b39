# mdview

A terminal Markdown viewer. The library under `src/` holds its logic, proved
with Verus; the program under `app/` reads files, draws with ratatui and runs
the event loop.

## Layout

- `src/text.rs`: strings as character sequences: UTF-8 byte lengths, byte
  slicing, words, lines, decimal numbers.
- `src/style.rs`: colors, styles, spans and lines.
- `src/theme.rs`: dark and light themes, chosen from `COLORFGBG`.
- `src/markdown/`: the Markdown event stream (pulldown-cmark), the rendering
  model (`model.rs`) and the renderer proved against it (`parser.rs`),
  tables, the style stack, and syntax highlighting of code blocks (syntect).
- `src/search.rs`: case-insensitive search over the rendered lines.
- `src/ui/`: what each widget shows: the document with search hits and the
  focused link, the status line, the search line, the error box, and the
  file list.
- `src/app.rs`: the viewer state and its answer to keys, mouse events, loaded
  files and highlighted blocks, as a transition function with its laws.
- `app/`: `main`, terminal setup, drawing, the event channel, file reading,
  directory listing, the file watcher and opening links.
