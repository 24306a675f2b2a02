# swcat

`swcat` renders a text file as a scrolling "opening crawl", in the terminal or
in a window.

- `src/` is the verified library:
  - `text`: tab expansion, ASCII sanitising, line splitting, width limiting
    and word-aware wrapping (`expand_tabs`, `process_lines`), with the laws
    they keep (printable output, widths respected, no text lost in wrapping).
  - `content`: the lines each front end shows, under the file's title.
  - `crawl`: geometry of the terminal crawl band and of the text on each row.
  - `layout`: terminal rectangles and centred placement of the prologue and
    the logo.
  - `stars`: the deterministic starfield.
  - `session`: the phases of the terminal crawl and what keys do in them.
- `app/` is the program around it: argument parsing, file reading, drawing
  with ratatui and macroquad, timing, and everything computed in floats.
- `tests/` runs the library on concrete inputs.
