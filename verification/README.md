# doc_viewer

The core of a multi-format document viewer, written in Verus: every parser,
styling rule, numbering scheme, number format and font choice is a verified
function with a contract over a mathematical model of its input.

- `src/` — the verified library. XML tokens (`quick-xml`), ZIP entries
  (`zip`), image decoding (`zune-png`, `zune-jpeg`), shaping and cmap
  coverage (`rustybuzz`) and workbook sheet names (`calamine`) come in
  through small trusted items; everything that decides what a document
  contains is verified against them. Each XML parser also has a
  `..._events` form that takes the token list itself, with the same exact
  contract over that list.
  - `chars`, `color`, `script`, `text` — characters, colours, script classes,
    fonts and the choice of a font per character.
  - `markdown`, `rtf`, `odf`, `csv`, `flow` — flowed text formats and
    delimited text.
  - `xml`, `package` — the token stream, ZIP parts and relationships.
  - `wordbody`, `wordstyle`, `numbering` — Word bodies, style inheritance
    and list numbering.
  - `sheet`, `xlsx` — spreadsheet references, number formats, worksheet
    geometry and cell formats.
  - `pptx`, `image` — slides and pictures.
- `app/` — the viewer around the library: lengths in pixels, line layout,
  pagination, painting with `tiny-skia`, glyph outlines with `skrifa`, and
  the WebAssembly bindings.
- `tests/` — tests run against the compiled library with the real outside
  crates.
