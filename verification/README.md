# lib: page splitting for HWP documents, verified with Verus

This crate splits the paragraphs of a section of an HWP document into pages
and columns, and computes a few pieces of paragraph layout (bullet and
number heads, colours, baselines). Every function is verified by Verus
against its `requires` / `ensures` contract, except `string_push` in
`src/layout/color.rs`, whose contract (appending one character to a
`String`) is taken as given.

Lengths are integers: HWP units (1/7200 inch) in the document model, and
sub-pixels (1/7200 pixel) once converted at a given resolution. Sums of
lengths are computed exactly and saturate only where an `i64` cannot hold
them (`units`).

## Layout

- `src/units.rs`: length arithmetic and the HWP-unit conversion.
- `src/text.rs`: whitespace and control characters of paragraph text.
- `src/model.rs`: the document model the splitter reads (paragraphs, line
  segments, controls, tables, page and column definitions) and the measured
  heights of a section.
- `src/pagination/`: the page splitter.
  - `types.rs`: pages, columns and the items placed on them.
  - `state.rs`: the splitter's state and its column and page moves.
  - `measure.rs`: reading measured paragraphs and tables.
  - `engine.rs`: what every step of the splitter keeps.
  - `text_lines.rs`: placing paragraphs without tables, line by line.
  - `controls.rs`: placing tables, shapes, pictures, equations, footnotes.
  - `split.rs`: splitting a table by rows over pages.
  - `finalize.rs`: page numbers, headers, footers and hiding.
  - `paginate.rs`: the walk over a section, and its overall contract
    (`paginated`).
- `src/layout/`: bullet characters, CSS colours, paragraph heads and
  automatic numbers.
- `tests/`: scenario tests run against the compiled library.
