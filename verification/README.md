# ui4

The bookkeeping behind a fine-grained reactive UI: which update functions are alive and
scheduled, the tracked vectors whose changes reach their mirrors as diffs, the children
that follow an observed value, hierarchy queries for layout, pointer interaction and focus,
text box editing, the splitting of text into runs by section and font, transitions out,
and widget documents written in KDL.

- `src/` is the library, verified with Verus. Each module states its behaviour in
  `requires`/`ensures` contracts over mathematical models; the laws that relate several
  operations are public proof functions (`law_*`).
- `tests/` runs the library on concrete values.
- `app/` holds what stays outside the verified code: the process-wide id counter, the frame
  loop that runs update functions, the `String` side of text boxes, glyph layout at pixel sizes, and the error messages
  of the document loader.
