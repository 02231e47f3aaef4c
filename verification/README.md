# zenith_scene

The decision logic of a scene compiler, written in Verus and proved against
its contracts.

## Layout

- `src/` — the verified library:
  - `color` — sRGB hex colour parsing (`#rrggbb`, `#rrggbbaa`), with laws on
    case-insensitivity and the opaque shorthand.
  - `ir` — the style vocabulary of the display list (line caps and joins,
    stroke alignment, fill rules, paints and gradients, mask shapes, image fit
    modes) and the choices made when it is serialised. Gradient geometry is
    held as `f64` bit patterns and compared with IEEE equality.
  - `imports` — the import graph (a map from import id to document, kept in
    ascending id order) and the parsing of `source="<import>#<target>"`.
  - `chain` — grouping chained text nodes into chains and the widow/orphan
    adjustment of the cut between two boxes.
  - `table` — HTML-style table cell flow with `colspan` / `rowspan`.
  - `anchor` — nine-point grid anchors for connectors.
  - `overflow` — the text overflow policy, its findings, and the
    shrink-to-fit search as a step function.
  - `text` — character-level string comparison shared by the above.
- `tests/` — tests on concrete values.
- `app/` — ordinary Rust around the library: the serialisable copies of the
  library types, and the floating-point geometry (anchor points, table cell
  rectangles, line-height accumulation, the autofit driver) that hands its
  discrete choices to the library.
