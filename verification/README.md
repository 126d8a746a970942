# lynchpin

Layout of documents for a character terminal.  The layout steps that the
library holds are stated in `requires`/`ensures` contracts and proved by
Verus.

Sizes and positions are whole numbers of cells (`scalar::TermScalar`,
which also has the two infinities and an undefined value).  Frames
(`frame::TermFrame`) hold positioned text, rules, shapes and nested frames
and render into a cell grid (`grid::TermGrid`) and then to ANSI text.

- `scalar`, `geom`, `style`, `text`, `config`: numbers, sizes and points,
  cell styles, text widths, rendering modes.
- `frame`, `grid`, `regions`: frames, the cell grid, regions to lay out in.
- `flow`: distributing laid-out blocks over regions.
- `inline`: paragraphs (greedy wrapping, justification), line breaking of
  links, CJK punctuation classes, inline boxes.
- `math`: math runs with automatic spacing, delimiters, fractions, roots,
  scripts and limits, matrices, large operators.
- `lists`, `pad`, `repeat`, `shapes`, `image`, `pages`: the other
  layout elements and the finishing of pages.

Not held here: the table and grid layouter, stack layout, optimized
(Knuth–Plass) line breaking and hyphenation, text shaping and decoration,
and the realization of typeset content into these inputs.  The grid
layouter's own arithmetic is mostly whole cells, but it walks the resolved
cell grid of the typesetting engine (cells, spans, repeated headers and
footers, and the line segments that engine generates) and shares
fractional rows in floating point; stack layout shares fractional spacing
the same way; line breaking, shaping and decoration work on fractional
lengths throughout.  The library takes their results as laid-out frames
and whole-cell sizes.

`app/` holds the adapters to crossterm styles, Unicode math classes and
floating-point lengths.  `tests/` exercises the library on concrete inputs.
