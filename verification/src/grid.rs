//! A dense, rasterised grid of terminal cells and its ANSI rendering.

use vstd::prelude::*;
use crate::frame::{TermGeometry, TermImage, TermShape};
use crate::geom::{Col, Row, TermPoint};
use crate::scalar::TermScalar;
use crate::style::{apply_style, reset_sequence, sgr_sequence, TermStyle};
use crate::text::{char_cols, char_width, chars_of, chars_width, lemma_chars_width_prefix, string_from_chars};

verus! {

/// A single cell in a [`TermGrid`].
#[derive(Clone, Copy, PartialEq, Eq, Structural, Debug, Hash)]
pub struct TermCell {
    /// The character shown in the cell.
    pub ch: char,
    /// The cell's style.
    pub style: TermStyle,
}

impl TermCell {
    /// The blank cell: a space in the default style.
    pub open spec fn blank_spec() -> TermCell {
        TermCell { ch: ' ', style: TermStyle::default_spec() }
    }

    /// The blank cell: a space in the default style.
    pub fn blank() -> (r: TermCell)
        ensures
            r == TermCell::blank_spec(),
    {
        TermCell { ch: ' ', style: TermStyle::plain() }
    }

    /// Whether the cell is a space in the default style.
    pub fn is_blank(&self) -> (r: bool)
        ensures
            r == (*self == TermCell::blank_spec()),
    {
        self.ch == ' ' && self.style == TermStyle::plain()
    }
}

impl Default for TermCell {
    fn default() -> (r: TermCell)
        ensures
            r == TermCell::blank_spec(),
    {
        TermCell::blank()
    }
}

/// The extent of a dimension: its value if positive, else 0.
pub open spec fn extent(v: TermScalar) -> int {
    if v.val() > 0 {
        v.val()
    } else {
        0
    }
}

/// Whether `(col, row)` addresses a cell of a `cols × rows` grid.
pub open spec fn in_grid(cols: TermScalar, rows: TermScalar, col: TermScalar, row: TermScalar) -> bool {
    &&& col.is_fin()
    &&& row.is_fin()
    &&& 0 <= col.val() < cols.val()
    &&& 0 <= row.val() < rows.val()
}

/// The position of cell `(col, row)` in the row-major cell sequence.
pub open spec fn cell_index(cols: TermScalar, col: TermScalar, row: TermScalar) -> int {
    row.val() * cols.val() + col.val()
}

/// The cell at `(col, row)`, or the blank cell outside the grid.
pub open spec fn cell_of(
    cells: Seq<TermCell>,
    cols: TermScalar,
    rows: TermScalar,
    col: TermScalar,
    row: TermScalar,
) -> TermCell {
    if in_grid(cols, rows, col, row) {
        cells[cell_index(cols, col, row)]
    } else {
        TermCell::blank_spec()
    }
}

/// The cells after writing `cell` at `(col, row)`; a write outside the grid
/// changes nothing.
pub open spec fn set_cell(
    cells: Seq<TermCell>,
    cols: TermScalar,
    rows: TermScalar,
    col: TermScalar,
    row: TermScalar,
    cell: TermCell,
) -> Seq<TermCell> {
    if in_grid(cols, rows, col, row) {
        cells.update(cell_index(cols, col, row), cell)
    } else {
        cells
    }
}

/// The cells after writing the characters of a text run starting at `col`
/// on `row`: zero-width characters are skipped, each other character is
/// written where its column is inside the grid and advances the column by
/// its width, and writing stops at the right edge.
pub open spec fn put_chars(
    cells: Seq<TermCell>,
    cols: TermScalar,
    rows: TermScalar,
    col: TermScalar,
    row: TermScalar,
    chars: Seq<char>,
    style: TermStyle,
) -> Seq<TermCell>
    decreases chars.len(),
{
    if chars.len() == 0 || cols.le_spec(col) {
        cells
    } else {
        let ch = chars[0];
        let w = char_width(ch);
        let rest = chars.drop_first();
        if w == 0 {
            put_chars(cells, cols, rows, col, row, rest, style)
        } else {
            let cells2 = if TermScalar::Finite(0).le_spec(col) {
                set_cell(cells, cols, rows, col, row, TermCell { ch, style })
            } else {
                cells
            };
            put_chars(cells2, cols, rows, col.add_spec(TermScalar::Finite(w as i64)), row, rest, style)
        }
    }
}

/// The cells after writing a text run: nothing when `row` is outside the
/// grid's rows.
pub open spec fn put_text_cells(
    cells: Seq<TermCell>,
    cols: TermScalar,
    rows: TermScalar,
    col: TermScalar,
    row: TermScalar,
    chars: Seq<char>,
    style: TermStyle,
) -> Seq<TermCell> {
    if row.lt_spec(TermScalar::Finite(0)) || rows.le_spec(row) {
        cells
    } else {
        put_chars(cells, cols, rows, col, row, chars, style)
    }
}

/// The cells after writing `ch` at `col + i` on `row` for `i` in `0..n`.
pub open spec fn put_rule_cells(
    cells: Seq<TermCell>,
    cols: TermScalar,
    rows: TermScalar,
    col: TermScalar,
    row: TermScalar,
    n: int,
    cell: TermCell,
) -> Seq<TermCell>
    decreases n,
{
    if n <= 0 {
        cells
    } else {
        let prev = put_rule_cells(cells, cols, rows, col, row, n - 1, cell);
        set_cell(prev, cols, rows, col.add_spec(TermScalar::Finite((n - 1) as i64)), row, cell)
    }
}

/// A rasterised 2-D array of [`TermCell`]s (row-major).
pub struct TermGrid {
    /// Width in columns.
    pub cols: Col,
    /// Height in rows.
    pub rows: Row,
    /// The cells, row by row.
    pub cells: Vec<TermCell>,
}

impl TermGrid {
    /// The cells, row by row.
    pub open spec fn cells_spec(&self) -> Seq<TermCell> {
        self.cells@
    }

    /// Whether the grid is well formed: finite dimensions of at most
    /// `i32::MAX` cells each, holding one cell per position.
    pub open spec fn wf(&self) -> bool {
        &&& self.cols.is_fin()
        &&& self.rows.is_fin()
        &&& self.cols.val() <= i32::MAX
        &&& self.rows.val() <= i32::MAX
        &&& extent(self.cols) * extent(self.rows) <= i32::MAX
        &&& self.cells@.len() == extent(self.cols) * extent(self.rows)
    }

    /// The cell at `(col, row)`, blank outside the grid.
    pub open spec fn cell_spec(&self, col: TermScalar, row: TermScalar) -> TermCell {
        cell_of(self.cells_spec(), self.cols, self.rows, col, row)
    }

    /// A grid of blank cells.
    pub fn blank(cols: Col, rows: Row) -> (r: TermGrid)
        requires
            cols.is_fin(),
            rows.is_fin(),
            cols.val() <= i32::MAX,
            rows.val() <= i32::MAX,
            extent(cols) * extent(rows) <= i32::MAX,
        ensures
            r.wf(),
            r.cols == cols,
            r.rows == rows,
            r.cells_spec() == Seq::new(
                (extent(cols) * extent(rows)) as nat,
                |i: int| TermCell::blank_spec(),
            ),
    {
        let w: i64 = match cols {
            TermScalar::Finite(v) => if v > 0 {
                v
            } else {
                0
            },
            _ => 0,
        };
        let h: i64 = match rows {
            TermScalar::Finite(v) => if v > 0 {
                v
            } else {
                0
            },
            _ => 0,
        };
        let n: usize = (w * h) as usize;
        let mut cells: Vec<TermCell> = Vec::new();
        let mut i: usize = 0;
        while i < n
            invariant
                i <= n,
                cells@ == Seq::new(i as nat, |j: int| TermCell::blank_spec()),
            decreases n - i,
        {
            cells.push(TermCell::blank());
            i = i + 1;
            assert(cells@ =~= Seq::new(i as nat, |j: int| TermCell::blank_spec()));
        }
        TermGrid { cols, rows, cells }
    }

    /// The index of `(col, row)` in the cell vector, if it is in the grid.
    fn idx(&self, col: Col, row: Row) -> (r: Option<usize>)
        requires
            self.wf(),
            col.is_num(),
            row.is_num(),
        ensures
            r is Some <==> in_grid(self.cols, self.rows, col, row),
            r matches Some(i) ==> i == cell_index(self.cols, col, row) && i < self.cells_spec().len(),
    {
        let col = col.round();
        let row = row.round();
        if col.ge(TermScalar::zero()) && row.ge(TermScalar::zero()) && col.lt(self.cols) && row.lt(
            self.rows,
        ) {
            let (c, r, w) = match (col, row, self.cols) {
                (TermScalar::Finite(c), TermScalar::Finite(r), TermScalar::Finite(w)) => (c, r, w),
                _ => (0, 0, 0),
            };
            proof {
                lemma_index_in_range(c as int, r as int, w as int, extent(self.rows));
            }
            Some((r * w + c) as usize)
        } else {
            None
        }
    }

    /// The cell at `(col, row)`, or the blank cell outside the grid.
    pub fn get(&self, col: Col, row: Row) -> (r: TermCell)
        requires
            self.wf(),
            col.is_num(),
            row.is_num(),
        ensures
            r == self.cell_spec(col, row),
    {
        match self.idx(col, row) {
            Some(i) => self.cells[i],
            None => TermCell::blank(),
        }
    }

    /// Number of cells in the grid.
    pub fn cell_count(&self) -> (r: usize)
        ensures
            r == self.cells_spec().len(),
    {
        self.cells.len()
    }

    /// The cell at linear index `i`, or the blank cell past the end.
    pub fn cell_at(&self, i: usize) -> (r: TermCell)
        ensures
            r == (if i < self.cells_spec().len() {
                self.cells_spec()[i as int]
            } else {
                TermCell::blank_spec()
            }),
    {
        if i < self.cells.len() {
            self.cells[i]
        } else {
            TermCell::blank()
        }
    }

    /// Write `cell` at `(col, row)`; a write outside the grid does nothing.
    pub fn set(&mut self, col: Col, row: Row, cell: TermCell)
        requires
            old(self).wf(),
            col.is_num(),
            row.is_num(),
        ensures
            final(self).wf(),
            final(self).cols == old(self).cols,
            final(self).rows == old(self).rows,
            final(self).cells_spec() == set_cell(
                old(self).cells_spec(),
                old(self).cols,
                old(self).rows,
                col,
                row,
                cell,
            ),
    {
        match self.idx(col, row) {
            Some(i) => {
                self.cells.set(i, cell);
            },
            None => {},
        }
    }

    /// Write a text run at `(col, row)`, advancing columns by each
    /// character's width and skipping zero-width characters.
    pub fn put_text(&mut self, col: Col, row: Row, text: &str, style: TermStyle)
        requires
            old(self).wf(),
            col.is_num(),
            row.is_num(),
        ensures
            final(self).wf(),
            final(self).cols == old(self).cols,
            final(self).rows == old(self).rows,
            final(self).cells_spec() == put_text_cells(
                old(self).cells_spec(),
                old(self).cols,
                old(self).rows,
                col,
                row,
                text@,
                style,
            ),
    {
        if row.lt(TermScalar::zero()) || row.ge(self.rows) {
            return;
        }
        let chars = chars_of(text);
        let ghost cols0 = self.cols;
        let ghost rows0 = self.rows;
        let ghost col0 = col;
        let ghost target = put_chars(old(self).cells_spec(), cols0, rows0, col0, row, chars@, style);
        let mut col = col;
        let mut i: usize = 0;
        assert(chars@.subrange(0, chars@.len() as int) =~= chars@);
        while i < chars.len() && col.lt(self.cols)
            invariant
                self.wf(),
                self.cols == cols0,
                self.rows == rows0,
                col.is_num(),
                row.is_num(),
                cols0.is_fin(),
                i <= chars.len(),
                put_chars(self.cells_spec(), cols0, rows0, col, row, chars@.subrange(i as int, chars@.len() as int), style)
                    == target,
            decreases chars.len() - i,
        {
            let ch = chars[i];
            let ghost rest = chars@.subrange(i as int, chars@.len() as int);
            assert(rest[0] == ch);
            assert(rest.drop_first() =~= chars@.subrange(i + 1, chars@.len() as int));
            let w = char_cols(ch);
            if w.is_zero() {
                i = i + 1;
                continue;
            }
            if col.ge(TermScalar::zero()) {
                self.set(col, row, TermCell { ch, style });
            }
            col = col.add(w);
            i = i + 1;
        }
        proof {
            if i < chars.len() {
                assert(cols0.le_spec(col));
            } else {
                assert(chars@.subrange(i as int, chars@.len() as int) =~= Seq::<char>::empty());
            }
        }
    }
}

impl TermGrid {
    /// Draw a horizontal rule: `ch` in `width` consecutive columns.
    pub fn put_rule(&mut self, col: Col, row: Row, ch: char, width: Col, style: TermStyle)
        requires
            old(self).wf(),
            col.is_num(),
            row.is_num(),
        ensures
            final(self).wf(),
            final(self).cols == old(self).cols,
            final(self).rows == old(self).rows,
            final(self).cells@ == put_rule_cells(
                old(self).cells@,
                old(self).cols,
                old(self).rows,
                col,
                row,
                width.get_spec() as int,
                TermCell { ch, style },
            ),
    {
        let w = width.get();
        let cell = TermCell { ch, style };
        let mut i: i32 = 0;
        while i < w
            invariant
                self.wf(),
                self.cols == old(self).cols,
                self.rows == old(self).rows,
                col.is_num(),
                row.is_num(),
                0 <= i,
                i <= w || i == 0,
                self.cells@ == put_rule_cells(old(self).cells@, self.cols, self.rows, col, row, i as int, cell),
            decreases w - i,
        {
            self.set(col.add(TermScalar::new(i)), row, cell);
            i = i + 1;
        }
    }
}

/// The `i`-th point drawn for a line from `(col, row)` by `delta`: each
/// axis advances by `i · d / |d|` (no movement on an axis where `d` is 0).
pub open spec fn line_point(col: TermScalar, row: TermScalar, delta: TermPoint, i: int) -> TermPoint {
    let t = TermScalar::Finite(i as i64);
    let w = delta.col.abs_spec();
    let h = delta.row.abs_spec();
    TermPoint {
        col: col.add_spec(
            if TermScalar::Finite(0).lt_spec(w) {
                t.mul_spec(delta.col).div_spec(w)
            } else {
                TermScalar::Finite(0)
            },
        ),
        row: row.add_spec(
            if TermScalar::Finite(0).lt_spec(h) {
                t.mul_spec(delta.row).div_spec(h)
            } else {
                TermScalar::Finite(0)
            },
        ),
    }
}

/// The cells after drawing the first `n` points of a line.
pub open spec fn line_cells(
    cells: Seq<TermCell>,
    cols: TermScalar,
    rows: TermScalar,
    col: TermScalar,
    row: TermScalar,
    delta: TermPoint,
    n: int,
    cell: TermCell,
) -> Seq<TermCell>
    decreases n,
{
    if n <= 0 {
        cells
    } else {
        let prev = line_cells(cells, cols, rows, col, row, delta, n - 1, cell);
        let p = line_point(col, row, delta, n - 1);
        set_cell(prev, cols, rows, p.col, p.row, cell)
    }
}

/// The cells after filling rows `0..h` of a `w`-column box at `(col, row)`,
/// row by row, each row left to right.
pub open spec fn box_cells(
    cells: Seq<TermCell>,
    cols: TermScalar,
    rows: TermScalar,
    col: TermScalar,
    row: TermScalar,
    w: int,
    h: int,
    cell: TermCell,
) -> Seq<TermCell>
    decreases h,
{
    if h <= 0 {
        cells
    } else {
        let prev = box_cells(cells, cols, rows, col, row, w, h - 1, cell);
        put_rule_cells(prev, cols, rows, col, row.add_spec(TermScalar::Finite((h - 1) as i64)), w, cell)
    }
}

/// The largest column among points (`-∞` for none).
pub open spec fn max_col(points: Seq<TermPoint>) -> TermScalar
    decreases points.len(),
{
    if points.len() == 0 {
        TermScalar::NegInfinity
    } else {
        max_col(points.drop_last()).max_spec(points.last().col)
    }
}

/// The largest row among points (`-∞` for none).
pub open spec fn max_row(points: Seq<TermPoint>) -> TermScalar
    decreases points.len(),
{
    if points.len() == 0 {
        TermScalar::NegInfinity
    } else {
        max_row(points.drop_last()).max_spec(points.last().row)
    }
}

/// Whether every coordinate of the points is a number.
pub open spec fn points_num(points: Seq<TermPoint>) -> bool {
    forall|i: int| 0 <= i < points.len() ==> (#[trigger] points[i]).col.is_num() && points[i].row.is_num()
}

/// The cells after drawing a shape at `(col, row)` with its stroke char:
/// a line is drawn point by point; a rectangle, an ellipse and a path fill
/// their bounding box (for a path, up to its largest column and row).
pub open spec fn shape_cells(
    cells: Seq<TermCell>,
    cols: TermScalar,
    rows: TermScalar,
    col: TermScalar,
    row: TermScalar,
    shape: TermShape,
) -> Seq<TermCell> {
    let cell = TermCell { ch: shape.stroke_char, style: shape.style };
    match shape.geometry {
        TermGeometry::Line { delta } => {
            let m = delta.col.abs_spec().max_spec(delta.row.abs_spec());
            if m == TermScalar::Finite(0) {
                cells
            } else {
                line_cells(cells, cols, rows, col, row, delta, m.get_spec() as int, cell)
            }
        },
        TermGeometry::Rect { size } => box_cells(
            cells,
            cols,
            rows,
            col,
            row,
            size.cols.get_spec() as int,
            size.rows.get_spec() as int,
            cell,
        ),
        TermGeometry::Ellipse { size } => box_cells(
            cells,
            cols,
            rows,
            col,
            row,
            size.cols.get_spec() as int,
            size.rows.get_spec() as int,
            cell,
        ),
        TermGeometry::Path { points, closed } => if points@.len() == 0 {
            cells
        } else {
            box_cells(
                cells,
                cols,
                rows,
                col,
                row,
                max_col(points@).get_spec() as int,
                max_row(points@).get_spec() as int,
                cell,
            )
        },
    }
}

/// Whether a shape can be drawn: its coordinates are numbers, and a line's
/// offset is finite.
pub open spec fn shape_ok(shape: TermShape) -> bool {
    match shape.geometry {
        TermGeometry::Line { delta } => delta.col.is_fin() && delta.row.is_fin(),
        TermGeometry::Rect { size } => true,
        TermGeometry::Ellipse { size } => true,
        TermGeometry::Path { points, closed } => points_num(points@),
    }
}

/// The label shown for an image: `[img: ALT]`.
pub open spec fn image_label(alt: Seq<char>) -> Seq<char> {
    seq!['[', 'i', 'm', 'g', ':', ' '] + alt + seq![']']
}

impl TermGrid {
    /// Fill a `w × h` box at `(col, row)` with `cell`.
    fn fill_box(&mut self, col: Col, row: Row, w: Col, h: Row, cell: TermCell)
        requires
            old(self).wf(),
            col.is_num(),
            row.is_num(),
        ensures
            final(self).wf(),
            final(self).cols == old(self).cols,
            final(self).rows == old(self).rows,
            final(self).cells@ == box_cells(
                old(self).cells@,
                old(self).cols,
                old(self).rows,
                col,
                row,
                w.get_spec() as int,
                h.get_spec() as int,
                cell,
            ),
    {
        let hh = h.get();
        let mut r: i32 = 0;
        while r < hh
            invariant
                self.wf(),
                self.cols == old(self).cols,
                self.rows == old(self).rows,
                col.is_num(),
                row.is_num(),
                0 <= r,
                r <= hh || r == 0,
                self.cells@ == box_cells(old(self).cells@, self.cols, self.rows, col, row, w.get_spec() as int, r as int, cell),
            decreases hh - r,
        {
            self.put_rule(col, row.add(TermScalar::new(r)), cell.ch, w, cell.style);
            r = r + 1;
        }
    }

    /// Draw a shape (simplified): a line point by point, other shapes by
    /// filling their bounding box with the stroke character.
    pub fn put_shape(&mut self, col: Col, row: Row, shape: &TermShape)
        requires
            old(self).wf(),
            col.is_num(),
            row.is_num(),
            shape_ok(*shape),
        ensures
            final(self).wf(),
            final(self).cols == old(self).cols,
            final(self).rows == old(self).rows,
            final(self).cells@ == shape_cells(old(self).cells@, old(self).cols, old(self).rows, col, row, *shape),
    {
        let cell = TermCell { ch: shape.stroke_char, style: shape.style };
        match &shape.geometry {
            TermGeometry::Line { delta } => {
                let w = delta.col.abs();
                let h = delta.row.abs();
                let max_dim = w.max(h);
                if max_dim.is_zero() {
                    return;
                }
                let n = max_dim.get();
                let mut i: i32 = 0;
                while i < n
                    invariant
                        self.wf(),
                        self.cols == old(self).cols,
                        self.rows == old(self).rows,
                        col.is_num(),
                        row.is_num(),
                        delta.col.is_fin(),
                        delta.row.is_fin(),
                        w == delta.col.abs_spec(),
                        h == delta.row.abs_spec(),
                        0 <= i,
                        i <= n || i == 0,
                        self.cells@ == line_cells(old(self).cells@, self.cols, self.rows, col, row, *delta, i as int, cell),
                    decreases n - i,
                {
                    let t = TermScalar::new(i);
                    let dx = if w.gt(TermScalar::zero()) {
                        t.mul(delta.col).div(w)
                    } else {
                        TermScalar::zero()
                    };
                    let dy = if h.gt(TermScalar::zero()) {
                        t.mul(delta.row).div(h)
                    } else {
                        TermScalar::zero()
                    };
                    let x = col.add(dx);
                    let y = row.add(dy);
                    proof {
                        assert(line_point(col, row, *delta, i as int) == TermPoint { col: x, row: y });
                        lemma_line_point_num(col, row, *delta, i as int);
                    }
                    self.set(x, y, cell);
                    i = i + 1;
                }
            },
            TermGeometry::Rect { size } => {
                self.fill_box(col, row, size.cols, size.rows, cell);
            },
            TermGeometry::Ellipse { size } => {
                self.fill_box(col, row, size.cols, size.rows, cell);
            },
            TermGeometry::Path { points, .. } => {
                if points.len() == 0 {
                    return;
                }
                let mut mc = TermScalar::neg_infinity();
                let mut mr = TermScalar::neg_infinity();
                let mut k: usize = 0;
                while k < points.len()
                    invariant
                        k <= points@.len(),
                        points_num(points@),
                        mc == max_col(points@.subrange(0, k as int)),
                        mr == max_row(points@.subrange(0, k as int)),
                    decreases points@.len() - k,
                {
                    proof {
                        assert(points@.subrange(0, k + 1).drop_last() =~= points@.subrange(0, k as int));
                    }
                    mc = mc.max(points[k].col);
                    mr = mr.max(points[k].row);
                    k = k + 1;
                }
                proof {
                    assert(points@.subrange(0, points@.len() as int) =~= points@);
                }
                self.fill_box(col, row, mc, mr, cell);
            },
        }
    }

    /// Draw an image placeholder: the text `[img: ALT]` in the default style.
    pub fn put_image(&mut self, col: Col, row: Row, img: &TermImage)
        requires
            old(self).wf(),
            col.is_num(),
            row.is_num(),
        ensures
            final(self).wf(),
            final(self).cols == old(self).cols,
            final(self).rows == old(self).rows,
            final(self).cells@ == put_text_cells(
                old(self).cells@,
                old(self).cols,
                old(self).rows,
                col,
                row,
                image_label(img.alt@),
                TermStyle::default_spec(),
            ),
    {
        let alt = chars_of(img.alt.as_str());
        let mut label: Vec<char> = Vec::new();
        label.push('[');
        label.push('i');
        label.push('m');
        label.push('g');
        label.push(':');
        label.push(' ');
        let mut i: usize = 0;
        while i < alt.len()
            invariant
                i <= alt@.len(),
                label@ == seq!['[', 'i', 'm', 'g', ':', ' '] + alt@.subrange(0, i as int),
            decreases alt@.len() - i,
        {
            label.push(alt[i]);
            i = i + 1;
            assert(label@ =~= seq!['[', 'i', 'm', 'g', ':', ' '] + alt@.subrange(0, i as int));
        }
        label.push(']');
        assert(alt@.subrange(0, alt@.len() as int) =~= alt@);
        assert(label@ =~= image_label(img.alt@));
        let s = string_from_chars(&label);
        self.put_text(col, row, s.as_str(), TermStyle::plain());
    }
}

/// One past the last column before `c` on row `r` whose cell is not blank
/// (0 when all are blank).
pub open spec fn line_end(cells: Seq<TermCell>, cols: TermScalar, rows: TermScalar, r: int, c: int) -> int
    decreases c,
{
    if c <= 0 {
        0
    } else if cell_of(cells, cols, rows, TermScalar::Finite((c - 1) as i64), TermScalar::Finite(r as i64))
        != TermCell::blank_spec() {
        c
    } else {
        line_end(cells, cols, rows, r, c - 1)
    }
}

/// The ANSI text of the cells of row `r` from column `col` up to `end`,
/// given the style in effect (`cur`) and whether a non-default style has
/// been emitted (`have`): each cell whose style differs from the one in
/// effect is preceded by a reset (when a style was emitted) and its own
/// style sequence; after its character the column advances by the
/// character's width, at least one; a reset closes the run if a style was
/// emitted.
pub open spec fn ansi_cells(
    cells: Seq<TermCell>,
    cols: TermScalar,
    rows: TermScalar,
    r: int,
    col: int,
    end: int,
    cur: TermStyle,
    have: bool,
) -> Seq<char>
    decreases (if end > col { end - col } else { 0 }),
{
    if col >= end {
        if have {
            reset_sequence()
        } else {
            seq![]
        }
    } else {
        let cell = cell_of(cells, cols, rows, TermScalar::Finite(col as i64), TermScalar::Finite(r as i64));
        let changed = cell.style != cur;
        let prefix = if changed {
            (if have { reset_sequence() } else { seq![] }) + sgr_sequence(cell.style)
        } else {
            seq![]
        };
        let cur2 = if changed { cell.style } else { cur };
        let have2 = if changed { cell.style != TermStyle::default_spec() } else { have };
        prefix + seq![cell.ch] + ansi_cells(cells, cols, rows, r, col + char_step(cell.ch), end, cur2, have2)
    }
}

/// The columns a cell's character advances the ANSI output: its width, at
/// least one.
pub open spec fn char_step(c: char) -> int {
    if char_width(c) > 1 {
        char_width(c)
    } else {
        1
    }
}

/// The ANSI text of row `r`: its cells up to the last non-blank one,
/// then a newline.
pub open spec fn ansi_line(cells: Seq<TermCell>, cols: TermScalar, rows: TermScalar, r: int) -> Seq<char> {
    let end = line_end(cells, cols, rows, r, cols.get_spec() as int);
    ansi_cells(cells, cols, rows, r, 0, end, TermStyle::default_spec(), false) + seq!['\n']
}

/// The ANSI text of the first `n` rows.
pub open spec fn ansi_rows(cells: Seq<TermCell>, cols: TermScalar, rows: TermScalar, n: int) -> Seq<char>
    decreases n,
{
    if n <= 0 {
        seq![]
    } else {
        ansi_rows(cells, cols, rows, n - 1) + ansi_line(cells, cols, rows, n - 1)
    }
}

impl TermGrid {
    /// The ANSI text of the whole grid.
    pub open spec fn ansi_spec(&self) -> Seq<char> {
        ansi_rows(self.cells@, self.cols, self.rows, self.rows.get_spec() as int)
    }

    fn ansi_line_end(&self, r: i32) -> (e: i32)
        requires
            self.wf(),
            0 <= r,
        ensures
            e == line_end(self.cells@, self.cols, self.rows, r as int, self.cols.get_spec() as int),
            0 <= e,
            e <= self.cols.get_spec() || e == 0,
    {
        let n = self.cols.get();
        let mut e: i32 = 0;
        let mut c: i32 = 0;
        while c < n
            invariant
                self.wf(),
                0 <= c,
                c <= n || c == 0,
                0 <= e <= c,
                e == line_end(self.cells@, self.cols, self.rows, r as int, c as int),
            decreases n - c,
        {
            let cell = self.get(TermScalar::new(c), TermScalar::new(r));
            if !cell.is_blank() {
                e = c + 1;
            }
            c = c + 1;
        }
        e
    }

    /// Render to ANSI-escaped text: each row's cells up to its last
    /// non-blank cell, with style changes written as SGR sequences, and a
    /// newline after each row.
    pub fn to_ansi(&self) -> (r: String)
        requires
            self.wf(),
        ensures
            r@ == self.ansi_spec(),
    {
        let mut out: Vec<char> = Vec::new();
        let nrows = self.rows.get();
        let mut r: i32 = 0;
        while r < nrows
            invariant
                self.wf(),
                0 <= r,
                r <= nrows || r == 0,
                out@ == ansi_rows(self.cells@, self.cols, self.rows, r as int),
            decreases nrows - r,
        {
            let end = self.ansi_line_end(r);
            let ghost base = out@;
            let mut cur = TermStyle::plain();
            let mut have = false;
            let mut col: i64 = 0;
            while col < end as i64
                invariant
                    self.wf(),
                    0 <= r,
                    0 <= col <= end as i64 + 3,
                    0 <= end,
                    out@ + ansi_cells(self.cells@, self.cols, self.rows, r as int, col as int, end as int, cur, have)
                        == base + ansi_cells(self.cells@, self.cols, self.rows, r as int, 0, end as int, TermStyle::default_spec(), false),
                decreases (if end as int > col as int { end as int - col as int } else { 0 }),
            {
                let cell = self.get(TermScalar::Finite(col), TermScalar::new(r));
                let ghost before = out@;
                let ghost cur0 = cur;
                let ghost have0 = have;
                if cell.style != cur {
                    if have {
                        out.push('\u{1b}');
                        out.push('[');
                        out.push('0');
                        out.push('m');
                    }
                    apply_style(&mut out, &cell.style);
                    have = cell.style != TermStyle::plain();
                    cur = cell.style;
                }
                let w = char_cols(cell.ch).get();
                out.push(cell.ch);
                let step: i64 = if w > 1 { w as i64 } else { 1 };
                col = col + step;
                proof {
                    let changed = cell.style != cur0;
                    let prefix = if changed {
                        (if have0 { reset_sequence() } else { seq![] }) + sgr_sequence(cell.style)
                    } else {
                        seq![]
                    };
                    assert(out@ =~= before + prefix + seq![cell.ch]);
                }
            }
            if have {
                out.push('\u{1b}');
                out.push('[');
                out.push('0');
                out.push('m');
            }
            out.push('\n');
            proof {
                assert(out@ =~= base + ansi_cells(self.cells@, self.cols, self.rows, r as int, 0, end as int, TermStyle::default_spec(), false) + seq!['\n']);
            }
            r = r + 1;
        }
        string_from_chars(&out)
    }
}

/// Every point of a line from a number position by a finite offset has
/// number coordinates.
proof fn lemma_line_point_num(col: TermScalar, row: TermScalar, delta: TermPoint, i: int)
    requires
        col.is_num(),
        row.is_num(),
        delta.col.is_fin(),
        delta.row.is_fin(),
        0 <= i <= i32::MAX,
    ensures
        line_point(col, row, delta, i).col.is_num(),
        line_point(col, row, delta, i).row.is_num(),
{
}

proof fn lemma_index_in_range(c: int, r: int, w: int, h: int)
    requires
        0 <= c < w,
        0 <= r < h,
    ensures
        0 <= r * w + c < w * h,
{
    assert(0 <= r * w + c < w * h) by (nonlinear_arith)
        requires
            0 <= c < w,
            0 <= r < h,
    ;
}

/// Distinct positions of a grid have distinct cell indices.
proof fn lemma_index_injective(c1: int, r1: int, c2: int, r2: int, w: int)
    requires
        0 <= c1 < w,
        0 <= c2 < w,
        0 <= r1,
        0 <= r2,
        r1 * w + c1 == r2 * w + c2,
    ensures
        r1 == r2,
        c1 == c2,
{
    if r1 < r2 {
        assert(r1 * w + w <= r2 * w) by (nonlinear_arith)
            requires
                r1 < r2,
                w > 0,
        ;
    } else if r2 < r1 {
        assert(r2 * w + w <= r1 * w) by (nonlinear_arith)
            requires
                r2 < r1,
                w > 0,
        ;
    }
}

/// What a read gives back after a write: the cell written at a position in
/// the grid is read back there, every other position keeps its cell, and a
/// write outside the grid changes no cell.
pub proof fn law_get_after_set(
    cells: Seq<TermCell>,
    cols: TermScalar,
    rows: TermScalar,
    col: TermScalar,
    row: TermScalar,
    cell: TermCell,
    col2: TermScalar,
    row2: TermScalar,
)
    requires
        cols.is_fin(),
        rows.is_fin(),
        cells.len() == extent(cols) * extent(rows),
    ensures
        in_grid(cols, rows, col, row) ==> cell_of(set_cell(cells, cols, rows, col, row, cell), cols, rows, col, row)
            == cell,
        (col2 != col || row2 != row) ==> cell_of(set_cell(cells, cols, rows, col, row, cell), cols, rows, col2, row2)
            == cell_of(cells, cols, rows, col2, row2),
        !in_grid(cols, rows, col, row) ==> set_cell(cells, cols, rows, col, row, cell) == cells,
{
    if in_grid(cols, rows, col, row) {
        lemma_index_in_range(col.val(), row.val(), cols.val(), extent(rows));
        if in_grid(cols, rows, col2, row2) && (col2 != col || row2 != row) {
            lemma_index_in_range(col2.val(), row2.val(), cols.val(), extent(rows));
            if cell_index(cols, col, row) == cell_index(cols, col2, row2) {
                lemma_index_injective(col.val(), row.val(), col2.val(), row2.val(), cols.val());
            }
        }
    }
}


// ── Text written into a row and read back as ANSI text ─────────────────

/// The columns taken by the first `k` characters of `s`.
pub open spec fn width_before(s: Seq<char>, k: int) -> int {
    chars_width(s.take(k))
}

/// Whether every character of `s` takes at least one column.
pub open spec fn all_visible_width(s: Seq<char>) -> bool {
    forall|i: int| 0 <= i < s.len() ==> char_width(#[trigger] s[i]) >= 1
}

/// Whether `d` columns into a text is where one of its characters starts.
pub open spec fn starts_char(s: Seq<char>, d: int) -> bool {
    exists|k: int| 0 <= k < s.len() && width_before(s, k) == d
}

proof fn lemma_width_cons(a: char, s: Seq<char>)
    ensures
        chars_width(seq![a] + s) == char_width(a) + chars_width(s),
    decreases s.len(),
{
    let t = seq![a] + s;
    if s.len() == 0 {
        assert(t.drop_last() =~= Seq::<char>::empty());
        assert(t.last() == a);
        assert(chars_width(Seq::<char>::empty()) == 0);
        assert(chars_width(t) == chars_width(t.drop_last()) + char_width(t.last()));
    } else {
        assert(t.drop_last() =~= seq![a] + s.drop_last());
        assert(t.last() == s.last());
        lemma_width_cons(a, s.drop_last());
        assert(chars_width(t) == chars_width(t.drop_last()) + char_width(t.last()));
    }
}

proof fn lemma_width_before_step(s: Seq<char>, k: int)
    requires
        0 <= k < s.len(),
    ensures
        width_before(s, k + 1) == width_before(s, k) + char_width(s[k]),
{
    assert(s.take(k + 1).drop_last() =~= s.take(k));
}

proof fn lemma_width_before_first(s: Seq<char>, k: int)
    requires
        1 <= k <= s.len(),
    ensures
        width_before(s, k) == char_width(s[0]) + width_before(s.drop_first(), k - 1),
{
    assert(s.take(k) =~= seq![s[0]] + s.drop_first().take(k - 1));
    lemma_width_cons(s[0], s.drop_first().take(k - 1));
}

/// Widths before are never negative, grow with `k`, and reach the whole
/// width at the end.
proof fn lemma_width_before_mono(s: Seq<char>, i: int, j: int)
    requires
        0 <= i <= j <= s.len(),
    ensures
        0 <= width_before(s, i) <= width_before(s, j) <= chars_width(s),
        all_visible_width(s) ==> width_before(s, i) + (j - i) <= width_before(s, j),
    decreases j - i,
{
    lemma_chars_width_prefix(s, j);
    lemma_chars_width_prefix(s, i);
    assert(s.take(s.len() as int) =~= s);
    if i < j {
        lemma_width_before_mono(s, i, j - 1);
        lemma_width_before_step(s, j - 1);
        lemma_chars_width_prefix(s, j - 1);
    }
}

proof fn lemma_set_cell_len(
    cells: Seq<TermCell>,
    cols: TermScalar,
    rows: TermScalar,
    col: TermScalar,
    row: TermScalar,
    cell: TermCell,
)
    requires
        cols.is_fin(),
        rows.is_fin(),
        cells.len() == extent(cols) * extent(rows),
    ensures
        set_cell(cells, cols, rows, col, row, cell).len() == cells.len(),
{
    if in_grid(cols, rows, col, row) {
        lemma_index_in_range(col.val(), row.val(), cols.val(), extent(rows));
    }
}

/// Writing a text whose characters all take columns, from column `col` of
/// row `r` where it fits: each character lands where the widths before it
/// put it, and every other cell of the grid is left as it was.
proof fn lemma_put_chars_cells(
    cells: Seq<TermCell>,
    cols: int,
    rows: int,
    col: int,
    r: int,
    s: Seq<char>,
    style: TermStyle,
)
    requires
        0 <= cols <= i32::MAX,
        0 <= rows <= i32::MAX,
        cells.len() == cols * rows,
        0 <= r < rows,
        0 <= col,
        col + chars_width(s) <= cols,
        all_visible_width(s),
    ensures
        ({
            let out = put_chars(
                cells,
                TermScalar::Finite(cols as i64),
                TermScalar::Finite(rows as i64),
                TermScalar::Finite(col as i64),
                TermScalar::Finite(r as i64),
                s,
                style,
            );
            &&& out.len() == cells.len()
            &&& forall|k: int|
                0 <= k < s.len() ==> cell_of(
                    out,
                    TermScalar::Finite(cols as i64),
                    TermScalar::Finite(rows as i64),
                    TermScalar::Finite((col + #[trigger] width_before(s, k)) as i64),
                    TermScalar::Finite(r as i64),
                ) == (TermCell { ch: s[k], style })
            &&& forall|p: int, q: int|
                0 <= p < cols && 0 <= q < rows && !(q == r && starts_char(s, p - col)) ==> #[trigger] cell_of(
                    out,
                    TermScalar::Finite(cols as i64),
                    TermScalar::Finite(rows as i64),
                    TermScalar::Finite(p as i64),
                    TermScalar::Finite(q as i64),
                ) == cell_of(
                    cells,
                    TermScalar::Finite(cols as i64),
                    TermScalar::Finite(rows as i64),
                    TermScalar::Finite(p as i64),
                    TermScalar::Finite(q as i64),
                )
        }),
    decreases s.len(),
{
    let cc = TermScalar::Finite(cols as i64);
    let rr = TermScalar::Finite(rows as i64);
    let rs = TermScalar::Finite(r as i64);
    if s.len() > 0 {
        let ch = s[0];
        let w = char_width(ch);
        let rest = s.drop_first();
        assert(s =~= seq![ch] + rest);
        lemma_width_cons(ch, rest);
        lemma_width_before_mono(rest, 0, rest.len() as int);
        assert(w >= 1);
        let cell = TermCell { ch, style };
        let cells2 = set_cell(cells, cc, rr, TermScalar::Finite(col as i64), rs, cell);
        assert(col < cols);
        lemma_index_in_range(col, r, cols, rows);
        assert(in_grid(cc, rr, TermScalar::Finite(col as i64), rs));
        lemma_set_cell_len(cells, cc, rr, TermScalar::Finite(col as i64), rs, cell);
        assert(cells2.len() == cells.len());
        assert(!cc.le_spec(TermScalar::Finite(col as i64)));
        assert(TermScalar::Finite(col as i64).add_spec(TermScalar::Finite(w as i64)) == TermScalar::Finite(
            (col + w) as i64,
        ));
        assert(all_visible_width(rest)) by {
            assert forall|i: int| 0 <= i < rest.len() implies char_width(#[trigger] rest[i]) >= 1 by {
                assert(rest[i] == s[i + 1]);
            }
        }
        lemma_put_chars_cells(cells2, cols, rows, col + w, r, rest, style);
        let out = put_chars(cells, cc, rr, TermScalar::Finite(col as i64), rs, s, style);
        assert(out == put_chars(cells2, cc, rr, TermScalar::Finite((col + w) as i64), rs, rest, style));
        law_get_after_set(cells, cc, rr, TermScalar::Finite(col as i64), rs, cell, TermScalar::Finite(col as i64), rs);
        assert(in_grid(cc, rr, TermScalar::Finite(col as i64), rs));
        assert forall|k: int| 0 <= k < s.len() implies cell_of(
            out,
            cc,
            rr,
            TermScalar::Finite((col + #[trigger] width_before(s, k)) as i64),
            rs,
        ) == (TermCell { ch: s[k], style }) by {
            if k == 0 {
                assert(s.take(0) =~= Seq::<char>::empty());
                assert(width_before(s, 0) == 0);
                assert(!starts_char(rest, col - (col + w))) by {
                    if starts_char(rest, col - (col + w)) {
                        let j = choose|j: int| 0 <= j < rest.len() && width_before(rest, j) == col - (col + w);
                        lemma_width_before_mono(rest, 0, j);
                    }
                }
            } else {
                lemma_width_before_first(s, k);
                assert(s[k] == rest[k - 1]);
                assert(width_before(rest, k - 1) + (col + w) == col + width_before(s, k));
            }
        }
        assert forall|p: int, q: int|
            0 <= p < cols && 0 <= q < rows && !(q == r && starts_char(s, p - col)) implies #[trigger] cell_of(
            out,
            cc,
            rr,
            TermScalar::Finite(p as i64),
            TermScalar::Finite(q as i64),
        ) == cell_of(cells, cc, rr, TermScalar::Finite(p as i64), TermScalar::Finite(q as i64)) by {
            if q == r && starts_char(rest, p - (col + w)) {
                let j = choose|j: int| 0 <= j < rest.len() && width_before(rest, j) == p - (col + w);
                lemma_width_before_first(s, j + 1);
                assert(width_before(s, j + 1) == p - col);
                assert(starts_char(s, p - col));
            }
            if q == r && p == col {
                assert(s.take(0) =~= Seq::<char>::empty());
                assert(width_before(s, 0) == p - col);
                assert(starts_char(s, p - col));
            }
            law_get_after_set(
                cells,
                cc,
                rr,
                TermScalar::Finite(col as i64),
                rs,
                cell,
                TermScalar::Finite(p as i64),
                TermScalar::Finite(q as i64),
            );
        }
    }
}


/// Where the cells before column `e` end in a non-blank one and the cells
/// from `e` up to `c` are blank, the row ends at `e`.
proof fn lemma_line_end_at(cells: Seq<TermCell>, cols: TermScalar, rows: TermScalar, r: int, e: int, c: int)
    requires
        0 <= e <= c <= i32::MAX,
        e > 0 ==> cell_of(cells, cols, rows, TermScalar::Finite((e - 1) as i64), TermScalar::Finite(r as i64))
            != TermCell::blank_spec(),
        forall|p: int|
            e <= p < c ==> #[trigger] cell_of(cells, cols, rows, TermScalar::Finite(p as i64), TermScalar::Finite(
                r as i64,
            )) == TermCell::blank_spec(),
    ensures
        line_end(cells, cols, rows, r, c) == e,
    decreases c,
{
    if c > e {
        assert(cell_of(cells, cols, rows, TermScalar::Finite((c - 1) as i64), TermScalar::Finite(r as i64))
            == TermCell::blank_spec());
        lemma_line_end_at(cells, cols, rows, r, e, c - 1);
    }
}

/// The ANSI text of a row whose cells at the widths before each character
/// of `t` hold those characters in the default style, from the `k`-th
/// character to the column after the last one: the characters from the
/// `k`-th on, each once, with nothing between them.
proof fn lemma_ansi_of_chars(
    cells: Seq<TermCell>,
    cols: TermScalar,
    rows: TermScalar,
    r: int,
    t: Seq<char>,
    k: int,
)
    requires
        0 <= k <= t.len(),
        t.len() > 0,
        all_visible_width(t),
        chars_width(t) <= i32::MAX,
        forall|j: int|
            0 <= j < t.len() ==> cell_of(
                cells,
                cols,
                rows,
                TermScalar::Finite(#[trigger] width_before(t, j) as i64),
                TermScalar::Finite(r as i64),
            ) == (TermCell { ch: t[j], style: TermStyle::default_spec() }),
    ensures
        ansi_cells(
            cells,
            cols,
            rows,
            r,
            width_before(t, k),
            width_before(t, t.len() - 1) + 1,
            TermStyle::default_spec(),
            false,
        ) == t.subrange(k, t.len() as int),
    decreases t.len() - k,
{
    let end = width_before(t, t.len() - 1) + 1;
    lemma_width_before_mono(t, k, t.len() as int);
    if k == t.len() {
        lemma_width_before_mono(t, t.len() - 1, t.len() as int);
        assert(t.subrange(k, t.len() as int) =~= Seq::<char>::empty());
    } else {
        lemma_width_before_mono(t, k, t.len() - 1);
        lemma_width_before_step(t, k);
        let col = width_before(t, k);
        assert(t[k] == t[k]);
        assert(char_width(t[k]) >= 1);
        assert(char_step(t[k]) == char_width(t[k]));
        lemma_ansi_of_chars(cells, cols, rows, r, t, k + 1);
        assert(t.subrange(k, t.len() as int) =~= seq![t[k]] + t.subrange(k + 1, t.len() as int));
    }
}

/// What `put_text` writes, `to_ansi` reads back: in a blank grid, a text
/// written in the default style at the start of a row, whose characters
/// all take columns, which fits the row and does not end in a space,
/// renders as that row's ANSI line exactly the text and a newline — each
/// character once, with nothing for the further columns a wide character
/// covers.
pub proof fn law_ansi_reads_back_text(cols: int, rows: int, r: int, t: Seq<char>)
    requires
        0 <= cols <= i32::MAX,
        0 <= rows <= i32::MAX,
        cols * rows <= i32::MAX,
        0 <= r < rows,
        all_visible_width(t),
        chars_width(t) <= cols,
        t.len() > 0 ==> t.last() != ' ',
    ensures
        ({
            let cc = TermScalar::Finite(cols as i64);
            let rr = TermScalar::Finite(rows as i64);
            let blank = Seq::new((cols * rows) as nat, |i: int| TermCell::blank_spec());
            let out = put_text_cells(
                blank,
                cc,
                rr,
                TermScalar::Finite(0),
                TermScalar::Finite(r as i64),
                t,
                TermStyle::default_spec(),
            );
            ansi_line(out, cc, rr, r) == t.push('\n')
        }),
{
    let cc = TermScalar::Finite(cols as i64);
    let rr = TermScalar::Finite(rows as i64);
    let rs = TermScalar::Finite(r as i64);
    let blank = Seq::new((cols * rows) as nat, |i: int| TermCell::blank_spec());
    let st = TermStyle::default_spec();
    let out = put_text_cells(blank, cc, rr, TermScalar::Finite(0), rs, t, st);
    assert(out == put_chars(blank, cc, rr, TermScalar::Finite(0), rs, t, st));
    lemma_put_chars_cells(blank, cols, rows, 0, r, t, st);
    assert forall|p: int|
        0 <= p < cols && 0 <= r < rows implies #[trigger] cell_of(
        blank,
        cc,
        rr,
        TermScalar::Finite(p as i64),
        rs,
    ) == TermCell::blank_spec() by {
        lemma_index_in_range(p, r, cols, rows);
    }
    assert(cc.get_spec() as int == cols);
    if t.len() == 0 {
        assert forall|p: int| 0 <= p < cols implies #[trigger] cell_of(
            out,
            cc,
            rr,
            TermScalar::Finite(p as i64),
            rs,
        ) == TermCell::blank_spec() by {
            assert(!starts_char(t, p - 0));
        }
        lemma_line_end_at(out, cc, rr, r, 0, cols);
        assert(ansi_cells(out, cc, rr, r, 0, 0, st, false) =~= Seq::<char>::empty());
        assert(Seq::<char>::empty() + seq!['\n'] =~= t.push('\n'));
    } else {
        let n = t.len() as int;
        let e = width_before(t, n - 1) + 1;
        lemma_width_before_mono(t, n - 1, n);
        lemma_width_before_step(t, n - 1);
        assert(t.take(n) =~= t);
        assert(e <= cols);
        assert(cell_of(out, cc, rr, TermScalar::Finite((0 + width_before(t, n - 1)) as i64), rs) == (TermCell {
            ch: t[n - 1],
            style: st,
        }));
        assert(t[n - 1] == t.last());
        assert forall|p: int| e <= p < cols implies #[trigger] cell_of(
            out,
            cc,
            rr,
            TermScalar::Finite(p as i64),
            rs,
        ) == TermCell::blank_spec() by {
            if starts_char(t, p - 0) {
                let j = choose|j: int| 0 <= j < t.len() && width_before(t, j) == p - 0;
                lemma_width_before_mono(t, j, n - 1);
            }
        }
        lemma_line_end_at(out, cc, rr, r, e, cols);
        assert forall|j: int| 0 <= j < t.len() implies cell_of(
            out,
            cc,
            rr,
            TermScalar::Finite(#[trigger] width_before(t, j) as i64),
            rs,
        ) == (TermCell { ch: t[j], style: st }) by {
            assert(0 + width_before(t, j) == width_before(t, j));
        }
        assert(t.take(0) =~= Seq::<char>::empty());
        assert(width_before(t, 0) == 0);
        lemma_ansi_of_chars(out, cc, rr, r, t, 0);
        assert(t.subrange(0, n) =~= t);
    }
}

} // verus!
