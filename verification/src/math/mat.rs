//! Matrices, vectors and case distinctions.
//!
//! All three wrap a body frame with stretched delimiters (see
//! [`wrap_with_delimiters`]): a vector stacks its entries, a case block
//! stacks its branches with a single delimiter, and a matrix lays its cells
//! out in a grid.

use vstd::prelude::*;
use crate::config::RenderMode;
use crate::frame::{TermFrame, TermFrameItem};
use crate::geom::{Col, Row, TermPoint, TermSize};
use crate::scalar::{TermScalar, seq_max, seq_sum};
use super::delims::{cases_delimiters, is_wrapped, wrap_with_delimiters};
use super::fragment::TermMathFrameFragment;
use super::run::{compose_vertical, count_scalar, is_vcomposition, offsets};

verus! {

/// The empty one-cell body of an empty vector, matrix or case block.
fn empty_body() -> (r: TermFrame)
    ensures
        r.is_empty_of(TermSize { cols: TermScalar::Finite(1), rows: TermScalar::Finite(1) }),
{
    TermFrame::new(TermSize::new(TermScalar::new(1), TermScalar::new(1)))
}

/// Lay out a vector: its entries stacked top to bottom with no gap and the
/// baseline in the middle entry, wrapped with the delimiters; an empty
/// vector wraps an empty one-cell body.
pub fn vec_frame(mode: RenderMode, frames: Vec<TermFrame>, open: Option<char>, close: Option<char>) -> (r:
    TermMathFrameFragment)
    ensures
        exists|body: TermFrame|
            {
                &&& (frames@.len() == 0 ==> body.is_empty_of(
                    TermSize { cols: TermScalar::Finite(1), rows: TermScalar::Finite(1) },
                ))
                &&& (frames@.len() > 0 ==> is_vcomposition(
                    body,
                    frames@,
                    TermScalar::Finite(0),
                    (frames@.len() / 2) as int,
                ))
                &&& #[trigger] is_wrapped(r, mode, body, open, close)
            },
{
    let ghost fs = frames@;
    let body = if frames.len() == 0 {
        empty_body()
    } else {
        let mid = frames.len() / 2;
        compose_vertical(frames, TermScalar::zero(), mid)
    };
    let r = wrap_with_delimiters(mode, body, open, close);
    assert(fs.len() > 0 ==> is_vcomposition(body, fs, TermScalar::Finite(0), (fs.len() / 2) as int));
    r
}

/// The delimiter on the left of a case block: none when reversed.
pub open spec fn cases_open(delim_open: Option<char>, reverse: bool) -> Option<char> {
    if reverse {
        None
    } else {
        delim_open
    }
}

/// The delimiter on the right of a case block: the delimiter when reversed.
pub open spec fn cases_close(delim_open: Option<char>, reverse: bool) -> Option<char> {
    if reverse {
        delim_open
    } else {
        None
    }
}

/// Lay out a case block: its branches stacked top to bottom with no gap,
/// the baseline at half the height, and the delimiter on the left (on the
/// right when reversed); an empty block wraps an empty one-cell body.
pub fn cases_frame(
    mode: RenderMode,
    frames: Vec<TermFrame>,
    delim_open: Option<char>,
    reverse: bool,
) -> (r: TermMathFrameFragment)
    ensures
        exists|body: TermFrame|
            {
                &&& (frames@.len() == 0 ==> body.is_empty_of(
                    TermSize { cols: TermScalar::Finite(1), rows: TermScalar::Finite(1) },
                ))
                &&& (frames@.len() > 0 ==> {
                    &&& is_vcomposition(
                        TermFrame {
                            baseline: TermScalar::Finite(0).add_spec(frames@[0].baseline).max_spec(
                                TermScalar::Finite(0),
                            ),
                            ..body
                        },
                        frames@,
                        TermScalar::Finite(0),
                        0,
                    )
                    &&& body.baseline == body.size.rows.div_spec(TermScalar::Finite(2))
                })
                &&& #[trigger] is_wrapped(
                    r,
                    mode,
                    body,
                    cases_open(delim_open, reverse),
                    cases_close(delim_open, reverse),
                )
            },
{
    let ghost fs = frames@;
    let (open, close) = cases_delimiters(delim_open, reverse);
    if frames.len() == 0 {
        let body = empty_body();
        let r = wrap_with_delimiters(mode, body, open, close);
        assert(body.is_empty_of(TermSize { cols: TermScalar::Finite(1), rows: TermScalar::Finite(1) }));
        assert(is_wrapped(r, mode, body, open, close));
        return r;
    }
    let mut body = compose_vertical(frames, TermScalar::zero(), 0);
    let ghost stack = body;
    let half = body.rows().div(TermScalar::new(2));
    body.set_baseline(half);
    let r = wrap_with_delimiters(mode, body, open, close);
    assert(is_vcomposition(stack, fs, TermScalar::Finite(0), 0));
    assert(TermFrame {
        baseline: TermScalar::Finite(0).add_spec(fs[0].baseline).max_spec(TermScalar::Finite(0)),
        ..body
    } == stack);
    r
}

// ── Matrices ─────────────────────────────────────────────────────────────

/// The cells of a grid as sequences.
pub open spec fn grid_view(g: Seq<Vec<TermFrame>>) -> Seq<Seq<TermFrame>> {
    g.map_values(|v: Vec<TermFrame>| v@)
}

/// The width of the cell in column `c` of a row, or 0 where the row is
/// shorter.
pub open spec fn cell_width_at(row: Seq<TermFrame>, c: int) -> Col {
    if c < row.len() {
        row[c].size.cols
    } else {
        TermScalar::Finite(0)
    }
}

/// The width of column `c`: the widest of its cells, at least one.
pub open spec fn col_width_spec(g: Seq<Seq<TermFrame>>, c: int) -> Col {
    seq_max(Seq::new(g.len(), |r: int| cell_width_at(g[r], c))).max_spec(TermScalar::Finite(1))
}

/// The height of a row: the tallest of its cells (0 for none), at least one.
pub open spec fn row_height_spec(row: Seq<TermFrame>) -> Row {
    (if row.len() == 0 {
        TermScalar::Finite(0)
    } else {
        seq_max(row.map_values(|f: TermFrame| f.size.rows))
    }).max_spec(TermScalar::Finite(1))
}

/// The number of columns of a grid: the length of its longest row.
pub open spec fn grid_cols(g: Seq<Seq<TermFrame>>) -> int
    decreases g.len(),
{
    if g.len() == 0 {
        0
    } else {
        let m = grid_cols(g.drop_last());
        if m < g.last().len() {
            g.last().len() as int
        } else {
            m
        }
    }
}

/// The widths of the columns of a grid.
pub open spec fn col_widths(g: Seq<Seq<TermFrame>>) -> Seq<Col> {
    Seq::new(grid_cols(g) as nat, |c: int| col_width_spec(g, c))
}

/// The heights of the rows of a grid.
pub open spec fn row_heights(g: Seq<Seq<TermFrame>>) -> Seq<Row> {
    g.map_values(|row: Seq<TermFrame>| row_height_spec(row))
}

/// The index of the first cell of row `r` in row-major order.
pub open spec fn row_start(g: Seq<Seq<TermFrame>>, r: int) -> int
    decreases r,
{
    if r <= 0 {
        0
    } else {
        row_start(g, r - 1) + g[r - 1].len()
    }
}

/// The placed item of the cell in row `r`, column `c`: centred in its slot
/// (rounded toward zero, never before the slot's start), the slots laid out
/// with one column and one row between each two.
pub open spec fn mat_item(g: Seq<Seq<TermFrame>>, r: int, c: int) -> (TermPoint, TermFrameItem) {
    let cell = g[r][c];
    let cw = col_width_spec(g, c);
    let rh = row_height_spec(g[r]);
    let x = offsets(col_widths(g), TermScalar::Finite(1), c);
    let y = offsets(row_heights(g), TermScalar::Finite(1), r);
    (
        TermPoint {
            col: x.add_spec(cw.sub_spec(cell.size.cols).div_spec(TermScalar::Finite(2)).max_spec(
                TermScalar::Finite(0),
            )),
            row: y.add_spec(rh.sub_spec(cell.size.rows).div_spec(TermScalar::Finite(2)).max_spec(
                TermScalar::Finite(0),
            )),
        },
        TermFrameItem::Frame(cell),
    )
}

/// Whether `f` is the body of a matrix of the cells `g` (at least one cell
/// in some row): as wide as the columns with a column between each two and
/// as tall as the rows with a row between each two (each at least one),
/// the baseline at half the height, and each cell centred in its slot, in
/// row-major order.
pub open spec fn is_matrix_body(f: TermFrame, g: Seq<Seq<TermFrame>>) -> bool {
    let nc = grid_cols(g);
    let total_cols = seq_sum(col_widths(g)).add_spec(
        TermScalar::Finite(1).mul_spec(TermScalar::fin(nc - 1)),
    );
    let total_rows = seq_sum(row_heights(g)).add_spec(
        TermScalar::Finite(1).mul_spec(TermScalar::fin(g.len() - 1)),
    );
    &&& f.size == (TermSize {
        cols: total_cols.max_spec(TermScalar::Finite(1)),
        rows: total_rows.max_spec(TermScalar::Finite(1)),
    })
    &&& f.baseline == total_rows.div_spec(TermScalar::Finite(2)).max_spec(TermScalar::Finite(0))
    &&& f.content_height == TermScalar::Finite(0)
    &&& f.items@.len() == row_start(g, g.len() as int)
    &&& forall|r: int, c: int|
        0 <= r < g.len() && 0 <= c < g[r].len() ==> f.items@[row_start(g, r) + c] == #[trigger] mat_item(
            g,
            r,
            c,
        )
}

/// Row starts grow with the rows.
proof fn lemma_row_start_mono(g: Seq<Seq<TermFrame>>, a: int, b: int)
    requires
        0 <= a <= b <= g.len(),
    ensures
        row_start(g, a) <= row_start(g, b),
        a < b ==> row_start(g, a) + g[a].len() <= row_start(g, b),
    decreases b - a,
{
    if a < b {
        lemma_row_start_mono(g, a, b - 1);
    }
}

/// The longest row is no shorter than any row.
proof fn lemma_grid_cols(g: Seq<Seq<TermFrame>>)
    ensures
        forall|r: int| 0 <= r < g.len() ==> (#[trigger] g[r]).len() <= grid_cols(g),
        grid_cols(g) >= 0,
        g.len() > 0 && grid_cols(g) > 0 ==> exists|r: int| 0 <= r < g.len() && #[trigger] g[r].len()
            == grid_cols(g),
    decreases g.len(),
{
    if g.len() > 0 {
        lemma_grid_cols(g.drop_last());
        assert forall|r: int| 0 <= r < g.len() implies (#[trigger] g[r]).len() <= grid_cols(g) by {
            if r < g.len() - 1 {
                assert(g[r] == g.drop_last()[r]);
            }
        }
        if grid_cols(g) > 0 && grid_cols(g.drop_last()) >= g.last().len() {
            let r = choose|r: int| 0 <= r < g.drop_last().len() && #[trigger] g.drop_last()[r].len()
                == grid_cols(g.drop_last());
            assert(g[r] == g.drop_last()[r]);
        }
    }
}

/// The width of column `c` of a grid.
fn col_width(grid: &Vec<Vec<TermFrame>>, c: usize) -> (r: Col)
    requires
        grid@.len() > 0,
    ensures
        r == col_width_spec(grid_view(grid@), c as int),
{
    let ghost g = grid_view(grid@);
    let ghost s = Seq::new(g.len(), |r: int| cell_width_at(g[r], c as int));
    let mut m = if c < grid[0].len() {
        grid[0][c].cols()
    } else {
        TermScalar::zero()
    };
    assert(m == s[0]);
    assert(s.subrange(0, 1).drop_last() =~= Seq::<Col>::empty());
    let mut r: usize = 1;
    while r < grid.len()
        invariant
            1 <= r <= grid@.len(),
            g == grid_view(grid@),
            s == Seq::new(g.len(), |r: int| cell_width_at(g[r], c as int)),
            m == seq_max(s.subrange(0, r as int)),
        decreases grid@.len() - r,
    {
        proof {
            assert(s.subrange(0, r + 1).drop_last() =~= s.subrange(0, r as int));
        }
        let w = if c < grid[r].len() {
            grid[r][c].cols()
        } else {
            TermScalar::zero()
        };
        assert(w == s[r as int]);
        m = m.max(w);
        r = r + 1;
    }
    assert(s.subrange(0, s.len() as int) =~= s);
    m.max(TermScalar::new(1))
}

/// The height of a row of a grid.
fn row_height(row: &Vec<TermFrame>) -> (r: Row)
    ensures
        r == row_height_spec(row@),
{
    if row.len() == 0 {
        return TermScalar::zero().max(TermScalar::new(1));
    }
    let ghost s = row@.map_values(|f: TermFrame| f.size.rows);
    let mut m = row[0].rows();
    assert(s.subrange(0, 1).drop_last() =~= Seq::<Row>::empty());
    let mut i: usize = 1;
    while i < row.len()
        invariant
            1 <= i <= row@.len(),
            s == row@.map_values(|f: TermFrame| f.size.rows),
            m == seq_max(s.subrange(0, i as int)),
        decreases row@.len() - i,
    {
        proof {
            assert(s.subrange(0, i + 1).drop_last() =~= s.subrange(0, i as int));
        }
        m = m.max(row[i].rows());
        i = i + 1;
    }
    assert(s.subrange(0, s.len() as int) =~= s);
    m.max(TermScalar::new(1))
}

/// Lay out the body of a matrix (see [`is_matrix_body`]).
pub fn build_matrix_body(cell_grid: Vec<Vec<TermFrame>>) -> (r: TermFrame)
    requires
        grid_cols(grid_view(cell_grid@)) > 0,
    ensures
        is_matrix_body(r, grid_view(cell_grid@)),
{
    let ghost g = grid_view(cell_grid@);
    proof {
        lemma_grid_cols(g);
    }
    let num_rows = cell_grid.len();
    let mut num_cols: usize = 0;
    let mut i: usize = 0;
    assert(g.subrange(0, 0) =~= Seq::<Seq<TermFrame>>::empty());
    while i < num_rows
        invariant
            i <= num_rows == cell_grid@.len() == g.len(),
            g == grid_view(cell_grid@),
            num_cols == grid_cols(g.subrange(0, i as int)),
        decreases num_rows - i,
    {
        proof {
            assert(g.subrange(0, i + 1).drop_last() =~= g.subrange(0, i as int));
        }
        if num_cols < cell_grid[i].len() {
            num_cols = cell_grid[i].len();
        }
        i = i + 1;
    }
    assert(g.subrange(0, g.len() as int) =~= g);
    let ghost cws = col_widths(g);
    let ghost rhs = row_heights(g);
    let mut widths: Vec<Col> = Vec::new();
    let mut c: usize = 0;
    while c < num_cols
        invariant
            c <= num_cols == grid_cols(g),
            num_rows == cell_grid@.len() == g.len() > 0,
            g == grid_view(cell_grid@),
            cws == col_widths(g),
            widths@ == cws.subrange(0, c as int),
        decreases num_cols - c,
    {
        widths.push(col_width(&cell_grid, c));
        c = c + 1;
        assert(widths@ =~= cws.subrange(0, c as int));
    }
    assert(widths@ =~= cws);
    let mut heights: Vec<Row> = Vec::new();
    let mut r: usize = 0;
    while r < num_rows
        invariant
            r <= num_rows == cell_grid@.len() == g.len(),
            g == grid_view(cell_grid@),
            rhs == row_heights(g),
            heights@ == rhs.subrange(0, r as int),
        decreases num_rows - r,
    {
        heights.push(row_height(&cell_grid[r]));
        r = r + 1;
        assert(heights@ =~= rhs.subrange(0, r as int));
    }
    assert(heights@ =~= rhs);
    let col_gap = TermScalar::new(1);
    let row_gap = TermScalar::new(1);
    let total_cols = crate::scalar::sum_of(&widths).add(col_gap.mul(count_scalar(num_cols - 1)));
    let total_rows = crate::scalar::sum_of(&heights).add(row_gap.mul(count_scalar(num_rows - 1)));
    let baseline = total_rows.div(TermScalar::new(2)).max(TermScalar::zero());
    let mut body = TermFrame::new(
        TermSize::new(total_cols.max(TermScalar::new(1)), total_rows.max(TermScalar::new(1))),
    );
    body.set_baseline(baseline);
    let mut y = TermScalar::zero();
    let mut ri: usize = 0;
    for row in it: cell_grid.into_iter()
        invariant
            it.seq() == cell_grid@,
            g == grid_view(cell_grid@),
            col_gap == TermScalar::Finite(1),
            row_gap == TermScalar::Finite(1),
            ri == it.index(),
            ri <= g.len(),
            widths@ == col_widths(g),
            heights@ == row_heights(g),
            y == offsets(heights@, TermScalar::Finite(1), ri as int),
            body.items@.len() == row_start(g, ri as int),
            forall|r2: int, c2: int|
                0 <= r2 < ri && 0 <= c2 < g[r2].len() ==> body.items@[row_start(g, r2) + c2]
                    == #[trigger] mat_item(g, r2, c2),
            body.size == (TermSize {
                cols: total_cols.max_spec(TermScalar::Finite(1)),
                rows: total_rows.max_spec(TermScalar::Finite(1)),
            }),
            body.baseline == baseline,
            body.content_height == TermScalar::Finite(0),
    {
        let ghost k = ri as int;
        proof {
            lemma_grid_cols(g);
            assert(g[k] == row@);
        }
        let row_h = heights[ri];
        let mut x = TermScalar::zero();
        let mut ci: usize = 0;
        let ghost base = body.items@;
        for cell in jt: row.into_iter()
            invariant
                jt.seq() == g[k],
                0 <= k < g.len(),
                col_gap == TermScalar::Finite(1),
                ci == jt.index(),
                g[k].len() <= widths@.len(),
                widths@ == col_widths(g),
                heights@ == row_heights(g),
                row_h == row_height_spec(g[k]),
                y == offsets(heights@, TermScalar::Finite(1), k),
                x == offsets(widths@, TermScalar::Finite(1), ci as int),
                body.items@.len() == base.len() + ci,
                body.items@.subrange(0, base.len() as int) == base,
                forall|c2: int|
                    0 <= c2 < ci ==> body.items@[base.len() + c2] == #[trigger] mat_item(g, k, c2),
                body.size == (TermSize {
                    cols: total_cols.max_spec(TermScalar::Finite(1)),
                    rows: total_rows.max_spec(TermScalar::Finite(1)),
                }),
                body.baseline == baseline,
                body.content_height == TermScalar::Finite(0),
        {
            let col_width = widths[ci];
            let cx = x.add(col_width.sub(cell.cols()).div(TermScalar::new(2)).max(TermScalar::zero()));
            let cy = y.add(row_h.sub(cell.rows()).div(TermScalar::new(2)).max(TermScalar::zero()));
            let ghost before = body.items@;
            body.push_frame(TermPoint::new(cx, cy), cell);
            proof {
                assert(body.items@.subrange(0, base.len() as int) =~= base);
                assert forall|c2: int| 0 <= c2 < ci + 1 implies body.items@[base.len() + c2]
                    == #[trigger] mat_item(g, k, c2) by {
                    if c2 < ci {
                        assert(body.items@[base.len() + c2] == before[base.len() + c2]);
                    }
                }
            }
            x = x.add(col_width).add(col_gap);
            ci = ci + 1;
        }
        proof {
            lemma_row_start_mono(g, k, k + 1);
            assert forall|r2: int, c2: int|
                0 <= r2 < k + 1 && 0 <= c2 < g[r2].len() implies body.items@[row_start(g, r2) + c2]
                == #[trigger] mat_item(g, r2, c2) by {
                lemma_row_start_mono(g, 0, r2);
                if r2 < k {
                    lemma_row_start_mono(g, r2, k);
                    assert(body.items@.subrange(0, base.len() as int)[row_start(g, r2) + c2]
                        == body.items@[row_start(g, r2) + c2]);
                }
            }
        }
        y = y.add(row_h).add(row_gap);
        ri = ri + 1;
    }
    body
}

/// Lay out a matrix of cells, wrapped with the delimiters: its body (see
/// [`is_matrix_body`]), or an empty one-cell body where it has no rows or
/// only empty rows.
pub fn mat_frame(
    mode: RenderMode,
    cell_grid: Vec<Vec<TermFrame>>,
    open: Option<char>,
    close: Option<char>,
) -> (r: TermMathFrameFragment)
    ensures
        exists|body: TermFrame|
            {
                &&& (grid_cols(grid_view(cell_grid@)) == 0 ==> body.is_empty_of(
                    TermSize { cols: TermScalar::Finite(1), rows: TermScalar::Finite(1) },
                ))
                &&& (grid_cols(grid_view(cell_grid@)) > 0 ==> is_matrix_body(
                    body,
                    grid_view(cell_grid@),
                ))
                &&& #[trigger] is_wrapped(r, mode, body, open, close)
            },
{
    let ghost g = grid_view(cell_grid@);
    let mut has_cells = false;
    let mut i: usize = 0;
    while i < cell_grid.len()
        invariant
            i <= cell_grid@.len(),
            g == grid_view(cell_grid@),
            has_cells == (grid_cols(g.subrange(0, i as int)) > 0),
        decreases cell_grid@.len() - i,
    {
        proof {
            assert(g.subrange(0, i + 1).drop_last() =~= g.subrange(0, i as int));
        }
        if cell_grid[i].len() > 0 {
            has_cells = true;
        }
        i = i + 1;
    }
    assert(g.subrange(0, g.len() as int) =~= g);
    let body = if has_cells {
        build_matrix_body(cell_grid)
    } else {
        empty_body()
    };
    let r = wrap_with_delimiters(mode, body, open, close);
    assert(is_wrapped(r, mode, body, open, close));
    assert(grid_cols(g) == 0 ==> body.is_empty_of(
        TermSize { cols: TermScalar::Finite(1), rows: TermScalar::Finite(1) },
    ));
    r
}

} // verus!
