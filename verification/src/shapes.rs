//! Shapes approximated by terminal frames: lines, rectangles and
//! polygons.

use vstd::prelude::*;
use crate::config::RenderMode;
use crate::frame::{TermFrame, TermFrameItem, TermGeometry, TermShape};
use crate::geom::{Col, Row, TermPoint, TermSize};
use crate::scalar::TermScalar;
use crate::style::TermStyle;
use crate::grid::{max_col, max_row};

verus! {

/// Why a shape cannot be laid out.
#[derive(Clone, Copy, PartialEq, Eq, Structural, Debug, Hash)]
pub enum ShapeError {
    /// A line of infinite length.
    InfiniteLine,
    /// A polygon of infinite size.
    InfinitePolygon,
}

impl ShapeError {
    /// The message of the error.
    pub fn message(&self) -> (r: &'static str)
        ensures
            r@ == (match *self {
                ShapeError::InfiniteLine => "cannot create line with infinite length"@,
                ShapeError::InfinitePolygon => "cannot create polygon with infinite size"@,
            }),
    {
        match self {
            ShapeError::InfiniteLine => "cannot create line with infinite length",
            ShapeError::InfinitePolygon => "cannot create polygon with infinite size",
        }
    }
}

/// The stroke character of lines and polygons in each mode.
pub open spec fn line_stroke(mode: RenderMode) -> char {
    if mode is Unicode {
        '─'
    } else {
        '-'
    }
}

/// The frame of a line from the origin to `delta`: as wide and tall as the
/// line's extent (at least one cell each), holding the line shape.  A line
/// of infinite length is refused.
pub fn line_frame(delta: TermPoint, mode: RenderMode, span: u64) -> (r: Result<TermFrame, ShapeError>)
    ensures
        !(delta.col.is_fin() && delta.row.is_fin()) ==> r == Err::<TermFrame, ShapeError>(
            ShapeError::InfiniteLine,
        ),
        (delta.col.is_fin() && delta.row.is_fin()) ==> (r matches Ok(f) && {
            &&& f.size == (TermSize {
                cols: delta.col.abs_spec().max_spec(TermScalar::Finite(1)),
                rows: delta.row.abs_spec().max_spec(TermScalar::Finite(1)),
            })
            &&& f.baseline == TermScalar::Finite(0)
            &&& f.content_height == TermScalar::Finite(0)
            &&& f.items@ == seq![
                (
                    TermPoint::zero_spec(),
                    TermFrameItem::Shape(
                        TermShape {
                            geometry: TermGeometry::Line { delta },
                            fill: None,
                            stroke_char: line_stroke(mode),
                            style: TermStyle::default_spec(),
                            span,
                        },
                    ),
                ),
            ]
        }),
{
    if !delta.col.is_finite() || !delta.row.is_finite() {
        return Err(ShapeError::InfiniteLine);
    }
    let size = TermSize::new(delta.col.abs().max(TermScalar::new(1)), delta.row.abs().max(TermScalar::new(1)));
    let mut frame = TermFrame::new(size);
    let stroke_char = if mode.is_unicode() {
        '─'
    } else {
        '-'
    };
    frame.push_shape(
        TermPoint::zero(),
        TermShape {
            geometry: TermGeometry::Line { delta },
            fill: None,
            stroke_char,
            style: TermStyle::plain(),
            span,
        },
    );
    assert(frame.items@ =~= seq![
        (
            TermPoint::zero_spec(),
            TermFrameItem::Shape(
                TermShape {
                    geometry: TermGeometry::Line { delta },
                    fill: None,
                    stroke_char: line_stroke(mode),
                    style: TermStyle::default_spec(),
                    span,
                },
            ),
        ),
    ]);
    Ok(frame)
}

/// The size of a polygon frame: reaching its largest column and row (each
/// at least one; zero for no points).
pub open spec fn polygon_size(points: Seq<TermPoint>) -> TermSize {
    TermSize {
        cols: (if points.len() == 0 {
            TermScalar::Finite(0)
        } else {
            max_col(points)
        }).max_spec(TermScalar::Finite(1)),
        rows: (if points.len() == 0 {
            TermScalar::Finite(0)
        } else {
            max_row(points)
        }).max_spec(TermScalar::Finite(1)),
    }
}

/// The frame of a closed polygon through `points` (see [`polygon_size`]),
/// filled where `has_fill` is set; it holds the polygon shape unless there
/// are no points.  A polygon of infinite size is refused.
pub fn polygon_frame(points: Vec<TermPoint>, has_fill: bool, mode: RenderMode, span: u64) -> (r: Result<
    TermFrame,
    ShapeError,
>)
    ensures
        !(polygon_size(points@).cols.is_fin() && polygon_size(points@).rows.is_fin()) ==> r == Err::<
            TermFrame,
            ShapeError,
        >(ShapeError::InfinitePolygon),
        (polygon_size(points@).cols.is_fin() && polygon_size(points@).rows.is_fin()) ==> (r matches Ok(
            f,
        ) && {
            &&& f.size == polygon_size(points@)
            &&& f.baseline == TermScalar::Finite(0)
            &&& f.content_height == TermScalar::Finite(0)
            &&& points@.len() == 0 ==> f.items@.len() == 0
            &&& points@.len() > 0 ==> f.items@ == seq![
                (
                    TermPoint::zero_spec(),
                    TermFrameItem::Shape(
                        TermShape {
                            geometry: TermGeometry::Path { points, closed: true },
                            fill: if has_fill {
                                Some('█')
                            } else {
                                None
                            },
                            stroke_char: line_stroke(mode),
                            style: TermStyle::default_spec(),
                            span,
                        },
                    ),
                ),
            ]
        }),
{
    let n = points.len();
    let mut mc = TermScalar::zero();
    let mut mr = TermScalar::zero();
    if n > 0 {
        mc = TermScalar::neg_infinity();
        mr = TermScalar::neg_infinity();
        let mut i: usize = 0;
        assert(points@.subrange(0, 0) =~= Seq::<TermPoint>::empty());
        while i < n
            invariant
                0 <= i <= n == points@.len(),
                mc == max_col(points@.subrange(0, i as int)),
                mr == max_row(points@.subrange(0, i as int)),
            decreases n - i,
        {
            proof {
                assert(points@.subrange(0, i + 1).drop_last() =~= points@.subrange(0, i as int));
            }
            mc = mc.max(points[i].col);
            mr = mr.max(points[i].row);
            i = i + 1;
        }
        assert(points@.subrange(0, n as int) =~= points@);
    }
    let size = TermSize::new(mc.max(TermScalar::new(1)), mr.max(TermScalar::new(1)));
    if !size.is_finite() {
        return Err(ShapeError::InfinitePolygon);
    }
    let mut frame = TermFrame::new(size);
    if n == 0 {
        return Ok(frame);
    }
    let fill_char = if has_fill {
        Some('█')
    } else {
        None
    };
    let stroke_char = if mode.is_unicode() {
        '─'
    } else {
        '-'
    };
    let ghost pts = points;
    frame.push_shape(
        TermPoint::zero(),
        TermShape {
            geometry: TermGeometry::Path { points, closed: true },
            fill: fill_char,
            stroke_char,
            style: TermStyle::plain(),
            span,
        },
    );
    Ok(frame)
}

/// The frame of a rectangle-like shape (rectangle, square, ellipse,
/// circle) of resolved width `w` and height `h`: a width or height that is
/// not positive falls back to `default_width` (at most 20) or 8 rows; a
/// quadratic shape takes the smaller side for both; each side is at least
/// one cell.  The shape is filled where `has_fill` is set, and stroked
/// where `stroke` is set or it has no fill.
pub fn term_shape_frame(
    w: Col,
    h: Row,
    default_width: Col,
    quadratic: bool,
    has_fill: bool,
    stroke: bool,
    span: u64,
) -> (r: TermFrame)
    requires
        w.is_num(),
        h.is_num(),
    ensures
        ({
            let cols = if TermScalar::Finite(0).lt_spec(w) {
                w
            } else {
                default_width.min_spec(TermScalar::Finite(20))
            };
            let rows = if TermScalar::Finite(0).lt_spec(h) {
                h
            } else {
                TermScalar::Finite(8)
            };
            let size = if quadratic {
                TermSize {
                    cols: cols.min_spec(rows).max_spec(TermScalar::Finite(1)),
                    rows: cols.min_spec(rows).max_spec(TermScalar::Finite(1)),
                }
            } else {
                TermSize {
                    cols: cols.max_spec(TermScalar::Finite(1)),
                    rows: rows.max_spec(TermScalar::Finite(1)),
                }
            };
            &&& r.size == size
            &&& r.baseline == TermScalar::Finite(0)
            &&& r.content_height == TermScalar::Finite(0)
            &&& r.items@ == seq![
                (
                    TermPoint::zero_spec(),
                    TermFrameItem::Shape(
                        TermShape {
                            geometry: TermGeometry::Rect { size },
                            fill: if has_fill {
                                Some('█')
                            } else {
                                None
                            },
                            stroke_char: if stroke || !has_fill {
                                '*'
                            } else {
                                ' '
                            },
                            style: TermStyle::default_spec(),
                            span,
                        },
                    ),
                ),
            ]
        }),
{
    let default_w = default_width.min(TermScalar::new(20));
    let default_h = TermScalar::new(8);
    let cols = if w.gt(TermScalar::zero()) {
        w
    } else {
        default_w
    };
    let rows = if h.gt(TermScalar::zero()) {
        h
    } else {
        default_h
    };
    let size = if quadratic {
        let side = cols.min(rows).max(TermScalar::new(1));
        TermSize::new(side, side)
    } else {
        TermSize::new(cols.max(TermScalar::new(1)), rows.max(TermScalar::new(1)))
    };
    let mut frame = TermFrame::new(size);
    let has_stroke = stroke || !has_fill;
    let fill_char = if has_fill {
        Some('█')
    } else {
        None
    };
    let stroke_char = if has_stroke {
        '*'
    } else {
        ' '
    };
    frame.push_shape(
        TermPoint::zero(),
        TermShape { geometry: TermGeometry::Rect { size }, fill: fill_char, stroke_char, style: TermStyle::plain(), span },
    );
    assert(frame.items@ =~= seq![
        (
            TermPoint::zero_spec(),
            TermFrameItem::Shape(
                TermShape {
                    geometry: TermGeometry::Rect { size },
                    fill: fill_char,
                    stroke_char,
                    style: TermStyle::default_spec(),
                    span,
                },
            ),
        ),
    ]);
    frame
}

} // verus!
