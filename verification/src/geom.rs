//! Sizes, points, axes and alignment in terminal cells.

use vstd::prelude::*;
use crate::scalar::TermScalar;

verus! {

/// Column coordinate (0 = leftmost column).
pub type Col = TermScalar;

/// Row coordinate (0 = topmost row).
pub type Row = TermScalar;

/// Width × height measured in terminal cells.
#[derive(Clone, Copy, PartialEq, Eq, Structural, Debug, Hash)]
pub struct TermSize {
    /// Width in terminal columns.
    pub cols: Col,
    /// Height in terminal rows.
    pub rows: Row,
}

impl TermSize {
    /// The size with no extent.
    pub fn zero() -> (r: TermSize)
        ensures
            r.cols == TermScalar::Finite(0),
            r.rows == TermScalar::Finite(0),
    {
        TermSize { cols: TermScalar::zero(), rows: TermScalar::zero() }
    }

    /// A size from its width and height.
    pub fn new(cols: Col, rows: Row) -> (r: TermSize)
        ensures
            r.cols == cols,
            r.rows == rows,
    {
        TermSize { cols, rows }
    }

    /// Whether either dimension is non-positive.
    pub open spec fn is_empty_spec(self) -> bool {
        self.cols.le_spec(TermScalar::Finite(0)) || self.rows.le_spec(TermScalar::Finite(0))
    }

    /// True if either dimension is non-positive.
    pub fn is_empty(self) -> (r: bool)
        requires
            self.cols.is_num(),
            self.rows.is_num(),
        ensures
            r == self.is_empty_spec(),
    {
        self.cols.le(TermScalar::zero()) || self.rows.le(TermScalar::zero())
    }

    /// Component-wise maximum.
    pub fn max(self, other: TermSize) -> (r: TermSize)
        ensures
            r.cols == self.cols.max_spec(other.cols),
            r.rows == self.rows.max_spec(other.rows),
    {
        TermSize { cols: self.cols.max(other.cols), rows: self.rows.max(other.rows) }
    }

    /// Component-wise minimum.
    pub fn min(self, other: TermSize) -> (r: TermSize)
        ensures
            r.cols == self.cols.min_spec(other.cols),
            r.rows == self.rows.min_spec(other.rows),
    {
        TermSize { cols: self.cols.min(other.cols), rows: self.rows.min(other.rows) }
    }

    /// Whether the size is finite in both axes.
    pub fn is_finite(self) -> (r: bool)
        ensures
            r == (self.cols.is_fin() && self.rows.is_fin()),
    {
        self.cols.is_finite() && self.rows.is_finite()
    }

    /// Component-wise sum.
    pub fn add(self, other: TermSize) -> (r: TermSize)
        ensures
            r.cols == self.cols.add_spec(other.cols),
            r.rows == self.rows.add_spec(other.rows),
    {
        TermSize { cols: self.cols.add(other.cols), rows: self.rows.add(other.rows) }
    }

    /// Component-wise difference.
    pub fn sub(self, other: TermSize) -> (r: TermSize)
        ensures
            r.cols == self.cols.sub_spec(other.cols),
            r.rows == self.rows.sub_spec(other.rows),
    {
        TermSize { cols: self.cols.sub(other.cols), rows: self.rows.sub(other.rows) }
    }

    /// Each component mapped through `f`.
    pub fn map<F: Fn(TermScalar) -> TermScalar>(self, f: F) -> (r: TermSize)
        requires
            forall|x: TermScalar| f.requires((x,)),
        ensures
            f.ensures((self.cols,), r.cols),
            f.ensures((self.rows,), r.rows),
    {
        TermSize { cols: f(self.cols), rows: f(self.rows) }
    }
}

/// Column + row position.  Origin = top-left of the containing frame.
#[derive(Clone, Copy, PartialEq, Eq, Structural, Debug, Hash)]
pub struct TermPoint {
    /// The column.
    pub col: Col,
    /// The row.
    pub row: Row,
}

impl TermPoint {
    /// The origin.
    pub open spec fn zero_spec() -> TermPoint {
        TermPoint { col: TermScalar::Finite(0), row: TermScalar::Finite(0) }
    }

    /// The origin.
    pub fn zero() -> (r: TermPoint)
        ensures
            r.col == TermScalar::Finite(0),
            r.row == TermScalar::Finite(0),
    {
        TermPoint { col: TermScalar::zero(), row: TermScalar::zero() }
    }

    /// A point from its column and row.
    pub fn new(col: Col, row: Row) -> (r: TermPoint)
        ensures
            r.col == col,
            r.row == row,
    {
        TermPoint { col, row }
    }

    /// The same point in another column.
    pub fn with_col(self, col: Col) -> (r: TermPoint)
        ensures
            r.col == col,
            r.row == self.row,
    {
        TermPoint { col, row: self.row }
    }

    /// The same point in another row.
    pub fn with_row(self, row: Row) -> (r: TermPoint)
        ensures
            r.col == self.col,
            r.row == row,
    {
        TermPoint { col: self.col, row }
    }

    /// The component-wise sum.
    pub open spec fn add_spec(self, other: TermPoint) -> TermPoint {
        TermPoint { col: self.col.add_spec(other.col), row: self.row.add_spec(other.row) }
    }

    /// Component-wise sum.
    pub fn add(self, other: TermPoint) -> (r: TermPoint)
        ensures
            r == self.add_spec(other),
    {
        TermPoint { col: self.col.add(other.col), row: self.row.add(other.row) }
    }

    /// Component-wise difference.
    pub fn sub(self, other: TermPoint) -> (r: TermPoint)
        ensures
            r.col == self.col.sub_spec(other.col),
            r.row == self.row.sub_spec(other.row),
    {
        TermPoint { col: self.col.sub(other.col), row: self.row.sub(other.row) }
    }

    /// Component-wise negation.
    pub fn neg(self) -> (r: TermPoint)
        ensures
            r.col == self.col.neg_spec(),
            r.row == self.row.neg_spec(),
    {
        TermPoint { col: self.col.neg(), row: self.row.neg() }
    }
}

/// A pair of values, one per axis.
#[derive(Clone, Copy, PartialEq, Eq, Structural, Debug, Hash)]
pub struct Axes<T> {
    /// The horizontal component.
    pub x: T,
    /// The vertical component.
    pub y: T,
}

impl<T> Axes<T> {
    /// A pair from its two components.
    pub fn new(x: T, y: T) -> (r: Axes<T>)
        ensures
            r.x == x,
            r.y == y,
    {
        Axes { x, y }
    }
}

/// An axis of the plane.
#[derive(Clone, Copy, PartialEq, Eq, Structural, Debug, Hash)]
pub enum Axis {
    /// The horizontal axis.
    X,
    /// The vertical axis.
    Y,
}

/// Alignment within a larger extent.
#[derive(Clone, Copy, PartialEq, Eq, Structural, Debug, Hash)]
pub enum Alignment {
    /// At the start.
    Start,
    /// Centered.
    Center,
    /// At the end.
    End,
}

/// The offset that places `content` in `total` with the given alignment:
/// nothing at the start, the whole free space at the end, half of it
/// (rounded toward zero) when centered.  Free space is never negative
/// (an undefined difference counts as none).
pub open spec fn align_offset(align: Alignment, total: TermScalar, content: TermScalar) -> TermScalar {
    let free = total.sub_spec(content).max_spec(TermScalar::Finite(0));
    match align {
        Alignment::Start => TermScalar::Finite(0),
        Alignment::Center => free.div_spec(TermScalar::Finite(2)),
        Alignment::End => free,
    }
}

/// Horizontal offset of `content` columns aligned within `total` columns.
pub fn align_x(align: Alignment, total: Col, content: Col) -> (r: Col)
    ensures
        r == align_offset(align, total, content),
{
    align_offset_exec(align, total, content)
}

/// Vertical offset of `content` rows aligned within `total` rows.
pub fn align_y(align: Alignment, total: Row, content: Row) -> (r: Row)
    ensures
        r == align_offset(align, total, content),
{
    align_offset_exec(align, total, content)
}

fn align_offset_exec(align: Alignment, total: TermScalar, content: TermScalar) -> (r: TermScalar)
    ensures
        r == align_offset(align, total, content),
{
    match align {
        Alignment::Start => TermScalar::zero(),
        Alignment::Center => {
            let free = total.sub(content).max(TermScalar::zero());
            free.div(TermScalar::new(2))
        },
        Alignment::End => total.sub(content).max(TermScalar::zero()),
    }
}

/// A size expressed along the stacking (main) and the other (cross) axis.
#[derive(Clone, Copy, PartialEq, Eq, Structural, Debug, Hash)]
pub struct GenericSize<T> {
    /// The extent along the cross axis.
    pub cross: T,
    /// The extent along the main axis.
    pub main: T,
}

impl<T> GenericSize<T> {
    /// A generic size from its cross and main extents.
    pub fn new(cross: T, main: T) -> (r: GenericSize<T>)
        ensures
            r.cross == cross,
            r.main == main,
    {
        GenericSize { cross, main }
    }

    /// The concrete axes, given the main axis.
    pub fn into_axes(self, main: Axis) -> (r: Axes<T>)
        ensures
            main == Axis::X ==> r.x == self.main && r.y == self.cross,
            main == Axis::Y ==> r.x == self.cross && r.y == self.main,
    {
        match main {
            Axis::X => Axes { x: self.main, y: self.cross },
            Axis::Y => Axes { x: self.cross, y: self.main },
        }
    }
}

impl GenericSize<TermScalar> {
    /// The zero generic size.
    pub fn zero() -> (r: GenericSize<TermScalar>)
        ensures
            r.cross == TermScalar::Finite(0),
            r.main == TermScalar::Finite(0),
    {
        GenericSize { cross: TermScalar::zero(), main: TermScalar::zero() }
    }

    /// The point at this offset, given the main axis.
    pub fn to_point(self, main: Axis) -> (r: TermPoint)
        ensures
            main == Axis::X ==> r.col == self.main && r.row == self.cross,
            main == Axis::Y ==> r.col == self.cross && r.row == self.main,
    {
        let axes = self.into_axes(main);
        TermPoint::new(axes.x, axes.y)
    }
}

} // verus!
