//! Padding: shrinking a region by an inset and growing a frame by it.
//!
//! The insets are given resolved to whole columns and rows.

use vstd::prelude::*;
use crate::frame::TermFrame;
use crate::geom::{Col, Row, TermPoint, TermSize};
use crate::scalar::TermScalar;

verus! {

/// A size shrunk by an inset: each axis less its two insets, at least 0.
pub open spec fn shrink_spec(size: TermSize, left: Col, right: Col, top: Row, bottom: Row) -> TermSize {
    TermSize {
        cols: size.cols.sub_spec(left).sub_spec(right).max_spec(TermScalar::Finite(0)),
        rows: size.rows.sub_spec(top).sub_spec(bottom).max_spec(TermScalar::Finite(0)),
    }
}

/// Shrink a region size by an inset.
pub fn shrink(size: TermSize, left: Col, right: Col, top: Row, bottom: Row) -> (r: TermSize)
    ensures
        r == shrink_spec(size, left, right, top, bottom),
{
    TermSize::new(
        size.cols.sub(left).sub(right).max(TermScalar::zero()),
        size.rows.sub(top).sub(bottom).max(TermScalar::zero()),
    )
}

/// `v` less `d`, at least 0.
pub open spec fn less_at_least_zero(v: Row, d: Row) -> Row {
    v.sub_spec(d).max_spec(TermScalar::Finite(0))
}

/// Shrink the parts of possibly several regions by an inset: the current
/// size, the full height, the heights of the backlog and the last region.
pub fn shrink_multiple(
    size: &mut TermSize,
    full: &mut Row,
    backlog: &mut Vec<Row>,
    last: &mut Option<Row>,
    left: Col,
    right: Col,
    top: Row,
    bottom: Row,
)
    ensures
        ({
            let dx = left.add_spec(right);
            let dy = top.add_spec(bottom);
            &&& *final(size) == (TermSize {
                cols: less_at_least_zero(old(size).cols, dx),
                rows: less_at_least_zero(old(size).rows, dy),
            })
            &&& *final(full) == less_at_least_zero(*old(full), dy)
            &&& final(backlog)@.len() == old(backlog)@.len()
            &&& forall|i: int|
                0 <= i < old(backlog)@.len() ==> #[trigger] final(backlog)@[i] == less_at_least_zero(
                    old(backlog)@[i],
                    dy,
                )
            &&& *final(last) == match *old(last) {
                Some(v) => Some(less_at_least_zero(v, dy)),
                None => None,
            }
        }),
{
    let dx = left.add(right);
    let dy = top.add(bottom);
    size.cols = size.cols.sub(dx).max(TermScalar::zero());
    size.rows = size.rows.sub(dy).max(TermScalar::zero());
    *full = full.sub(dy).max(TermScalar::zero());
    let ghost b0 = backlog@;
    let mut i: usize = 0;
    while i < backlog.len()
        invariant
            i <= backlog@.len() == b0.len(),
            forall|j: int| 0 <= j < i ==> #[trigger] backlog@[j] == less_at_least_zero(b0[j], dy),
            forall|j: int| i <= j < b0.len() ==> #[trigger] backlog@[j] == b0[j],
        decreases b0.len() - i,
    {
        let v = backlog[i].sub(dy).max(TermScalar::zero());
        backlog.set(i, v);
        i = i + 1;
    }
    *last = match *last {
        Some(v) => Some(v.sub(dy).max(TermScalar::zero())),
        None => None,
    };
}

/// Grow a frame by an inset: the size grows by both insets on each axis
/// and everything in the frame moves in by the left and top insets.
pub fn grow(frame: &mut TermFrame, left: Col, right: Col, top: Row, bottom: Row)
    ensures
        final(frame).size == (TermSize {
            cols: old(frame).size.cols.add_spec(left.add_spec(right)),
            rows: old(frame).size.rows.add_spec(top.add_spec(bottom)),
        }),
        final(frame).baseline == old(frame).baseline,
        final(frame).content_height == old(frame).content_height,
        final(frame).items@.len() == old(frame).items@.len(),
        forall|i: int|
            0 <= i < old(frame).items@.len() ==> (#[trigger] final(frame).items@[i]).0 == (if (
            TermPoint { col: left, row: top }) == TermPoint::zero_spec() {
                old(frame).items@[i].0
            } else {
                old(frame).items@[i].0.add_spec(TermPoint { col: left, row: top })
            }) && final(frame).items@[i].1 == old(frame).items@[i].1,
{
    let dx = left.add(right);
    let dy = top.add(bottom);
    let new_cols = frame.size().cols.add(dx);
    let new_rows = frame.size().rows.add(dy);
    frame.set_size(TermSize::new(new_cols, new_rows));
    frame.translate(TermPoint::new(left, top));
}

/// Growing undoes shrinking: a size shrunk by an inset and grown back by
/// it is the size again, where the size is finite, at least its insets on
/// each axis, and the insets are finite and not negative.
pub proof fn law_grow_inverts_shrink(size: TermSize, left: Col, right: Col, top: Row, bottom: Row)
    requires
        size.cols.is_fin(),
        size.rows.is_fin(),
        left.is_fin() && right.is_fin() && top.is_fin() && bottom.is_fin(),
        left.val() >= 0 && right.val() >= 0 && top.val() >= 0 && bottom.val() >= 0,
        size.cols.val() >= left.val() + right.val(),
        size.rows.val() >= top.val() + bottom.val(),
    ensures
        shrink_spec(size, left, right, top, bottom).cols.add_spec(left.add_spec(right)) == size.cols,
        shrink_spec(size, left, right, top, bottom).rows.add_spec(top.add_spec(bottom)) == size.rows,
{
}


/// Whether `v` is not negative (possibly infinite) and, where finite,
/// stays in range when `a` and `b` are added to it.
pub open spec fn grows_in_range(v: TermScalar, a: TermScalar, b: TermScalar) -> bool {
    v is Infinity || (v.is_fin() && v.val() >= 0 && v.val() + a.val() + b.val() <= i64::MAX)
}

/// Shrinking undoes growing: a size grown by an inset (as [`grow`] grows a
/// frame) and shrunk by it (as [`shrink`] does) is the size again, where
/// the size is not negative (an unbounded axis stays unbounded), the insets
/// are finite and not negative, and a finite grown size stays in range.
pub proof fn law_shrink_inverts_grow(size: TermSize, left: Col, right: Col, top: Row, bottom: Row)
    requires
        left.is_fin() && right.is_fin() && top.is_fin() && bottom.is_fin(),
        left.val() >= 0 && right.val() >= 0 && top.val() >= 0 && bottom.val() >= 0,
        grows_in_range(size.cols, left, right),
        grows_in_range(size.rows, top, bottom),
    ensures
        shrink_spec(
            TermSize {
                cols: size.cols.add_spec(left.add_spec(right)),
                rows: size.rows.add_spec(top.add_spec(bottom)),
            },
            left,
            right,
            top,
            bottom,
        ) == size,
{
}

} // verus!
