//! Repeating a piece of content across the available width.
//!
//! The piece is laid out once; as many copies as fit in the width, with
//! the gap between each two, are placed side by side.  Left-over width
//! either widens the gaps (when justified) or aligns the row of copies.

use vstd::prelude::*;
use crate::frame::{TermFrame, TermFrameItem, same_frame};
use crate::geom::{Alignment, Col, TermPoint, TermSize};
use crate::scalar::{TermScalar, trunc_div};

verus! {

/// Why content cannot be repeated.
#[derive(Clone, Copy, PartialEq, Eq, Structural, Debug)]
pub enum RepeatError {
    /// The piece or the width to fill is not finite.
    Unbounded,
}

impl RepeatError {
    /// The message of the error.
    pub fn message(&self) -> (r: &'static str)
        ensures
            r@ == "repeat with no size restrictions"@,
    {
        match self {
            RepeatError::Unbounded => "repeat with no size restrictions",
        }
    }
}

/// The most copies that are placed.
pub const MAX_REPEAT: usize = 1000;

/// How many copies of a piece `width` wide, with `gap` between each two,
/// fit in `fill`: `n` copies take `n * (width + gap) - gap`.  None fit a
/// piece that is not positive in width.
pub open spec fn repeat_count(width: Col, gap: Col, fill: Col) -> int {
    if TermScalar::Finite(0).lt_spec(width) && TermScalar::Finite(0).lt_spec(width.add_spec(gap)) {
        let num = fill.add_spec(gap).get_spec() as int;
        let den = width.add_spec(gap).get_spec() as int;
        if num >= 0 {
            num / den
        } else {
            0
        }
    } else {
        0
    }
}

/// The width left over by the copies.
pub open spec fn repeat_remaining(width: Col, gap: Col, fill: Col) -> Col {
    fill.sub_spec(
        TermScalar::Finite(repeat_count(width, gap, fill) as i64).mul_spec(width.add_spec(gap)).max_spec(
            TermScalar::Finite(0),
        ),
    )
}

/// The gap between copies: widened by an equal share of the left-over
/// width (rounded toward zero) when justified and there are two copies or
/// more.
pub open spec fn repeat_gap(width: Col, gap: Col, fill: Col, justify: bool) -> Col {
    let count = repeat_count(width, gap, fill);
    if justify && count > 1 {
        gap.add_spec(
            TermScalar::Finite(repeat_remaining(width, gap, fill).get_spec() as i64).div_spec(
                TermScalar::Finite((count - 1) as i64),
            ),
        )
    } else {
        gap
    }
}

/// Where the first copy starts: aligned within the left-over width, unless
/// the gaps were widened.
pub open spec fn repeat_start(width: Col, gap: Col, fill: Col, justify: bool, align: Alignment) -> Col {
    let count = repeat_count(width, gap, fill);
    let remaining = repeat_remaining(width, gap, fill);
    if count <= 1 || !justify {
        match align {
            Alignment::Start => TermScalar::Finite(0),
            Alignment::Center => TermScalar::Finite(trunc_div(remaining.get_spec() as int, 2) as i64),
            Alignment::End => remaining,
        }
    } else {
        TermScalar::Finite(0)
    }
}

/// The column of copy `k`: the start, then one step further per copy.
pub open spec fn repeat_offset(start: Col, step: Col, k: int) -> Col
    decreases k,
{
    if k <= 0 {
        start
    } else {
        repeat_offset(start, step, k - 1).add_spec(step)
    }
}

/// How many copies are placed: all that fit, at most [`MAX_REPEAT`].
pub open spec fn repeat_placed(count: int) -> int {
    if count < MAX_REPEAT as int {
        count
    } else {
        MAX_REPEAT as int
    }
}

/// Whether `r` repeats `piece` across `fill` columns: as wide as the fill,
/// as tall as the piece (at least one row), with the piece's baseline if it
/// has one; holding copies of the piece at their columns on the top row.
pub open spec fn is_repeat_frame(
    r: TermFrame,
    piece: TermFrame,
    fill: Col,
    gap: Col,
    justify: bool,
    align: Alignment,
) -> bool {
    let width = piece.size.cols;
    let n = repeat_placed(repeat_count(width, gap, fill));
    let start = repeat_start(width, gap, fill, justify, align);
    let step = width.add_spec(repeat_gap(width, gap, fill, justify));
    &&& r.size == (TermSize { cols: fill, rows: piece.size.rows.max_spec(TermScalar::Finite(1)) })
    &&& r.baseline == (if TermScalar::Finite(0).lt_spec(piece.baseline) {
        piece.baseline
    } else {
        TermScalar::Finite(0)
    })
    &&& r.content_height == TermScalar::Finite(0)
    &&& r.items@.len() == n
    &&& forall|k: int|
        0 <= k < n ==> {
            &&& (#[trigger] r.items@[k]).0 == (TermPoint {
                col: repeat_offset(start, step, k),
                row: TermScalar::Finite(0),
            })
            &&& r.items@[k].1 matches TermFrameItem::Frame(f) && same_frame(piece, f)
        }
}

/// Repeat a laid-out piece across `fill` columns with `gap` columns between
/// copies (see [`is_repeat_frame`]).  A piece or fill that is not finite is
/// refused.
pub fn layout_repeat(piece: &TermFrame, fill: Col, gap: Col, justify: bool, align: Alignment) -> (r:
    Result<TermFrame, RepeatError>)
    requires
        (piece.size.cols.is_fin() && fill.is_fin()) ==> piece.baseline.is_num(),
        (piece.size.cols.is_fin() && fill.is_fin() && TermScalar::Finite(0).lt_spec(piece.size.cols))
            ==> gap.is_num(),
    ensures
        !(piece.size.cols.is_fin() && fill.is_fin()) ==> r == Err::<TermFrame, RepeatError>(
            RepeatError::Unbounded,
        ),
        (piece.size.cols.is_fin() && fill.is_fin()) ==> (r matches Ok(f) && is_repeat_frame(
            f,
            *piece,
            fill,
            gap,
            justify,
            align,
        )),
{
    let width = piece.cols();
    if !width.is_finite() || !fill.is_finite() {
        return Err(RepeatError::Unbounded);
    }
    let height = piece.rows().max(TermScalar::one());
    let mut frame = TermFrame::new(TermSize::new(fill, height));
    if piece.has_baseline() {
        frame.set_baseline(piece.baseline());
    }
    let ghost count_spec = repeat_count(width, gap, fill);
    let count: i32 = if width.gt(TermScalar::zero()) && width.add(gap).gt(TermScalar::zero()) {
        let num = fill.add(gap).get();
        let den = width.add(gap).get();
        if num >= 0 {
            num / den
        } else {
            0
        }
    } else {
        0
    };
    assert(count == count_spec);
    let count_scalar = TermScalar::Finite(count as i64);
    let remaining = fill.sub(count_scalar.mul(width.add(gap)).max(TermScalar::zero()));
    let mut gap = gap;
    let ghost gap0 = gap;
    if justify && count > 1 {
        gap = gap.add(TermScalar::Finite(remaining.get() as i64).div(TermScalar::Finite((count - 1) as i64)));
    }
    assert(gap == repeat_gap(width, gap0, fill, justify));
    let mut offset = TermScalar::zero();
    if count <= 1 || !justify {
        offset = match align {
            Alignment::Start => TermScalar::zero(),
            Alignment::Center => TermScalar::Finite((remaining.get() / 2) as i64),
            Alignment::End => remaining,
        };
    }
    let ghost start = offset;
    assert(start == repeat_start(width, gap0, fill, justify, align));
    let step = width.add(gap);
    if width.gt(TermScalar::zero()) {
        let max_count: usize = if (count as usize) < MAX_REPEAT {
            count as usize
        } else {
            MAX_REPEAT
        };
        let mut k: usize = 0;
        while k < max_count
            invariant
                k <= max_count,
                max_count == repeat_placed(count as int),
                offset == repeat_offset(start, step, k as int),
                frame.items@.len() == k,
                forall|j: int|
                    0 <= j < k ==> {
                        &&& (#[trigger] frame.items@[j]).0 == (TermPoint {
                            col: repeat_offset(start, step, j),
                            row: TermScalar::Finite(0),
                        })
                        &&& frame.items@[j].1 matches TermFrameItem::Frame(f) && same_frame(*piece, f)
                    },
                frame.size == (TermSize { cols: fill, rows: height }),
                frame.baseline == (if TermScalar::Finite(0).lt_spec(piece.baseline) {
                    piece.baseline
                } else {
                    TermScalar::Finite(0)
                }),
                frame.content_height == TermScalar::Finite(0),
            decreases max_count - k,
        {
            frame.push_frame(TermPoint::new(offset, TermScalar::zero()), piece.copy());
            offset = offset.add(step);
            k = k + 1;
        }
    } else {
        assert(count == 0);
    }
    Ok(frame)
}

} // verus!
