//! Vertical fractions and binomials.

use vstd::prelude::*;
use crate::config::RenderMode;
use crate::frame::{TermFrame, TermFrameItem};
use crate::geom::{Col, Row, TermPoint, TermSize};
use crate::scalar::TermScalar;
use crate::style::TermStyle;
use super::delims::{
    left_brace,
    left_brace_spec,
    left_bracket,
    left_bracket_spec,
    left_paren,
    left_paren_spec,
    rep_seq,
    right_brace,
    right_brace_spec,
    right_bracket,
    right_bracket_spec,
    right_paren,
    right_paren_spec,
    stretch_rows,
    stretch_rows_spec,
};
use super::fragment::TermMathFrameFragment;
use super::run::{build_delimiter_frame, is_delimiter_frame};

verus! {

/// The column of characters that stretches a delimiter over `h` rows for a
/// binomial: parentheses, brackets and braces (left and right), bars, and
/// any other character repeated.
pub open spec fn stretch_delim_spec(mode: RenderMode, ch: char, h: int) -> Seq<char> {
    if ch == '(' {
        left_paren_spec(mode, h)
    } else if ch == ')' {
        right_paren_spec(mode, h)
    } else if ch == '[' {
        left_bracket_spec(mode, h)
    } else if ch == ']' {
        right_bracket_spec(mode, h)
    } else if ch == '{' {
        left_brace_spec(mode, h)
    } else if ch == '}' {
        right_brace_spec(mode, h)
    } else if ch == '|' {
        rep_seq(mode.vbar_spec(), h)
    } else {
        rep_seq(ch, h)
    }
}

/// A parenthesis (left or right) spanning `height` rows (at least one).
pub fn stretch_paren(mode: RenderMode, height: Row, left: bool) -> (r: Vec<char>)
    ensures
        r@ == (if left {
            left_paren_spec(mode, stretch_rows_spec(height))
        } else {
            right_paren_spec(mode, stretch_rows_spec(height))
        }),
{
    if left {
        left_paren(mode, height)
    } else {
        right_paren(mode, height)
    }
}

/// A bracket (left or right) spanning `height` rows (at least one).
pub fn stretch_bracket(mode: RenderMode, height: Row, left: bool) -> (r: Vec<char>)
    ensures
        r@ == (if left {
            left_bracket_spec(mode, stretch_rows_spec(height))
        } else {
            right_bracket_spec(mode, stretch_rows_spec(height))
        }),
{
    if left {
        left_bracket(mode, height)
    } else {
        right_bracket(mode, height)
    }
}

/// A brace (left or right) spanning `height` rows (at least one).
pub fn stretch_brace(mode: RenderMode, height: Row, left: bool) -> (r: Vec<char>)
    ensures
        r@ == (if left {
            left_brace_spec(mode, stretch_rows_spec(height))
        } else {
            right_brace_spec(mode, stretch_rows_spec(height))
        }),
{
    if left {
        left_brace(mode, height)
    } else {
        right_brace(mode, height)
    }
}

/// Stretch a delimiter character over `height` rows (at least one).
pub fn stretch_delim(mode: RenderMode, ch: char, height: Row) -> (r: Vec<char>)
    ensures
        r@ == stretch_delim_spec(mode, ch, stretch_rows_spec(height)),
        r@.len() == stretch_rows_spec(height),
{
    let v = if ch == '(' {
        stretch_paren(mode, height, true)
    } else if ch == ')' {
        stretch_paren(mode, height, false)
    } else if ch == '[' {
        stretch_bracket(mode, height, true)
    } else if ch == ']' {
        stretch_bracket(mode, height, false)
    } else if ch == '{' {
        stretch_brace(mode, height, true)
    } else if ch == '}' {
        stretch_brace(mode, height, false)
    } else {
        let h = stretch_rows(height);
        let c = if ch == '|' {
            mode.vbar()
        } else {
            ch
        };
        let mut v: Vec<char> = Vec::new();
        let mut i: usize = 0;
        while i < h
            invariant
                i <= h,
                v@ == rep_seq(c, i as int),
            decreases h - i,
        {
            v.push(c);
            i = i + 1;
            assert(v@ =~= rep_seq(c, i as int));
        }
        v
    };
    v
}

/// Half a value, read as an `i32` and rounded toward zero.
pub open spec fn half_cols(v: TermScalar) -> TermScalar {
    TermScalar::Finite(v.get_spec() as i64).div_spec(TermScalar::Finite(2))
}

/// Half a value, read as an `i32` and rounded toward zero.
fn half(v: TermScalar) -> (r: TermScalar)
    ensures
        r == half_cols(v),
{
    TermScalar::new(v.get()).div(TermScalar::new(2))
}

/// Whether `f` is the stacked body of a fraction (or, with `binom`, of a
/// binomial) of `num` over `denom`: one column of padding on each side of
/// the wider part, the numerator on top and the denominator below, each
/// centred and given at least one row, a bar between them (a blank row for
/// a binomial), and the baseline on that middle row.
pub open spec fn is_frac_body(
    f: TermFrame,
    num: TermFrame,
    denom: TermFrame,
    binom: bool,
    mode: RenderMode,
) -> bool {
    let nr = num.size.rows.max_spec(TermScalar::Finite(1));
    let dr = denom.size.rows.max_spec(TermScalar::Finite(1));
    let inner = num.size.cols.max_spec(denom.size.cols);
    let num_x = TermScalar::Finite(1).add_spec(half_cols(inner.sub_spec(num.size.cols)));
    let denom_x = TermScalar::Finite(1).add_spec(half_cols(inner.sub_spec(denom.size.cols)));
    let denom_item = (
        TermPoint { col: denom_x, row: nr.add_spec(TermScalar::Finite(1)) },
        TermFrameItem::Frame(denom),
    );
    &&& f.size == (TermSize {
        cols: inner.add_spec(TermScalar::Finite(2)),
        rows: nr.add_spec(TermScalar::Finite(1)).add_spec(dr),
    })
    &&& f.baseline == nr
    &&& f.content_height == TermScalar::Finite(0)
    &&& f.items@[0] == (TermPoint { col: num_x, row: TermScalar::Finite(0) }, TermFrameItem::Frame(num))
    &&& !binom ==> {
        &&& f.items@.len() == 3
        &&& f.items@[1] == (
            TermPoint { col: TermScalar::Finite(1), row: nr },
            TermFrameItem::Rule { ch: mode.hbar_spec(), width: inner, style: TermStyle::default_spec() },
        )
        &&& f.items@[2] == denom_item
    }
    &&& binom ==> f.items@.len() == 2 && f.items@[1] == denom_item
}

/// Build a vertical fraction (or, with `binom`, a binomial) of `num` over
/// `denom` (see [`is_frac_body`]).  A binomial has no bar and is wrapped in
/// a left and a right parenthesis stretched over its full height, placed
/// side by side with it on the same baseline.
pub fn build_vertical_frac(mode: RenderMode, num: TermFrame, denom: TermFrame, binom: bool) -> (r:
    TermMathFrameFragment)
    ensures
        r.is_new_of(r.frame),
        !binom ==> is_frac_body(r.frame, num, denom, false, mode),
        binom ==> ({
            let nr = num.size.rows.max_spec(TermScalar::Finite(1));
            let dr = denom.size.rows.max_spec(TermScalar::Finite(1));
            let total_rows = nr.add_spec(TermScalar::Finite(1)).add_spec(dr);
            let h = stretch_rows_spec(total_rows);
            let it = r.frame.items@;
            &&& it.len() == 3
            &&& it[0].0 == TermPoint::zero_spec()
            &&& it[0].1 matches TermFrameItem::Frame(lf) && is_delimiter_frame(
                lf,
                left_paren_spec(mode, h),
                TermStyle::default_spec(),
            )
            &&& it[1].1 matches TermFrameItem::Frame(body) && is_frac_body(body, num, denom, true, mode)
            &&& it[2].1 matches TermFrameItem::Frame(rf) && is_delimiter_frame(
                rf,
                right_paren_spec(mode, h),
                TermStyle::default_spec(),
            )
            &&& it[1].0 == (TermPoint {
                col: it[0].1->Frame_0.size.cols,
                row: TermScalar::Finite(0),
            })
            &&& it[2].0 == (TermPoint {
                col: it[0].1->Frame_0.size.cols.add_spec(it[1].1->Frame_0.size.cols),
                row: TermScalar::Finite(0),
            })
            &&& r.frame.size == (TermSize {
                cols: it[0].1->Frame_0.size.cols.add_spec(it[1].1->Frame_0.size.cols).add_spec(
                    it[2].1->Frame_0.size.cols,
                ),
                rows: total_rows,
            })
            &&& r.frame.baseline == nr
            &&& r.frame.content_height == TermScalar::Finite(0)
        }),
{
    let ghost num0 = num;
    let ghost denom0 = denom;
    let num_cols = num.cols();
    let denom_cols = denom.cols();
    let num_rows = num.rows().max(TermScalar::new(1));
    let denom_rows = denom.rows().max(TermScalar::new(1));
    let inner_cols = num_cols.max(denom_cols);
    let total_cols = inner_cols.add(TermScalar::new(2));
    let bar_rows = TermScalar::new(1);
    let total_rows = num_rows.add(bar_rows).add(denom_rows);
    let baseline = num_rows;
    let mut frame = TermFrame::new(TermSize::new(total_cols, total_rows));
    frame.set_baseline(baseline);
    let num_x = TermScalar::new(1).add(half(inner_cols.sub(num_cols)));
    frame.push_frame(TermPoint::new(num_x, TermScalar::zero()), num);
    if !binom {
        frame.hline(TermPoint::new(TermScalar::new(1), num_rows), inner_cols, mode.hbar(), TermStyle::plain());
    }
    let denom_x = TermScalar::new(1).add(half(inner_cols.sub(denom_cols)));
    frame.push_frame(TermPoint::new(denom_x, num_rows.add(bar_rows)), denom);
    if binom {
        let left_chars = stretch_delim(mode, '(', total_rows);
        let right_chars = stretch_delim(mode, ')', total_rows);
        let left_frame = build_delimiter_frame(left_chars, TermStyle::plain());
        let right_frame = build_delimiter_frame(right_chars, TermStyle::plain());
        let lw = left_frame.cols();
        let rw = right_frame.cols();
        let wrapped_cols = lw.add(total_cols).add(rw);
        let mut wrapped = TermFrame::new(TermSize::new(wrapped_cols, total_rows));
        wrapped.set_baseline(baseline);
        wrapped.push_frame(TermPoint::zero(), left_frame);
        wrapped.push_frame(TermPoint::new(lw, TermScalar::zero()), frame);
        wrapped.push_frame(TermPoint::new(lw.add(total_cols), TermScalar::zero()), right_frame);
        TermMathFrameFragment::new(wrapped)
    } else {
        TermMathFrameFragment::new(frame)
    }
}

} // verus!
