//! Square roots and n-th roots.
//!
//! The radical is drawn with a diagonal that grows with the radicand's
//! height, ending in an overline across the top of the radicand:
//!
//! ```text
//!              ____
//!  3    3 __
//!  ╲╱x+1    ╲╱  x+1
//! ```

use vstd::prelude::*;
use crate::config::RenderMode;
use crate::frame::{TermFrame, TermFrameItem, is_text_item};
use crate::geom::{Col, Row, TermPoint, TermSize};
use crate::scalar::TermScalar;
use crate::style::TermStyle;
use crate::text::push_char;
use super::fragment::{MathClass, TermMathFrameFragment};

verus! {

/// The characters of the radical construction.
#[derive(Clone, Copy, PartialEq, Eq, Structural, Debug)]
pub struct SqrtChars {
    /// The bottom-left diagonal.
    pub diag_tl: char,
    /// The rising diagonal.
    pub diag_tr: char,
    /// The overline.
    pub overline: char,
}

/// The characters of the radical in each mode.
pub open spec fn sqrt_chars_spec(mode: RenderMode) -> SqrtChars {
    if mode is Unicode {
        SqrtChars { diag_tl: '╲', diag_tr: '╱', overline: '_' }
    } else {
        SqrtChars { diag_tl: '\\', diag_tr: '/', overline: '_' }
    }
}

/// The characters of the radical construction.
pub fn sqrt_chars(mode: RenderMode) -> (r: SqrtChars)
    ensures
        r == sqrt_chars_spec(mode),
{
    if mode.is_unicode() {
        SqrtChars { diag_tl: '╲', diag_tr: '╱', overline: '_' }
    } else {
        SqrtChars { diag_tl: '\\', diag_tr: '/', overline: '_' }
    }
}

/// The number of overline cells from column `from` up to (not including)
/// column `to`.
pub open spec fn overline_count(from: TermScalar, to: TermScalar) -> int {
    if from.is_fin() && to.is_fin() && from.val() < to.val() {
        to.val() - from.val()
    } else {
        0
    }
}

/// Whether `it` is the single character `c` at `pos` in the default style.
pub open spec fn is_char_item(it: (TermPoint, TermFrameItem), pos: TermPoint, c: char) -> bool {
    it.0 == pos && is_text_item(it.1, seq![c], TermStyle::default_spec())
}

/// Whether `f` is the radical over `radicand`: one row above the radicand
/// for the overline, the diagonal as many columns wide as the radicand's
/// rows (at least one) plus one, then the radicand.  Its items are the
/// overline cells over the radicand, the bottom-left diagonal, the rising
/// diagonal from the bottom row up one row per column, and the radicand.
pub open spec fn is_radical_frame(f: TermFrame, radicand: TermFrame, mode: RenderMode) -> bool {
    let sc = sqrt_chars_spec(mode);
    let rr = radicand.size.rows.max_spec(TermScalar::Finite(1));
    let diag = rr.add_spec(TermScalar::Finite(1));
    let total_cols = diag.add_spec(radicand.size.cols);
    let total_rows = rr.add_spec(TermScalar::Finite(1));
    let n = overline_count(diag, total_cols);
    let g = rr.get_spec() as int;
    let bot = total_rows.sub_spec(TermScalar::Finite(1));
    &&& f.size == (TermSize { cols: total_cols, rows: total_rows })
    &&& f.baseline == TermScalar::Finite(1).add_spec(radicand.baseline)
    &&& f.content_height == TermScalar::Finite(0)
    &&& f.items@.len() == n + 1 + g + 1
    &&& forall|k: int|
        0 <= k < n ==> is_char_item(
            #[trigger] f.items@[k],
            TermPoint { col: TermScalar::Finite((diag.val() + k) as i64), row: TermScalar::Finite(0) },
            sc.overline,
        )
    &&& is_char_item(f.items@[n], TermPoint { col: TermScalar::Finite(0), row: bot }, sc.diag_tl)
    &&& forall|y: int|
        0 <= y < g ==> is_char_item(
            #[trigger] f.items@[n + 1 + y],
            TermPoint {
                col: TermScalar::Finite((1 + y) as i64),
                row: bot.sub_spec(TermScalar::Finite(y as i64)),
            },
            sc.diag_tr,
        )
    &&& f.items@[n + 1 + g] == (
        TermPoint { col: diag, row: TermScalar::Finite(1) },
        TermFrameItem::Frame(radicand),
    )
}

/// Push the single character `ch` at `pos` in the default style.
fn push_char_item(frame: &mut TermFrame, pos: TermPoint, ch: char)
    ensures
        final(frame).items@.len() == old(frame).items@.len() + 1,
        final(frame).items@.subrange(0, old(frame).items@.len() as int) == old(frame).items@,
        is_char_item(final(frame).items@.last(), pos, ch),
        final(frame).size == old(frame).size,
        final(frame).baseline == old(frame).baseline,
        final(frame).content_height == old(frame).content_height,
{
    let mut s = String::new();
    push_char(&mut s, ch);
    assert(s@ =~= seq![ch]);
    frame.push_text(pos, s, TermStyle::plain());
}

/// The radical over `radicand` (see [`is_radical_frame`]).
pub fn build_radical(mode: RenderMode, radicand: TermFrame) -> (r: TermFrame)
    requires
        radicand.size.cols.is_fin(),
    ensures
        is_radical_frame(r, radicand, mode),
{
    let ghost rad0 = radicand;
    let sc = sqrt_chars(mode);
    let rad_cols = radicand.cols();
    let rad_rows = radicand.rows().max(TermScalar::new(1));
    let rad_baseline = radicand.baseline();
    let overline_row = TermScalar::new(1);
    let total_rows = rad_rows.add(overline_row);
    let diag_cols = rad_rows.add(TermScalar::new(1));
    let total_cols = diag_cols.add(rad_cols);
    let mut rad_frame = TermFrame::new(TermSize::new(total_cols, total_rows));
    rad_frame.set_baseline(overline_row.add(rad_baseline));
    let ghost n = overline_count(diag_cols, total_cols);
    match (diag_cols, total_cols) {
        (TermScalar::Finite(d), TermScalar::Finite(t)) => {
            let mut x: i64 = d;
            while x < t
                invariant
                    d <= x,
                    d < t ==> x <= t,
                    d >= t ==> x == d,
                    diag_cols == TermScalar::Finite(d),
                    total_cols == TermScalar::Finite(t),
                    rad_frame.items@.len() == if x > d { x - d } else { 0 },
                    forall|k: int|
                        0 <= k < rad_frame.items@.len() ==> is_char_item(
                            #[trigger] rad_frame.items@[k],
                            TermPoint {
                                col: TermScalar::Finite((d + k) as i64),
                                row: TermScalar::Finite(0),
                            },
                            sc.overline,
                        ),
                    rad_frame.size == (TermSize { cols: total_cols, rows: total_rows }),
                    rad_frame.baseline == overline_row.add_spec(rad_baseline),
                    rad_frame.content_height == TermScalar::Finite(0),
                decreases t - x,
            {
                let ghost before = rad_frame.items@;
                push_char_item(&mut rad_frame, TermPoint::new(TermScalar::Finite(x), TermScalar::zero()), sc.overline);
                proof {
                    assert forall|k: int| 0 <= k < rad_frame.items@.len() implies is_char_item(
                        #[trigger] rad_frame.items@[k],
                        TermPoint {
                            col: TermScalar::Finite((d + k) as i64),
                            row: TermScalar::Finite(0),
                        },
                        sc.overline,
                    ) by {
                        if k < before.len() {
                            assert(rad_frame.items@[k] == rad_frame.items@.subrange(0, before.len() as int)[k]);
                        }
                    }
                }
                x = x + 1;
            }
            assert(d < t ==> x == t);
            assert(rad_frame.items@.len() == n);
        },
        _ => {
            assert(n == 0);
        },
    }
    assert(rad_frame.items@.len() == n);
    let bot_row = total_rows.sub(TermScalar::new(1));
    let ghost over = rad_frame.items@;
    push_char_item(&mut rad_frame, TermPoint::new(TermScalar::zero(), bot_row), sc.diag_tl);
    proof {
        assert forall|k: int| 0 <= k < n implies is_char_item(
            #[trigger] rad_frame.items@[k],
            TermPoint {
                col: TermScalar::Finite((diag_cols.val() + k) as i64),
                row: TermScalar::Finite(0),
            },
            sc.overline,
        ) by {
            assert(rad_frame.items@[k] == rad_frame.items@.subrange(0, n)[k]);
            assert(over[k] == rad_frame.items@[k]);
        }
    }
    let g = rad_rows.get();
    assert(g >= 1);
    let mut y: i32 = 0;
    while y < g
        invariant
            0 <= y <= g,
            n >= 0,
            g == rad_rows.get_spec(),
            bot_row == total_rows.sub_spec(TermScalar::Finite(1)),
            rad_frame.items@.len() == n + 1 + y,
            forall|k: int|
                0 <= k < n ==> is_char_item(
                    #[trigger] rad_frame.items@[k],
                    TermPoint {
                        col: TermScalar::Finite((diag_cols.val() + k) as i64),
                        row: TermScalar::Finite(0),
                    },
                    sc.overline,
                ),
            is_char_item(rad_frame.items@[n], TermPoint { col: TermScalar::Finite(0), row: bot_row }, sc.diag_tl),
            forall|j: int|
                0 <= j < y ==> is_char_item(
                    #[trigger] rad_frame.items@[n + 1 + j],
                    TermPoint {
                        col: TermScalar::Finite((1 + j) as i64),
                        row: bot_row.sub_spec(TermScalar::Finite(j as i64)),
                    },
                    sc.diag_tr,
                ),
            rad_frame.size == (TermSize { cols: total_cols, rows: total_rows }),
            rad_frame.baseline == overline_row.add_spec(rad_baseline),
            rad_frame.content_height == TermScalar::Finite(0),
        decreases g - y,
    {
        let ghost before = rad_frame.items@;
        let row = total_rows.sub(TermScalar::new(1)).sub(TermScalar::new(y));
        let col = TermScalar::new(1).add(TermScalar::new(y));
        push_char_item(&mut rad_frame, TermPoint::new(col, row), sc.diag_tr);
        proof {
            let it = rad_frame.items@;
            assert forall|k: int| 0 <= k < n implies is_char_item(
                #[trigger] it[k],
                TermPoint {
                    col: TermScalar::Finite((diag_cols.val() + k) as i64),
                    row: TermScalar::Finite(0),
                },
                sc.overline,
            ) by {
                assert(it[k] == it.subrange(0, before.len() as int)[k]);
            }
            assert(it[n] == it.subrange(0, before.len() as int)[n]);
            assert forall|j: int| 0 <= j < y + 1 implies is_char_item(
                #[trigger] it[n + 1 + j],
                TermPoint {
                    col: TermScalar::Finite((1 + j) as i64),
                    row: bot_row.sub_spec(TermScalar::Finite(j as i64)),
                },
                sc.diag_tr,
            ) by {
                if j < y {
                    assert(it[n + 1 + j] == it.subrange(0, before.len() as int)[n + 1 + j]);
                } else {
                    assert(it[n + 1 + j] == it.last());
                    assert(col == TermScalar::Finite((1 + j) as i64));
                }
            }
        }
        y = y + 1;
    }
    let ghost before = rad_frame.items@;
    rad_frame.push_frame(TermPoint::new(diag_cols, overline_row), radicand);
    proof {
        let it = rad_frame.items@;
        assert forall|k: int| 0 <= k < n implies is_char_item(
            #[trigger] it[k],
            TermPoint {
                col: TermScalar::Finite((diag_cols.val() + k) as i64),
                row: TermScalar::Finite(0),
            },
            sc.overline,
        ) by {
            assert(it[k] == before[k]);
        }
        assert(it[n] == before[n]);
        assert forall|j: int| 0 <= j < g implies is_char_item(
            #[trigger] it[n + 1 + j],
            TermPoint {
                col: TermScalar::Finite((1 + j) as i64),
                row: bot_row.sub_spec(TermScalar::Finite(j as i64)),
            },
            sc.diag_tr,
        ) by {
            assert(it[n + 1 + j] == before[n + 1 + j]);
        }
    }
    rad_frame
}

/// The root of `radicand`, with the optional `index` over the start of
/// the diagonal: a fragment of class `Normal`.  With an index, the index
/// (given at least one row) sits at the top, right-aligned against the
/// diagonal where it fits, and the radical (see [`is_radical_frame`])
/// below it, right-aligned when the index is wider.
pub fn build_root_frame(mode: RenderMode, radicand: TermFrame, index: Option<TermFrame>) -> (r:
    TermMathFrameFragment)
    requires
        radicand.size.cols.is_fin(),
    ensures
        r.is_new_of(r.frame),
        index is None ==> is_radical_frame(r.frame, radicand, mode),
        index matches Some(idx) ==> ({
            let rr = radicand.size.rows.max_spec(TermScalar::Finite(1));
            let diag = rr.add_spec(TermScalar::Finite(1));
            let total_cols = diag.add_spec(radicand.size.cols);
            let total_rows = rr.add_spec(TermScalar::Finite(1));
            let idx_rows = idx.size.rows.max_spec(TermScalar::Finite(1));
            let combined_cols = idx.size.cols.max_spec(total_cols);
            let it = r.frame.items@;
            &&& r.frame.size == (TermSize { cols: combined_cols, rows: idx_rows.add_spec(total_rows) })
            &&& r.frame.baseline == idx_rows.add_spec(TermScalar::Finite(1)).add_spec(radicand.baseline)
            &&& r.frame.content_height == TermScalar::Finite(0)
            &&& it.len() == 2
            &&& it[0] == (
                TermPoint {
                    col: diag.sub_spec(idx.size.cols).max_spec(TermScalar::Finite(0)),
                    row: TermScalar::Finite(0),
                },
                TermFrameItem::Frame(idx),
            )
            &&& it[1].0 == (TermPoint {
                col: if total_cols.lt_spec(combined_cols) {
                    combined_cols.sub_spec(total_cols)
                } else {
                    TermScalar::Finite(0)
                },
                row: idx_rows,
            })
            &&& it[1].1 matches TermFrameItem::Frame(rf) && is_radical_frame(rf, radicand, mode)
        }),
{
    let rad_rows = radicand.rows().max(TermScalar::new(1));
    let rad_baseline = radicand.baseline();
    let diag_cols = rad_rows.add(TermScalar::new(1));
    let total_cols = diag_cols.add(radicand.cols());
    let total_rows = rad_rows.add(TermScalar::new(1));
    let rad_frame = build_radical(mode, radicand);
    let final_frame = match index {
        Some(idx) => {
            let idx_cols = idx.cols();
            let idx_rows = idx.rows().max(TermScalar::new(1));
            let combined_cols = idx_cols.max(total_cols);
            let combined_rows = idx_rows.add(total_rows);
            let mut combined = TermFrame::new(TermSize::new(combined_cols, combined_rows));
            combined.set_baseline(idx_rows.add(TermScalar::new(1)).add(rad_baseline));
            let idx_x = diag_cols.sub(idx_cols).max(TermScalar::zero());
            combined.push_frame(TermPoint::new(idx_x, TermScalar::zero()), idx);
            let rad_offset = if total_cols.lt(combined_cols) {
                combined_cols.sub(total_cols)
            } else {
                TermScalar::zero()
            };
            combined.push_frame(TermPoint::new(rad_offset, idx_rows), rad_frame);
            combined
        },
        None => rad_frame,
    };
    TermMathFrameFragment::new(final_frame).with_class(MathClass::Normal)
}

} // verus!
