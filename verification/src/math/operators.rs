//! Composed large operators for display-mode math.
//!
//! In display mode a large operator (Σ, ∫, Π) is drawn as a multi-row,
//! multi-column construction of component characters rather than as its
//! single codepoint:
//!
//! * **Sum**: a top bar, two diagonals and a bottom bar, 4 rows × 3 columns.
//! * **Integral**: a hook at the top and bottom with an extension between,
//!   as tall as the content (at least 3 rows).
//! * **Product**: a top bar between two joints over two vertical bars,
//!   3 rows × 3 columns.

use vstd::prelude::*;
use crate::config::RenderMode;
use crate::frame::{TermFrame, TermFrameItem, is_text_item};
use crate::geom::{Col, Row, TermPoint, TermSize};
use crate::scalar::TermScalar;
use crate::style::TermStyle;
use crate::text::push_char;

verus! {

/// Whether `it` is the single character `c` at column `col`, row `row`, in
/// the default style.
pub open spec fn is_char_at(it: (TermPoint, TermFrameItem), col: int, row: int, c: char) -> bool {
    &&& it.0 == (TermPoint { col: TermScalar::Finite(col as i64), row: TermScalar::Finite(row as i64) })
    &&& is_text_item(it.1, seq![c], TermStyle::default_spec())
}

/// Push the single character `ch` at (`col`, `row`) in the default style.
pub fn push_char_at(frame: &mut TermFrame, col: i64, row: i64, ch: char)
    ensures
        final(frame).items@.len() == old(frame).items@.len() + 1,
        final(frame).items@.subrange(0, old(frame).items@.len() as int) == old(frame).items@,
        is_char_at(final(frame).items@.last(), col as int, row as int, ch),
        final(frame).size == old(frame).size,
        final(frame).baseline == old(frame).baseline,
        final(frame).content_height == old(frame).content_height,
{
    let mut s = String::new();
    push_char(&mut s, ch);
    assert(s@ =~= seq![ch]);
    frame.push_text(TermPoint::new(TermScalar::Finite(col), TermScalar::Finite(row)), s, TermStyle::plain());
}

/// The characters of a composed sum.
#[derive(Clone, Copy, PartialEq, Eq, Structural, Debug)]
pub struct SumChars {
    /// The top bar.
    pub top: char,
    /// The upper diagonal.
    pub diag_top: char,
    /// The lower diagonal.
    pub diag_bot: char,
    /// The bottom bar.
    pub bot: char,
}

/// The characters of a composed product.
#[derive(Clone, Copy, PartialEq, Eq, Structural, Debug)]
pub struct ProdChars {
    /// The top bar.
    pub top: char,
    /// The vertical bars.
    pub vert: char,
    /// The joints at the top corners.
    pub connect: char,
}

/// The characters of a composed integral.
#[derive(Clone, Copy, PartialEq, Eq, Structural, Debug)]
pub struct IntegralChars {
    /// The upper hook.
    pub top: char,
    /// The extension.
    pub mid: char,
    /// The lower hook.
    pub bot: char,
}

/// The characters of a composed sum in each mode.
pub open spec fn sum_chars_spec(mode: RenderMode) -> SumChars {
    if mode is Unicode {
        SumChars { top: '_', diag_top: '╲', diag_bot: '╱', bot: '‾' }
    } else {
        SumChars { top: '_', diag_top: '\\', diag_bot: '/', bot: '-' }
    }
}

/// The characters of a composed product in each mode.
pub open spec fn prod_chars_spec(mode: RenderMode) -> ProdChars {
    if mode is Unicode {
        ProdChars { top: '━', vert: '┃', connect: '┳' }
    } else {
        ProdChars { top: '_', vert: '|', connect: '_' }
    }
}

/// The characters of a composed integral in each mode.
pub open spec fn integral_chars_spec(mode: RenderMode) -> IntegralChars {
    if mode is Unicode {
        IntegralChars { top: '⌠', mid: '│', bot: '⌡' }
    } else {
        IntegralChars { top: '/', mid: '|', bot: '/' }
    }
}

/// The characters of a composed sum.
pub fn sum_chars(mode: RenderMode) -> (r: SumChars)
    ensures
        r == sum_chars_spec(mode),
{
    if mode.is_unicode() {
        SumChars { top: '_', diag_top: '╲', diag_bot: '╱', bot: '‾' }
    } else {
        SumChars { top: '_', diag_top: '\\', diag_bot: '/', bot: '-' }
    }
}

/// The characters of a composed product.
pub fn prod_chars(mode: RenderMode) -> (r: ProdChars)
    ensures
        r == prod_chars_spec(mode),
{
    if mode.is_unicode() {
        ProdChars { top: '━', vert: '┃', connect: '┳' }
    } else {
        ProdChars { top: '_', vert: '|', connect: '_' }
    }
}

/// The characters of a composed integral.
pub fn integral_chars(mode: RenderMode) -> (r: IntegralChars)
    ensures
        r == integral_chars_spec(mode),
{
    if mode.is_unicode() {
        IntegralChars { top: '⌠', mid: '│', bot: '⌡' }
    } else {
        IntegralChars { top: '/', mid: '|', bot: '/' }
    }
}

/// Whether `r` is the display-mode summation operator in `mode`: 4 rows
/// × 3 columns with the baseline at row 2 — the top bar across row 0, the
/// upper diagonal at the start of row 1, the lower diagonal at the start of
/// row 2, the bottom bar across row 3.
pub open spec fn is_sum_frame(r: TermFrame, mode: RenderMode) -> bool {
    &&& r.size == (TermSize { cols: TermScalar::Finite(3), rows: TermScalar::Finite(4) })
    &&& r.baseline == TermScalar::Finite(2)
    &&& r.content_height == TermScalar::Finite(0)
    &&& ({
            let sc = sum_chars_spec(mode);
            let it = r.items@;
            &&& it.len() == 8
            &&& is_char_at(it[0], 0, 0, sc.top)
            &&& is_char_at(it[1], 1, 0, sc.top)
            &&& is_char_at(it[2], 2, 0, sc.top)
            &&& is_char_at(it[3], 0, 1, sc.diag_top)
            &&& is_char_at(it[4], 0, 2, sc.diag_bot)
            &&& is_char_at(it[5], 0, 3, sc.bot)
            &&& is_char_at(it[6], 1, 3, sc.bot)
            &&& is_char_at(it[7], 2, 3, sc.bot)
        })
}

/// Whether `r` is the display-mode product operator in `mode`: 3 rows × 3
/// columns with the baseline at row 1 — a joint, the top bar and a joint
/// across row 0, then the vertical bars at both edges of rows 1 and 2.
pub open spec fn is_prod_frame(r: TermFrame, mode: RenderMode) -> bool {
    &&& r.size == (TermSize { cols: TermScalar::Finite(3), rows: TermScalar::Finite(3) })
    &&& r.baseline == TermScalar::Finite(1)
    &&& r.content_height == TermScalar::Finite(0)
    &&& ({
            let pc = prod_chars_spec(mode);
            let it = r.items@;
            &&& it.len() == 7
            &&& is_char_at(it[0], 0, 0, pc.connect)
            &&& is_char_at(it[1], 1, 0, pc.top)
            &&& is_char_at(it[2], 2, 0, pc.connect)
            &&& is_char_at(it[3], 0, 1, pc.vert)
            &&& is_char_at(it[4], 2, 1, pc.vert)
            &&& is_char_at(it[5], 0, 2, pc.vert)
            &&& is_char_at(it[6], 2, 2, pc.vert)
        })
}

/// Whether `r` is the display-mode integral operator in `mode` over
/// `content_rows` rows of content (see [`build_integral_operator`]).
pub open spec fn is_integral_frame(r: TermFrame, mode: RenderMode, content_rows: Row) -> bool {
    &&& ({
            let height = integral_height(content_rows);
            let h = height.get_spec() as int;
            let ic = integral_chars_spec(mode);
            &&& r.size == (TermSize {
                cols: TermScalar::Finite(if mode is Unicode { 1 } else { 3 }),
                rows: height,
            })
            &&& r.baseline == height.max_spec(TermScalar::Finite(1)).sub_spec(TermScalar::Finite(1))
            &&& r.content_height == TermScalar::Finite(0)
            &&& mode is Unicode ==> {
                &&& r.items@.len() == h
                &&& forall|k: int|
                    0 <= k < h ==> is_char_at(
                        #[trigger] r.items@[k],
                        0,
                        k,
                        if k == 0 {
                            ic.top
                        } else if k == h - 1 {
                            ic.bot
                        } else {
                            ic.mid
                        },
                    )
            }
            &&& !(mode is Unicode) ==> {
                &&& r.items@.len() == 3 * h
                &&& forall|k: int|
                    0 <= k < 3 * h ==> is_char_at(
                        #[trigger] r.items@[k],
                        k % 3,
                        k / 3,
                        ascii_integral_char(k / 3, k % 3, h),
                    )
            }
        })
}

/// A display-mode summation operator: 4 rows × 3 columns with the baseline
/// at row 2 — the top bar across row 0, the upper diagonal at the start of
/// row 1, the lower diagonal at the start of row 2, the bottom bar across
/// row 3.  Its size does not depend on the content.
pub fn build_sum_operator(mode: RenderMode, _content_hint_rows: Row) -> (r: TermFrame)
    ensures
        is_sum_frame(r, mode),
{
    let sc = sum_chars(mode);
    let mut sigma = TermFrame::new(TermSize::new(TermScalar::new(3), TermScalar::new(4)));
    sigma.set_baseline(TermScalar::new(2));
    push_char_at(&mut sigma, 0, 0, sc.top);
    push_char_at(&mut sigma, 1, 0, sc.top);
    push_char_at(&mut sigma, 2, 0, sc.top);
    push_char_at(&mut sigma, 0, 1, sc.diag_top);
    push_char_at(&mut sigma, 0, 2, sc.diag_bot);
    push_char_at(&mut sigma, 0, 3, sc.bot);
    push_char_at(&mut sigma, 1, 3, sc.bot);
    push_char_at(&mut sigma, 2, 3, sc.bot);
    proof {
        let it = sigma.items@;
        assert(it[0] == it.subrange(0, 1)[0]);
        assert(it[1] == it.subrange(0, 2)[1]);
        assert(it[2] == it.subrange(0, 3)[2]);
        assert(it[3] == it.subrange(0, 4)[3]);
        assert(it[4] == it.subrange(0, 5)[4]);
        assert(it[5] == it.subrange(0, 6)[5]);
        assert(it[6] == it.subrange(0, 7)[6]);
    }
    sigma
}

/// A display-mode product operator: 3 rows × 3 columns with the baseline at
/// row 1 — a joint, the top bar and a joint across row 0, then the vertical
/// bars at both edges of rows 1 and 2.
pub fn build_prod_operator(mode: RenderMode) -> (r: TermFrame)
    ensures
        is_prod_frame(r, mode),
{
    let pc = prod_chars(mode);
    let mut prod = TermFrame::new(TermSize::new(TermScalar::new(3), TermScalar::new(3)));
    prod.set_baseline(TermScalar::new(1));
    push_char_at(&mut prod, 0, 0, pc.connect);
    push_char_at(&mut prod, 1, 0, pc.top);
    push_char_at(&mut prod, 2, 0, pc.connect);
    push_char_at(&mut prod, 0, 1, pc.vert);
    push_char_at(&mut prod, 2, 1, pc.vert);
    push_char_at(&mut prod, 0, 2, pc.vert);
    push_char_at(&mut prod, 2, 2, pc.vert);
    proof {
        let it = prod.items@;
        assert(it[0] == it.subrange(0, 1)[0]);
        assert(it[1] == it.subrange(0, 2)[1]);
        assert(it[2] == it.subrange(0, 3)[2]);
        assert(it[3] == it.subrange(0, 4)[3]);
        assert(it[4] == it.subrange(0, 5)[4]);
        assert(it[5] == it.subrange(0, 6)[5]);
    }
    prod
}

/// The three characters of row `row` of an ASCII integral of `h` rows.
pub open spec fn ascii_integral_char(row: int, col: int, h: int) -> char {
    if row == 0 {
        seq![' ', '.', '-'][col]
    } else if row == h - 1 {
        seq!['-', '\'', ' '][col]
    } else {
        seq![' ', '|', ' '][col]
    }
}

/// The height of an integral over `content_rows` of content: at least 3.
pub open spec fn integral_height(content_rows: Row) -> Row {
    content_rows.max_spec(TermScalar::Finite(3))
}

/// A display-mode integral operator as tall as the content (at least 3
/// rows), with the baseline on its last row.  In Unicode mode it is one
/// column: the upper hook, the extension, the lower hook.  In ASCII mode it
/// is three columns: ` .-` on top, ` | ` between, `-' ` at the bottom.
pub fn build_integral_operator(mode: RenderMode, content_rows: Row) -> (r: TermFrame)
    ensures
        is_integral_frame(r, mode, content_rows),
{
    let ic = integral_chars(mode);
    let height = content_rows.max(TermScalar::new(3));
    let h = height.get();
    assert(h >= 3);
    let width = if mode.is_unicode() {
        TermScalar::new(1)
    } else {
        TermScalar::new(3)
    };
    let mut integral = TermFrame::new(TermSize::new(width, height));
    integral.set_baseline(height.max(TermScalar::new(1)).sub(TermScalar::new(1)));
    if mode.is_unicode() {
        let mut y: i32 = 0;
        while y < h
            invariant
                0 <= y <= h,
                h == height.get_spec(),
                h >= 3,
                integral.items@.len() == y,
                forall|k: int|
                    0 <= k < y ==> is_char_at(
                        #[trigger] integral.items@[k],
                        0,
                        k,
                        if k == 0 {
                            ic.top
                        } else if k == h - 1 {
                            ic.bot
                        } else {
                            ic.mid
                        },
                    ),
                integral.size == (TermSize { cols: width, rows: height }),
                integral.baseline == height.max_spec(TermScalar::Finite(1)).sub_spec(
                    TermScalar::Finite(1),
                ),
                integral.content_height == TermScalar::Finite(0),
            decreases h - y,
        {
            let ch = if y == 0 {
                ic.top
            } else if y == h - 1 {
                ic.bot
            } else {
                ic.mid
            };
            let ghost before = integral.items@;
            push_char_at(&mut integral, 0, y as i64, ch);
            proof {
                assert forall|k: int| 0 <= k < y + 1 implies is_char_at(
                    #[trigger] integral.items@[k],
                    0,
                    k,
                    if k == 0 {
                        ic.top
                    } else if k == h - 1 {
                        ic.bot
                    } else {
                        ic.mid
                    },
                ) by {
                    if k < y {
                        assert(integral.items@[k] == integral.items@.subrange(0, y as int)[k]);
                    }
                }
            }
            y = y + 1;
        }
    } else {
        let mut y: i32 = 0;
        while y < h
            invariant
                0 <= y <= h,
                h == height.get_spec(),
                h >= 3,
                integral.items@.len() == 3 * y,
                forall|k: int|
                    0 <= k < 3 * y ==> is_char_at(
                        #[trigger] integral.items@[k],
                        k % 3,
                        k / 3,
                        ascii_integral_char(k / 3, k % 3, h as int),
                    ),
                integral.size == (TermSize { cols: width, rows: height }),
                integral.baseline == height.max_spec(TermScalar::Finite(1)).sub_spec(
                    TermScalar::Finite(1),
                ),
                integral.content_height == TermScalar::Finite(0),
            decreases h - y,
        {
            let (c0, c1, c2) = if y == 0 {
                (' ', '.', '-')
            } else if y == h - 1 {
                ('-', '\'', ' ')
            } else {
                (' ', '|', ' ')
            };
            let ghost n = integral.items@.len() as int;
            let ghost a0 = integral.items@;
            push_char_at(&mut integral, 0, y as i64, c0);
            let ghost a1 = integral.items@;
            push_char_at(&mut integral, 1, y as i64, c1);
            let ghost a2 = integral.items@;
            push_char_at(&mut integral, 2, y as i64, c2);
            proof {
                let it = integral.items@;
                assert(it[n] == it.subrange(0, n + 2)[n]);
                assert(a2[n] == a2.subrange(0, n + 1)[n]);
                assert(it[n + 1] == it.subrange(0, n + 2)[n + 1]);
                assert forall|k: int| 0 <= k < 3 * (y + 1) implies is_char_at(
                    #[trigger] it[k],
                    k % 3,
                    k / 3,
                    ascii_integral_char(k / 3, k % 3, h as int),
                ) by {
                    let yy = y as int;
                    if k < n {
                        assert(it[k] == it.subrange(0, n + 2)[k]);
                        assert(a2[k] == a2.subrange(0, n + 1)[k]);
                        assert(a1[k] == a1.subrange(0, n)[k]);
                    } else if k == n {
                        assert(k / 3 == yy && k % 3 == 0) by (nonlinear_arith)
                            requires
                                k == 3 * yy,
                                yy >= 0,
                        ;
                    } else if k == n + 1 {
                        assert(k / 3 == yy && k % 3 == 1) by (nonlinear_arith)
                            requires
                                k == 3 * yy + 1,
                                yy >= 0,
                        ;
                    } else {
                        assert(k / 3 == yy && k % 3 == 2) by (nonlinear_arith)
                            requires
                                k == 3 * yy + 2,
                                yy >= 0,
                        ;
                    }
                }
            }
            y = y + 1;
        }
    }
    integral
}

} // verus!
