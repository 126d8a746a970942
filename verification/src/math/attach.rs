//! Attachments: superscripts, subscripts, pre-scripts, limits and primes.
//!
//! Scripts are placed in a frame beside the base: the top script
//! right-aligned in a row above the base, the bottom script in a row below.
//! In Unicode mode, where every present script is a single row whose
//! characters all have Unicode superscript (subscript) forms, the scripts
//! are set inline instead, keeping the base's height.

use vstd::prelude::*;
use crate::config::RenderMode;
use crate::frame::{TermFrame, TermFrameItem, is_text_item};
use crate::geom::{Col, Row, TermPoint, TermSize};
use crate::scalar::TermScalar;
use crate::style::TermStyle;
use crate::text::{char_cols, chars_of};
use super::fragment::{TermLimits, TermMathFragment, TermMathFrameFragment, is_fragment_frame};
use super::run::{
    compose_horizontal,
    compose_vertical,
    is_hcomposition,
    is_padded,
    is_vcomposition,
    pad_h,
};
use super::scripts::{advance, frame_script_spec, frame_to_subscript, frame_to_superscript};

verus! {

// ── Small helpers ────────────────────────────────────────────────────────

/// The larger of two optional values, where any value is larger than none.
pub open spec fn opt_max(a: Option<TermScalar>, b: Option<TermScalar>) -> Option<TermScalar> {
    match (a, b) {
        (Some(x), Some(y)) => Some(x.max_spec(y)),
        (Some(x), None) => Some(x),
        (None, y) => y,
    }
}

/// An optional value, or zero.
pub open spec fn unwrap_zero(o: Option<TermScalar>) -> TermScalar {
    match o {
        Some(v) => v,
        None => TermScalar::Finite(0),
    }
}

/// The width of an optional frame.
pub open spec fn opt_cols(f: Option<TermFrame>) -> Option<Col> {
    match f {
        Some(f) => Some(f.size.cols),
        None => None,
    }
}

/// The baseline of an optional frame.
pub open spec fn opt_baseline(f: Option<TermFrame>) -> Option<Row> {
    match f {
        Some(f) => Some(f.baseline),
        None => None,
    }
}

/// Whether two optional values can be compared: both numbers where both
/// are present.
pub open spec fn comparable(a: Option<TermScalar>, b: Option<TermScalar>) -> bool {
    match (a, b) {
        (Some(x), Some(y)) => x.is_num() && y.is_num(),
        _ => true,
    }
}

/// The larger of two optional values.
fn max_opt(a: Option<TermScalar>, b: Option<TermScalar>) -> (r: Option<TermScalar>)
    ensures
        r == opt_max(a, b),
{
    match (a, b) {
        (Some(x), Some(y)) => Some(x.max(y)),
        (Some(x), None) => Some(x),
        (None, y) => y,
    }
}

/// The width in columns of a string: the widths of its characters added up
/// from zero.
pub open spec fn str_cols_spec(s: Seq<char>) -> Col {
    advance(TermScalar::Finite(0), s)
}

/// The width in columns of a string.
fn str_cols(s: &str) -> (r: Col)
    ensures
        r == str_cols_spec(s@),
{
    let cs = chars_of(s);
    let mut c = TermScalar::zero();
    let mut i: usize = 0;
    while i < cs.len()
        invariant
            i <= cs@.len(),
            c == advance(TermScalar::Finite(0), cs@.subrange(0, i as int)),
        decreases cs@.len() - i,
    {
        proof {
            assert(cs@.subrange(0, i + 1).drop_last() =~= cs@.subrange(0, i as int));
        }
        c = c.add(char_cols(cs[i]));
        i = i + 1;
    }
    proof {
        assert(cs@.subrange(0, cs@.len() as int) =~= cs@);
    }
    c
}

// ── Inline Unicode script frame ──────────────────────────────────────────

/// The width of optional script text.
pub open spec fn opt_str_cols(s: Option<Seq<char>>) -> Col {
    match s {
        Some(t) => str_cols_spec(t),
        None => TermScalar::Finite(0),
    }
}

/// The view of an optional string slice.
pub open spec fn opt_view(s: Option<&str>) -> Option<Seq<char>> {
    match s {
        Some(t) => Some(t@),
        None => None,
    }
}

/// Whether `f` is the inline script frame for the converted texts `sup`
/// and `sub` beside a base of `base_rows` rows with its baseline at
/// `base_baseline`: as wide as the wider text, as tall as the base (at
/// least one row), with the base's baseline; the superscript one row above
/// the baseline and the subscript one row below, each clamped to the
/// frame's rows.
pub open spec fn is_inline_script_frame(
    f: TermFrame,
    sup: Option<Seq<char>>,
    sub: Option<Seq<char>>,
    base_rows: Row,
    base_baseline: Row,
) -> bool {
    let rows = base_rows.max_spec(TermScalar::Finite(1));
    let max_row = rows.sub_spec(TermScalar::Finite(1));
    let super_row = base_baseline.sub_spec(TermScalar::Finite(1)).max_spec(
        TermScalar::Finite(0),
    ).min_spec(max_row);
    let sub_row = base_baseline.add_spec(TermScalar::Finite(1)).max_spec(TermScalar::Finite(0)).min_spec(
        max_row,
    );
    let k: int = if sup is Some {
        1
    } else {
        0
    };
    &&& f.size == (TermSize {
        cols: opt_str_cols(sup).max_spec(opt_str_cols(sub)).max_spec(TermScalar::Finite(0)),
        rows,
    })
    &&& f.baseline == base_baseline
    &&& f.content_height == TermScalar::Finite(0)
    &&& f.items@.len() == k + if sub is Some {
        1int
    } else {
        0int
    }
    &&& sup matches Some(t) ==> f.items@[0].0 == (TermPoint {
        col: TermScalar::Finite(0),
        row: super_row,
    }) && is_text_item(f.items@[0].1, t, TermStyle::default_spec())
    &&& sub matches Some(t) ==> f.items@[k].0 == (TermPoint {
        col: TermScalar::Finite(0),
        row: sub_row,
    }) && is_text_item(f.items@[k].1, t, TermStyle::default_spec())
}

/// Build an inline Unicode script frame (see [`is_inline_script_frame`]).
/// It keeps the base's height and baseline so that assembly places it
/// without shifting the base; for a one-row base both scripts land on that
/// row.
pub fn build_inline_script_frame(
    super_text: Option<&str>,
    sub_text: Option<&str>,
    base_rows: Row,
    base_baseline: Row,
) -> (r: TermFrame)
    ensures
        is_inline_script_frame(r, opt_view(super_text), opt_view(sub_text), base_rows, base_baseline),
{
    let sup_cols = match super_text {
        Some(s) => str_cols(s),
        None => TermScalar::zero(),
    };
    let sub_cols = match sub_text {
        Some(s) => str_cols(s),
        None => TermScalar::zero(),
    };
    let cols = sup_cols.max(sub_cols).max(TermScalar::zero());
    let rows = base_rows.max(TermScalar::new(1));
    let max_row = rows.sub(TermScalar::new(1));
    let super_row = base_baseline.sub(TermScalar::new(1)).max(TermScalar::zero()).min(max_row);
    let sub_row = base_baseline.add(TermScalar::new(1)).max(TermScalar::zero()).min(max_row);
    let mut frame = TermFrame::new(TermSize::new(cols, rows));
    frame.set_baseline(base_baseline);
    match super_text {
        Some(s) => {
            frame.push_text(TermPoint::new(TermScalar::zero(), super_row), s.to_owned(), TermStyle::plain());
        },
        None => {},
    }
    let ghost mid = frame.items@;
    match sub_text {
        Some(s) => {
            frame.push_text(TermPoint::new(TermScalar::zero(), sub_row), s.to_owned(), TermStyle::plain());
            proof {
                if super_text is Some {
                    assert(frame.items@[0] == frame.items@.subrange(0, mid.len() as int)[0]);
                }
            }
        },
        None => {},
    }
    frame
}

// ── Script frames ────────────────────────────────────────────────────────

/// The converted form of an optional script: a one-row frame whose
/// characters all have the wanted form.
pub open spec fn converted(f: Option<TermFrame>, sup: bool) -> Option<Seq<char>> {
    match f {
        Some(fr) => if fr.size.rows == TermScalar::Finite(1) {
            frame_script_spec(fr, sup)
        } else {
            None
        },
        None => None,
    }
}

/// Whether the scripts `top` and `bottom` are set inline: in Unicode mode,
/// where a base of at least two rows carries both or only one is present,
/// every present script converts, and at least one does.
pub open spec fn script_inline(
    mode: RenderMode,
    base_rows: Row,
    top: Option<TermFrame>,
    bottom: Option<TermFrame>,
) -> bool {
    let has_both = top is Some && bottom is Some;
    &&& mode is Unicode
    &&& (!has_both || TermScalar::Finite(2).le_spec(base_rows))
    &&& (top is None || converted(top, true) is Some)
    &&& (bottom is None || converted(bottom, false) is Some)
    &&& (converted(top, true) is Some || converted(bottom, false) is Some)
}

/// Whether building the script frame compares only numbers: the base's
/// rows and the scripts' rows where Unicode conversion is tried, and the
/// scripts' widths where both are placed in rows of their own.
pub open spec fn script_inputs_ok(
    mode: RenderMode,
    base_rows: Row,
    top: Option<TermFrame>,
    bottom: Option<TermFrame>,
) -> bool {
    let present = top is Some || bottom is Some;
    let has_both = top is Some && bottom is Some;
    &&& (mode is Unicode && present) ==> base_rows.is_num()
    &&& (mode is Unicode && present && (!has_both || TermScalar::Finite(2).le_spec(base_rows))) ==> ((
    top matches Some(f) ==> f.size.rows.is_num()) && (bottom matches Some(f) ==> f.size.rows.is_num()))
    &&& (present && !script_inline(mode, base_rows, top, bottom)) ==> comparable(
        opt_cols(top),
        opt_cols(bottom),
    )
}

/// Whether `r` is the frame of the scripts `top` and `bottom` beside a base
/// of `base_rows` rows with its baseline at `base_baseline`.  No scripts
/// give none; scripts set inline give the inline frame; otherwise the frame
/// is as wide as the wider script, with a row above the base for the top
/// script and a row below it for the bottom one, each right-aligned.
pub open spec fn is_script_frame(
    r: Option<TermFrame>,
    mode: RenderMode,
    base_rows: Row,
    base_baseline: Row,
    top: Option<TermFrame>,
    bottom: Option<TermFrame>,
) -> bool {
    if top is None && bottom is None {
        r is None
    } else if script_inline(mode, base_rows, top, bottom) {
        r matches Some(f) && is_inline_script_frame(
            f,
            converted(top, true),
            converted(bottom, false),
            base_rows,
            base_baseline,
        )
    } else {
        let sc = unwrap_zero(opt_max(opt_cols(top), opt_cols(bottom)));
        let top_extra = TermScalar::Finite(if top is Some { 1 } else { 0 });
        let bot_extra = TermScalar::Finite(if bottom is Some { 1 } else { 0 });
        let k: int = if top is Some {
            1
        } else {
            0
        };
        &&& r matches Some(f) && {
            &&& f.size == (TermSize {
                cols: sc,
                rows: base_rows.add_spec(top_extra).add_spec(bot_extra),
            })
            &&& f.baseline == base_baseline.add_spec(top_extra)
            &&& f.content_height == TermScalar::Finite(0)
            &&& f.items@.len() == k + if bottom is Some {
                1int
            } else {
                0int
            }
            &&& top matches Some(t) ==> f.items@[0] == (
                TermPoint {
                    col: sc.sub_spec(t.size.cols).max_spec(TermScalar::Finite(0)),
                    row: TermScalar::Finite(0),
                },
                TermFrameItem::Frame(t),
            )
            &&& bottom matches Some(b) ==> f.items@[k] == (
                TermPoint {
                    col: sc.sub_spec(b.size.cols).max_spec(TermScalar::Finite(0)),
                    row: top_extra.add_spec(base_rows),
                },
                TermFrameItem::Frame(b),
            )
        }
    }
}

/// The baseline of the script frame built for these inputs, if any.
pub open spec fn script_baseline(
    mode: RenderMode,
    base_rows: Row,
    base_baseline: Row,
    top: Option<TermFrame>,
    bottom: Option<TermFrame>,
) -> Option<Row> {
    if top is None && bottom is None {
        None
    } else if script_inline(mode, base_rows, top, bottom) {
        Some(base_baseline)
    } else {
        Some(base_baseline.add_spec(TermScalar::Finite(if top is Some { 1 } else { 0 })))
    }
}

/// The converted text of an optional script frame.
fn convert_script(f: &Option<TermFrame>, sup: bool) -> (r: Option<String>)
    requires
        f matches Some(fr) ==> fr.size.rows.is_num(),
    ensures
        match r {
            Some(s) => converted(*f, sup) == Some(s@),
            None => converted(*f, sup) is None,
        },
{
    match f {
        Some(fr) => {
            if fr.rows() == TermScalar::new(1) {
                if sup {
                    frame_to_superscript(fr)
                } else {
                    frame_to_subscript(fr)
                }
            } else {
                None
            }
        },
        None => None,
    }
}

/// Build the frame of the scripts `top` and `bottom` beside a base of
/// `base_rows` rows with its baseline at `base_baseline` (see
/// [`is_script_frame`]).
pub fn build_script_frame(
    mode: RenderMode,
    base_rows: Row,
    base_baseline: Row,
    top: Option<TermFrame>,
    bottom: Option<TermFrame>,
) -> (r: Option<TermFrame>)
    requires
        script_inputs_ok(mode, base_rows, top, bottom),
    ensures
        is_script_frame(r, mode, base_rows, base_baseline, top, bottom),
        opt_baseline(r) == script_baseline(mode, base_rows, base_baseline, top, bottom),
{
    if top.is_none() && bottom.is_none() {
        return None;
    }
    if mode.is_unicode() {
        let has_both = top.is_some() && bottom.is_some();
        let both_allowed = base_rows.ge(TermScalar::new(2));
        if !has_both || both_allowed {
            let super_str = convert_script(&top, true);
            let sub_str = convert_script(&bottom, false);
            let top_ok = top.is_none() || super_str.is_some();
            let bottom_ok = bottom.is_none() || sub_str.is_some();
            if top_ok && bottom_ok && (super_str.is_some() || sub_str.is_some()) {
                let sup_ref: Option<&str> = match &super_str {
                    Some(s) => Some(s.as_str()),
                    None => None,
                };
                let sub_ref: Option<&str> = match &sub_str {
                    Some(s) => Some(s.as_str()),
                    None => None,
                };
                return Some(build_inline_script_frame(sup_ref, sub_ref, base_rows, base_baseline));
            }
        }
    }
    let top_cols = match &top {
        Some(f) => Some(f.cols()),
        None => None,
    };
    let bottom_cols = match &bottom {
        Some(f) => Some(f.cols()),
        None => None,
    };
    let script_cols = match max_opt(top_cols, bottom_cols) {
        Some(c) => c,
        None => TermScalar::zero(),
    };
    let top_extra = if top.is_some() {
        TermScalar::new(1)
    } else {
        TermScalar::zero()
    };
    let bot_extra = if bottom.is_some() {
        TermScalar::new(1)
    } else {
        TermScalar::zero()
    };
    let total_rows = base_rows.add(top_extra).add(bot_extra);
    let new_baseline = base_baseline.add(top_extra);
    let mut frame = TermFrame::new(TermSize::new(script_cols, total_rows));
    frame.set_baseline(new_baseline);
    match top {
        Some(tf) => {
            let x = script_cols.sub(tf.cols()).max(TermScalar::zero());
            frame.push_frame(TermPoint::new(x, TermScalar::zero()), tf);
        },
        None => {},
    }
    let ghost mid = frame.items@;
    match bottom {
        Some(bf) => {
            let x = script_cols.sub(bf.cols()).max(TermScalar::zero());
            let y = top_extra.add(base_rows);
            frame.push_frame(TermPoint::new(x, y), bf);
        },
        None => {},
    }
    Some(frame)
}

/// Build the pre-scripts frame (`tl` above, `bl` below) beside a base of
/// `base_rows` rows with its baseline at `base_baseline` (see
/// [`is_script_frame`]).
pub fn build_pre_scripts(
    mode: RenderMode,
    base_cols: Col,
    base_rows: Row,
    base_baseline: Row,
    tl: Option<TermFrame>,
    bl: Option<TermFrame>,
) -> (r: Option<TermFrame>)
    requires
        script_inputs_ok(mode, base_rows, tl, bl),
    ensures
        is_script_frame(r, mode, base_rows, base_baseline, tl, bl),
        opt_baseline(r) == script_baseline(mode, base_rows, base_baseline, tl, bl),
{
    build_script_frame(mode, base_rows, base_baseline, tl, bl)
}

/// Build the post-scripts frame (`tr` above, `br` below) beside a base of
/// `base_rows` rows with its baseline at `base_baseline` (see
/// [`is_script_frame`]).
pub fn build_post_scripts(
    mode: RenderMode,
    base_cols: Col,
    base_rows: Row,
    base_baseline: Row,
    tr: Option<TermFrame>,
    br: Option<TermFrame>,
) -> (r: Option<TermFrame>)
    requires
        script_inputs_ok(mode, base_rows, tr, br),
    ensures
        is_script_frame(r, mode, base_rows, base_baseline, tr, br),
        opt_baseline(r) == script_baseline(mode, base_rows, base_baseline, tr, br),
{
    build_post_scripts_with_ic(mode, base_cols, base_rows, base_baseline, tr, br, TermScalar::zero())
}

/// Build the post-scripts frame; the italics correction of the base does
/// not move the superscript on a terminal.
pub fn build_post_scripts_with_ic(
    mode: RenderMode,
    base_cols: Col,
    base_rows: Row,
    base_baseline: Row,
    tr: Option<TermFrame>,
    br: Option<TermFrame>,
    italics_correction: Col,
) -> (r: Option<TermFrame>)
    requires
        script_inputs_ok(mode, base_rows, tr, br),
    ensures
        is_script_frame(r, mode, base_rows, base_baseline, tr, br),
        opt_baseline(r) == script_baseline(mode, base_rows, base_baseline, tr, br),
{
    build_script_frame(mode, base_rows, base_baseline, tr, br)
}

// ── Assembly ─────────────────────────────────────────────────────────────

/// The baseline that assembly aligns the base to: the larger of the
/// scripts' baselines, or 0.
pub open spec fn assembly_target(pre: Option<TermFrame>, post: Option<TermFrame>) -> Row {
    unwrap_zero(opt_max(opt_baseline(pre), opt_baseline(post)))
}

/// Whether assembly compares only numbers.
pub open spec fn assembly_ok(pre: Option<TermFrame>, base: TermFrame, post: Option<TermFrame>) -> bool {
    &&& comparable(opt_baseline(pre), opt_baseline(post))
    &&& assembly_target(pre, post).sub_spec(base.baseline).is_num()
}

/// The parts that assembly composes: the scripts that are present, around
/// the base.
pub open spec fn assembly_parts(pre: Option<TermFrame>, base: TermFrame, post: Option<TermFrame>) -> Seq<
    TermFrame,
> {
    (match pre {
        Some(p) => seq![p],
        None => Seq::empty(),
    }) + seq![base] + (match post {
        Some(p) => seq![p],
        None => Seq::empty(),
    })
}

/// Whether `b2` is `base` moved down by `shift` rows with its baseline at
/// `target`.
pub open spec fn is_lowered(b2: TermFrame, base: TermFrame, shift: Row, target: Row) -> bool {
    &&& b2.size == base.size
    &&& b2.baseline == target
    &&& b2.content_height == base.content_height
    &&& b2.items@.len() == base.items@.len()
    &&& forall|i: int|
        0 <= i < base.items@.len() ==> (#[trigger] b2.items@[i]).0 == base.items@[i].0.add_spec(
            TermPoint { col: TermScalar::Finite(0), row: shift },
        ) && b2.items@[i].1 == base.items@[i].1
}

/// Whether `r` is `pre`, `base` and `post` assembled by way of `b2`, the
/// base as placed: where the scripts' baseline lies below the base's, the
/// base moves down to it, otherwise it stays as it is; then the present
/// parts are composed side by side on their baselines, and a lone base is
/// kept as it is.
pub open spec fn is_assembly_via(
    r: TermFrame,
    pre: Option<TermFrame>,
    base: TermFrame,
    post: Option<TermFrame>,
    b2: TermFrame,
) -> bool {
    let target = assembly_target(pre, post);
    let shift = target.sub_spec(base.baseline);
    &&& (TermScalar::Finite(0).lt_spec(shift) ==> is_lowered(b2, base, shift, target))
    &&& (!TermScalar::Finite(0).lt_spec(shift) ==> b2 == base)
    &&& ((pre is None && post is None) ==> r == b2)
    &&& (!(pre is None && post is None) ==> is_hcomposition(
        r,
        assembly_parts(pre, b2, post),
        TermScalar::Finite(0),
    ))
}

/// Whether `r` is `pre`, `base` and `post` assembled (see
/// [`is_assembly_via`]).
pub open spec fn is_assembly(r: TermFrame, pre: Option<TermFrame>, base: TermFrame, post: Option<
    TermFrame,
>) -> bool {
    exists|b2: TermFrame| #[trigger] is_assembly_via(r, pre, base, post, b2)
}

/// Assemble the pre-scripts, the base and the post-scripts into one frame
/// (see [`is_assembly`]).
pub fn assemble_with_pre_post(pre: Option<TermFrame>, base: TermFrame, post: Option<TermFrame>) -> (r:
    TermFrame)
    requires
        assembly_ok(pre, base, post),
    ensures
        is_assembly(r, pre, base, post),
{
    let ghost base0 = base;
    let mut base = base;
    let pre_bl = match &pre {
        Some(f) => Some(f.baseline()),
        None => None,
    };
    let post_bl = match &post {
        Some(f) => Some(f.baseline()),
        None => None,
    };
    let target_bl = match max_opt(pre_bl, post_bl) {
        Some(b) => b,
        None => TermScalar::zero(),
    };
    let shift = target_bl.sub(base.baseline());
    if shift.gt(TermScalar::zero()) {
        base.translate(TermPoint::new(TermScalar::zero(), shift));
        base.set_baseline(target_bl);
        proof {
            assert(TermPoint { col: TermScalar::Finite(0), row: shift } != TermPoint::zero_spec());
        }
    }
    let ghost b2 = base;
    proof {
        let target = assembly_target(pre, post);
        let sh = target.sub_spec(base0.baseline);
        assert(TermScalar::Finite(0).lt_spec(sh) ==> is_lowered(b2, base0, sh, target));
        assert(!TermScalar::Finite(0).lt_spec(sh) ==> b2 == base0);
    }
    if pre.is_none() && post.is_none() {
        proof {
            assert(is_assembly_via(b2, pre, base0, post, b2));
        }
        return base;
    }
    let mut parts: Vec<TermFrame> = Vec::new();
    match pre {
        Some(p) => parts.push(p),
        None => {},
    }
    parts.push(base);
    match post {
        Some(p) => parts.push(p),
        None => {},
    }
    proof {
        assert(parts@ =~= assembly_parts(pre, b2, post));
    }
    let r = compose_horizontal(parts, TermScalar::zero());
    proof {
        assert(is_assembly_via(r, pre, base0, post, b2));
    }
    r
}

// ── Scripts and limits layouts ───────────────────────────────────────────

/// Whether laying out `base` with the scripts compares only numbers.
pub open spec fn scripts_layout_ok(
    mode: RenderMode,
    bf: TermFrame,
    tr: Option<TermFrame>,
    br: Option<TermFrame>,
    tl: Option<TermFrame>,
    bl: Option<TermFrame>,
) -> bool {
    let pre_bl = script_baseline(mode, bf.size.rows, bf.baseline, tl, bl);
    let post_bl = script_baseline(mode, bf.size.rows, bf.baseline, tr, br);
    &&& script_inputs_ok(mode, bf.size.rows, tl, bl)
    &&& script_inputs_ok(mode, bf.size.rows, tr, br)
    &&& comparable(pre_bl, post_bl)
    &&& unwrap_zero(opt_max(pre_bl, post_bl)).sub_spec(bf.baseline).is_num()
}

/// Lay out a base with superscript `tr` and subscript `br` on its right and
/// pre-scripts `tl` and `bl` on its left: the script frames (see
/// [`is_script_frame`]) assembled around the base's frame (see
/// [`is_assembly`]), as a fragment with the defaults of
/// [`TermMathFrameFragment::new`].
pub fn layout_scripts_mode(
    mode: RenderMode,
    base_frag: TermMathFragment,
    tr: Option<TermFrame>,
    br: Option<TermFrame>,
    tl: Option<TermFrame>,
    bl: Option<TermFrame>,
) -> (r: TermMathFrameFragment)
    requires
        forall|bf: TermFrame| is_fragment_frame(bf, base_frag) ==> scripts_layout_ok(mode, bf, tr, br, tl, bl),
    ensures
        r.is_new_of(r.frame),
        exists|bf: TermFrame, pre: Option<TermFrame>, post: Option<TermFrame>|
            {
                &&& is_fragment_frame(bf, base_frag)
                &&& is_script_frame(pre, mode, bf.size.rows, bf.baseline, tl, bl)
                &&& is_script_frame(post, mode, bf.size.rows, bf.baseline, tr, br)
                &&& is_assembly(r.frame, pre, bf, post)
            },
{
    let italics = base_frag.italics_correction();
    let base_frame = base_frag.into_frame();
    let pre = build_pre_scripts(mode, base_frame.cols(), base_frame.rows(), base_frame.baseline(), tl, bl);
    let post = build_post_scripts_with_ic(
        mode,
        base_frame.cols(),
        base_frame.rows(),
        base_frame.baseline(),
        tr,
        br,
        italics,
    );
    let ghost bf = base_frame;
    let ghost pre0 = pre;
    let ghost post0 = post;
    let final_frame = assemble_with_pre_post(pre, base_frame, post);
    TermMathFrameFragment::new(final_frame)
}

/// Half of the spare width `limit_width - cols` (read as an `i32`, at least
/// 0, rounded down).
pub open spec fn limit_pad(limit_width: Col, cols: Col) -> Col {
    let g = limit_width.sub_spec(cols).get_spec() as int;
    TermScalar::Finite(((if g < 0 { 0 } else { g }) / 2) as i64)
}

/// Whether `r` is `f` centred in `limit_width` columns: padded by half the
/// spare width on the left and the rest on the right, or `f` itself where
/// there is no padding on the left.
pub open spec fn is_centred(r: TermFrame, f: TermFrame, limit_width: Col) -> bool {
    let pad = limit_pad(limit_width, f.size.cols);
    if TermScalar::Finite(0).lt_spec(pad) {
        is_padded(r, f, pad, limit_width.sub_spec(f.size.cols).sub_spec(pad))
    } else {
        r == f
    }
}

/// Centre `f` in `limit_width` columns.
fn centre(f: TermFrame, limit_width: Col) -> (r: TermFrame)
    ensures
        is_centred(r, f, limit_width),
{
    let c = f.cols();
    let g = limit_width.sub(c).get();
    let pad = TermScalar::new((if g < 0 { 0 } else { g }) / 2);
    if pad.gt(TermScalar::zero()) {
        pad_h(f, pad, limit_width.sub(c).sub(pad))
    } else {
        f
    }
}

/// The width of a limits stack: the widest of the limits and the base.
pub open spec fn limit_width_spec(above: Option<TermFrame>, below: Option<TermFrame>, bf: TermFrame) -> Col {
    unwrap_zero(opt_max(opt_cols(above), opt_cols(below))).max_spec(bf.size.cols)
}

/// The frames of a limits stack, each centred: above, base, below.
pub open spec fn is_limit_stack_parts(
    parts: Seq<TermFrame>,
    above: Option<TermFrame>,
    below: Option<TermFrame>,
    bf: TermFrame,
) -> bool {
    let w = limit_width_spec(above, below, bf);
    let k: int = if above is Some {
        1
    } else {
        0
    };
    &&& parts.len() == k + 1 + if below is Some {
        1int
    } else {
        0int
    }
    &&& above matches Some(a) ==> is_centred(parts[0], a, w)
    &&& is_centred(parts[k], bf, w)
    &&& below matches Some(b) ==> is_centred(parts[k + 1], b, w)
}

/// Whether `stack` is the limits stack of `base_frag` with `above` and
/// `below`: its frame `bf` and the centred parts `parts` composed top to
/// bottom with no gap, the baseline in the base.
pub open spec fn is_limits_stack(
    stack: TermFrame,
    parts: Seq<TermFrame>,
    bf: TermFrame,
    base_frag: TermMathFragment,
    above: Option<TermFrame>,
    below: Option<TermFrame>,
) -> bool {
    &&& is_fragment_frame(bf, base_frag)
    &&& is_limit_stack_parts(parts, above, below, bf)
    &&& is_vcomposition(
        stack,
        parts,
        TermScalar::Finite(0),
        if above is Some {
            1
        } else {
            0
        },
    )
}

/// Lay out a base with limits: `above` and `below` stacked over and under
/// the base's frame, each centred in the widest of them, with no gap and
/// the baseline in the base; then the pre-scripts `tl`, `bl` and the
/// post-scripts `tr`, `br` are built beside the stack (see
/// [`is_script_frame`]) and assembled around it (see [`is_assembly`]).
pub fn layout_limits_mode(
    mode: RenderMode,
    base_frag: TermMathFragment,
    above: Option<TermFrame>,
    below: Option<TermFrame>,
    tl: Option<TermFrame>,
    bl: Option<TermFrame>,
    tr: Option<TermFrame>,
    br: Option<TermFrame>,
) -> (r: TermMathFrameFragment)
    requires
        comparable(opt_cols(above), opt_cols(below)),
        forall|bf: TermFrame, parts: Seq<TermFrame>, stack: TermFrame|
            #[trigger] is_limits_stack(stack, parts, bf, base_frag, above, below) ==> scripts_layout_ok(
                mode,
                stack,
                tr,
                br,
                tl,
                bl,
            ),
    ensures
        r.is_new_of(r.frame),
        exists|
            bf: TermFrame,
            parts: Seq<TermFrame>,
            stack: TermFrame,
            pre: Option<TermFrame>,
            post: Option<TermFrame>,
        |
            {
                &&& is_limits_stack(stack, parts, bf, base_frag, above, below)
                &&& is_script_frame(pre, mode, stack.size.rows, stack.baseline, tl, bl)
                &&& is_script_frame(post, mode, stack.size.rows, stack.baseline, tr, br)
                &&& is_assembly(r.frame, pre, stack, post)
            },
{
    let base_frame = base_frag.into_frame();
    let above_cols = match &above {
        Some(f) => Some(f.cols()),
        None => None,
    };
    let below_cols = match &below {
        Some(f) => Some(f.cols()),
        None => None,
    };
    let limit_width = match max_opt(above_cols, below_cols) {
        Some(c) => c,
        None => TermScalar::zero(),
    }.max(base_frame.cols());
    let ghost bf = base_frame;
    let mut frames: Vec<TermFrame> = Vec::new();
    let mut baseline_idx: usize = 0;
    match above {
        Some(af) => {
            frames.push(centre(af, limit_width));
            baseline_idx = 1;
        },
        None => {},
    }
    frames.push(centre(base_frame, limit_width));
    match below {
        Some(bf2) => {
            frames.push(centre(bf2, limit_width));
        },
        None => {},
    }
    let ghost parts = frames@;
    proof {
        assert(is_limit_stack_parts(parts, above, below, bf));
    }
    let stack = compose_vertical(frames, TermScalar::zero(), baseline_idx);
    proof {
        assert(is_limits_stack(stack, parts, bf, base_frag, above, below));
    }
    let pre = build_pre_scripts(mode, stack.cols(), stack.rows(), stack.baseline(), tl, bl);
    let post = build_post_scripts(mode, stack.cols(), stack.rows(), stack.baseline(), tr, br);
    let ghost stack0 = stack;
    let final_frame = assemble_with_pre_post(pre, stack, post);
    TermMathFrameFragment::new(final_frame)
}

// ── Primes, scripts and limits markers ──────────────────────────────────

/// The prime symbols for `count` primes: one combined symbol for one to
/// three primes, otherwise `count` single primes.
pub open spec fn prime_chars_spec(count: usize) -> Seq<char> {
    if count == 1 {
        seq!['′']
    } else if count == 2 {
        seq!['″']
    } else if count == 3 {
        seq!['‴']
    } else {
        Seq::new(count as nat, |_i: int| '′')
    }
}

/// The prime symbols to emit for `count` primes (see [`prime_chars_spec`]).
pub fn prime_chars(count: usize) -> (r: Vec<char>)
    ensures
        r@ == prime_chars_spec(count),
{
    let mut v: Vec<char> = Vec::new();
    if count == 1 {
        v.push('′');
    } else if count == 2 {
        v.push('″');
    } else if count == 3 {
        v.push('‴');
    } else {
        let mut i: usize = 0;
        while i < count
            invariant
                i <= count,
                v@ == Seq::new(i as nat, |_i: int| '′'),
            decreases count - i,
        {
            v.push('′');
            i = i + 1;
            assert(v@ =~= Seq::new(i as nat, |_i: int| '′'));
        }
        return v;
    }
    assert(v@ =~= prime_chars_spec(count));
    v
}

/// The limits mode that a limits marker sets: always where it applies
/// inline too, otherwise in display equations only.
pub fn limits_for(inline: bool) -> (r: TermLimits)
    ensures
        r == (if inline {
            TermLimits::Always
        } else {
            TermLimits::Display
        }),
{
    if inline {
        TermLimits::Always
    } else {
        TermLimits::Display
    }
}


// ── Where attachments go ─────────────────────────────────────────────────

/// The attachments of a base, by where they are set.  A corner slot may
/// hold several pieces, laid out one after another as one script.
pub struct AttachSlots<T> {
    /// Set centred above the base (limits layout only).
    pub above: Option<T>,
    /// Set as the top-right script.
    pub top_right: Vec<T>,
    /// Set centred below the base (limits layout only).
    pub below: Option<T>,
    /// Set as the bottom-right script.
    pub bottom_right: Vec<T>,
}

/// An optional piece as a sequence of at most one piece.
pub open spec fn opt_seq<T>(o: Option<T>) -> Seq<T> {
    match o {
        Some(x) => seq![x],
        None => Seq::empty(),
    }
}

fn push_opt<T>(v: &mut Vec<T>, o: Option<T>)
    ensures
        final(v)@ == old(v)@ + opt_seq(o),
{
    match o {
        Some(x) => {
            v.push(x);
        },
        None => {},
    }
}

/// Decide where the top (`t`), bottom (`b`), top-right (`tr`) and
/// bottom-right (`br`) attachments of a base go.  With limits active for
/// the base (given whether the equation is displayed), the top and bottom
/// attachments go above and below it; otherwise they join the right-hand
/// scripts, after the corner attachment.
pub fn attach_slots<T>(
    limits: TermLimits,
    is_display: bool,
    t: Option<T>,
    b: Option<T>,
    tr: Option<T>,
    br: Option<T>,
) -> (r: AttachSlots<T>)
    ensures
        limits.active_spec(is_display) ==> {
            &&& r.above == t
            &&& r.below == b
            &&& r.top_right@ == opt_seq(tr)
            &&& r.bottom_right@ == opt_seq(br)
        },
        !limits.active_spec(is_display) ==> {
            &&& r.above is None
            &&& r.below is None
            &&& r.top_right@ == opt_seq(tr) + opt_seq(t)
            &&& r.bottom_right@ == opt_seq(br) + opt_seq(b)
        },
{
    let mut top_right: Vec<T> = Vec::new();
    let mut bottom_right: Vec<T> = Vec::new();
    push_opt(&mut top_right, tr);
    push_opt(&mut bottom_right, br);
    if limits.active(is_display) {
        assert(top_right@ =~= opt_seq(tr));
        assert(bottom_right@ =~= opt_seq(br));
        AttachSlots { above: t, top_right, below: b, bottom_right }
    } else {
        push_opt(&mut top_right, t);
        push_opt(&mut bottom_right, b);
        AttachSlots { above: None, top_right, below: None, bottom_right }
    }
}

} // verus!
