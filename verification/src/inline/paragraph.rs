//! Paragraphs on a terminal: inline items wrapped greedily into lines,
//! each line baseline-aligned, and the lines stacked.

use vstd::prelude::*;
use crate::frame::{TermFrame, TermFrameItem};
use crate::geom::{Alignment, Col, Row, TermPoint, TermSize};
use crate::math::run::{count_scalar, frame_heights, frame_widths, offsets};
use crate::scalar::{TermScalar, seq_max, seq_sum};
use crate::style::{ATTR_BOLD, ATTR_CROSSED_OUT, ATTR_ITALIC, ATTR_UNDERLINED, TermColor, TermStyle};
use crate::text::{chars_width, text_cols, width_fits};

verus! {

/// An item of a paragraph.
pub enum InlineItem {
    /// A styled text run.
    Text(String, TermStyle),
    /// Horizontal space of the given width.
    Space(Col),
    /// A frame with its own baseline (an inline equation, for instance).
    Frame(TermFrame),
    /// An explicit line break.
    Break,
}

/// How a paragraph is set.
#[derive(Clone, Copy, PartialEq, Eq, Structural, Debug)]
pub struct ParaConfig {
    /// Whether lines are justified to the width available.
    pub justify: bool,
    /// Columns the first line is indented by.
    pub first_line_indent: Col,
    /// Columns the lines after the first are indented by.
    pub hanging_indent: Col,
    /// Horizontal alignment of the paragraph.
    pub align: Alignment,
}

/// Whether a text is narrow enough to be measured (see [`width_fits`]).
pub open spec fn item_measurable(i: InlineItem) -> bool {
    i matches InlineItem::Text(t, _) ==> width_fits(t@)
}

/// The columns an item takes.
pub open spec fn item_width(i: InlineItem) -> Col {
    match i {
        InlineItem::Text(t, _) => TermScalar::Finite(chars_width(t@) as i64),
        InlineItem::Space(w) => w,
        InlineItem::Frame(f) => f.size.cols,
        InlineItem::Break => TermScalar::Finite(0),
    }
}

/// The rows an item reaches above its baseline.
pub open spec fn item_ascent(i: InlineItem) -> Row {
    match i {
        InlineItem::Frame(f) => f.baseline,
        _ => TermScalar::Finite(0),
    }
}

/// The rows an item reaches at and below its baseline.
pub open spec fn item_descent(i: InlineItem) -> Row {
    match i {
        InlineItem::Text(_, _) => TermScalar::Finite(1),
        InlineItem::Space(_) => TermScalar::Finite(1),
        InlineItem::Frame(f) => f.descent_spec(),
        InlineItem::Break => TermScalar::Finite(0),
    }
}

impl InlineItem {
    /// The columns the item takes.
    pub fn width(&self) -> (r: Col)
        requires
            item_measurable(*self),
        ensures
            r == item_width(*self),
    {
        match self {
            InlineItem::Text(t, _) => text_cols(t.as_str()),
            InlineItem::Space(w) => *w,
            InlineItem::Frame(f) => f.cols(),
            InlineItem::Break => TermScalar::zero(),
        }
    }

    /// The rows the item reaches above its baseline.
    pub fn ascent(&self) -> (r: Row)
        ensures
            r == item_ascent(*self),
    {
        match self {
            InlineItem::Frame(f) => f.ascent(),
            _ => TermScalar::zero(),
        }
    }

    /// The rows the item reaches at and below its baseline.
    pub fn descent(&self) -> (r: Row)
        ensures
            r == item_descent(*self),
    {
        match self {
            InlineItem::Text(_, _) => TermScalar::one(),
            InlineItem::Space(_) => TermScalar::one(),
            InlineItem::Frame(f) => f.descent(),
            InlineItem::Break => TermScalar::zero(),
        }
    }
}

/// The widths of items.
pub open spec fn item_widths(s: Seq<InlineItem>) -> Seq<Col> {
    s.map_values(|i: InlineItem| item_width(i))
}

/// The ascents of items.
pub open spec fn item_ascents(s: Seq<InlineItem>) -> Seq<Row> {
    s.map_values(|i: InlineItem| item_ascent(i))
}

/// The descents of items.
pub open spec fn item_descents(s: Seq<InlineItem>) -> Seq<Row> {
    s.map_values(|i: InlineItem| item_descent(i))
}

/// How many items are spaces.
pub open spec fn space_count(s: Seq<InlineItem>) -> int
    decreases s.len(),
{
    if s.len() == 0 {
        0
    } else {
        space_count(s.drop_last()) + if s.last() is Space {
            1int
        } else {
            0int
        }
    }
}

/// The columns each space is widened by when a line is justified: the
/// free width shared among the spaces (rounded toward zero), when the line
/// is not empty and there is free width and a space to share it.
pub open spec fn line_extra(items: Seq<InlineItem>, justify: bool, available: Col) -> Col {
    let total = seq_sum(item_widths(items));
    if justify && total.lt_spec(available) && TermScalar::Finite(0).lt_spec(total) && space_count(items)
        > 0 {
        available.sub_spec(total).div_spec(TermScalar::Finite(space_count(items) as i64))
    } else {
        TermScalar::Finite(0)
    }
}

/// The items a line places, and where its cursor ends: text that takes
/// columns and frames are placed at the cursor, hanging down from the
/// line's baseline `asc` by their own ascent; spaces move the cursor by
/// their width and the justification `extra`.
pub open spec fn line_layout(items: Seq<InlineItem>, asc: Row, extra: Col) -> (Seq<(TermPoint, TermFrameItem)>, Col)
    decreases items.len(),
{
    if items.len() == 0 {
        (Seq::empty(), TermScalar::Finite(0))
    } else {
        let (placed, x) = line_layout(items.drop_last(), asc, extra);
        let row = asc.sub_spec(item_ascent(items.last()));
        match items.last() {
            InlineItem::Text(t, st) => {
                let w = TermScalar::Finite(chars_width(t@) as i64);
                (
                    if TermScalar::Finite(0).lt_spec(w) {
                        placed.push((TermPoint { col: x, row }, TermFrameItem::Text(t, st)))
                    } else {
                        placed
                    },
                    x.add_spec(w),
                )
            },
            InlineItem::Space(w) => (placed, x.add_spec(w).add_spec(extra)),
            InlineItem::Frame(f) => (
                placed.push((TermPoint { col: x, row }, TermFrameItem::Frame(f))),
                x.add_spec(f.size.cols),
            ),
            InlineItem::Break => (placed, x),
        }
    }
}

/// Whether `r` is the frame of a line of `items`: as wide as the width
/// available when justified, else as the items (never negative); as tall
/// as the highest ascent and deepest descent (at least one row), with its
/// baseline at the highest ascent; holding the items as [`line_layout`]
/// places them.  An empty line is one empty row.
pub open spec fn is_line_frame(r: TermFrame, items: Seq<InlineItem>, justify: bool, available: Col) -> bool {
    if items.len() == 0 {
        r.is_empty_of(TermSize { cols: TermScalar::Finite(0), rows: TermScalar::Finite(1) })
    } else {
        let asc = seq_max(item_ascents(items));
        let desc = seq_max(item_descents(items));
        let total = seq_sum(item_widths(items));
        &&& r.size == (TermSize {
            cols: (if justify {
                available
            } else {
                total
            }).max_spec(TermScalar::Finite(0)),
            rows: asc.add_spec(desc).max_spec(TermScalar::Finite(1)),
        })
        &&& r.baseline == asc
        &&& r.content_height == TermScalar::Finite(0)
        &&& r.items@ == line_layout(items, asc, line_extra(items, justify, available)).0
    }
}

/// Whether a line can be laid out: its texts can be measured, and the
/// ascents and descents compared (when there are two items or more) and,
/// when justified, the widths.
pub open spec fn line_ok(items: Seq<InlineItem>, justify: bool, available: Col) -> bool {
    &&& items.len() < 0x8000_0000
    &&& forall|i: int| 0 <= i < items.len() ==> item_measurable(#[trigger] items[i])
    &&& items.len() >= 2 ==> forall|i: int|
        0 <= i < items.len() ==> item_ascent(#[trigger] items[i]).is_num() && item_descent(items[i]).is_num()
    &&& (justify && items.len() > 0) ==> available.is_num() && seq_sum(item_widths(items)).is_num()
}

/// The highest ascent and deepest descent of the items, and their total
/// width.
fn line_metrics(items: &Vec<InlineItem>) -> (r: (Row, Row, Col))
    requires
        items@.len() > 0,
        line_ok(items@, false, TermScalar::Finite(0)),
    ensures
        r.0 == seq_max(item_ascents(items@)),
        r.1 == seq_max(item_descents(items@)),
        r.2 == seq_sum(item_widths(items@)),
{
    let ghost sa = item_ascents(items@);
    let ghost sd = item_descents(items@);
    let ghost sw = item_widths(items@);
    let mut a = items[0].ascent();
    let mut d = items[0].descent();
    let mut w = TermScalar::zero().add(items[0].width());
    proof {
        assert(sa.subrange(0, 1).drop_last() =~= Seq::<Row>::empty());
        assert(sd.subrange(0, 1).drop_last() =~= Seq::<Row>::empty());
        assert(sw.subrange(0, 1).drop_last() =~= Seq::<Col>::empty());
        assert(seq_sum(Seq::<Col>::empty()) == TermScalar::Finite(0));
        assert(sw.subrange(0, 1).last() == sw[0]);
        assert(seq_sum(sw.subrange(0, 1)) == TermScalar::Finite(0).add_spec(sw[0]));
    }
    let mut i: usize = 1;
    while i < items.len()
        invariant
            1 <= i <= items@.len(),
            sa == item_ascents(items@),
            sd == item_descents(items@),
            sw == item_widths(items@),
            line_ok(items@, false, TermScalar::Finite(0)),
            a == seq_max(sa.subrange(0, i as int)),
            d == seq_max(sd.subrange(0, i as int)),
            w == seq_sum(sw.subrange(0, i as int)),
        decreases items@.len() - i,
    {
        proof {
            assert(sa.subrange(0, i + 1).drop_last() =~= sa.subrange(0, i as int));
            assert(sd.subrange(0, i + 1).drop_last() =~= sd.subrange(0, i as int));
            assert(sw.subrange(0, i + 1).drop_last() =~= sw.subrange(0, i as int));
            assert(item_measurable(items@[i as int]));
        }
        a = a.max(items[i].ascent());
        d = d.max(items[i].descent());
        w = w.add(items[i].width());
        i = i + 1;
    }
    proof {
        assert(sa.subrange(0, sa.len() as int) =~= sa);
        assert(sd.subrange(0, sd.len() as int) =~= sd);
        assert(sw.subrange(0, sw.len() as int) =~= sw);
    }
    (a, d, w)
}

/// How many items are spaces.
fn count_spaces(items: &Vec<InlineItem>) -> (r: usize)
    ensures
        r == space_count(items@),
        r <= items@.len(),
{
    let mut n: usize = 0;
    let mut i: usize = 0;
    while i < items.len()
        invariant
            i <= items@.len(),
            n == space_count(items@.take(i as int)),
            n <= i,
        decreases items@.len() - i,
    {
        proof {
            assert(items@.take(i + 1).drop_last() =~= items@.take(i as int));
        }
        match &items[i] {
            InlineItem::Space(_) => {
                n = n + 1;
            },
            _ => {},
        }
        i = i + 1;
    }
    assert(items@.take(items@.len() as int) =~= items@);
    n
}

/// Lay out one line of items (see [`is_line_frame`]).
pub fn build_line_frame(items: Vec<InlineItem>, justify: bool, available: Col) -> (r: TermFrame)
    requires
        line_ok(items@, justify, available),
    ensures
        is_line_frame(r, items@, justify, available),
{
    if items.len() == 0 {
        return TermFrame::new(TermSize::new(TermScalar::zero(), TermScalar::one()));
    }
    let ghost all = items@;
    proof {
        assert(line_ok(all, false, TermScalar::Finite(0)));
    }
    let (max_ascent, max_descent, total_cols) = line_metrics(&items);
    let total_rows = max_ascent.add(max_descent).max(TermScalar::one());
    let extra_space = if justify && available.gt(total_cols) && total_cols.gt(TermScalar::zero()) {
        let spaces = count_spaces(&items);
        if spaces > 0 {
            available.sub(total_cols).div(TermScalar::new(spaces as i32))
        } else {
            TermScalar::zero()
        }
    } else {
        TermScalar::zero()
    };
    assert(extra_space == line_extra(all, justify, available));
    let frame_width = if justify {
        available
    } else {
        total_cols
    };
    let mut frame = TermFrame::new(TermSize::new(frame_width.max(TermScalar::zero()), total_rows));
    frame.set_baseline(max_ascent);
    let mut x = TermScalar::zero();
    for item in it: items.into_iter()
        invariant
            it.seq() == all,
            forall|i: int| 0 <= i < all.len() ==> item_measurable(#[trigger] all[i]),
            (frame.items@, x) == line_layout(all.take(it.index() as int), max_ascent, extra_space),
            frame.size == (TermSize { cols: frame_width.max_spec(TermScalar::Finite(0)), rows: total_rows }),
            frame.baseline == max_ascent,
            frame.content_height == TermScalar::Finite(0),
    {
        let ghost k = it.index() as int;
        proof {
            assert(all.take(k + 1).drop_last() =~= all.take(k));
            assert(all.take(k + 1).last() == all[k]);
            assert(item_measurable(all[k]));
        }
        let row = max_ascent.sub(item.ascent());
        match item {
            InlineItem::Text(t, style) => {
                let w = text_cols(t.as_str());
                if w.gt(TermScalar::zero()) {
                    frame.push(TermPoint::new(x, row), TermFrameItem::Text(t, style));
                }
                x = x.add(w);
            },
            InlineItem::Space(w) => {
                x = x.add(w).add(extra_space);
            },
            InlineItem::Frame(f) => {
                let w = f.cols();
                frame.push(TermPoint::new(x, row), TermFrameItem::Frame(f));
                x = x.add(w);
            },
            InlineItem::Break => {},
        }
    }
    proof {
        assert(all.take(all.len() as int) =~= all);
    }
    frame
}


// ── Greedy wrapping ──────────────────────────────────────────────────────

/// The state of wrapping items into lines.
pub struct WrapState {
    /// The lines so far, each with the width available to it.
    pub lines: Seq<(Seq<InlineItem>, Col)>,
    /// The items of the line being filled.
    pub current: Seq<InlineItem>,
    /// The columns the current line takes.
    pub width: Col,
    /// The index of the current line.
    pub index: int,
}

/// The state before the first item.
pub open spec fn wrap_start() -> WrapState {
    WrapState { lines: Seq::empty(), current: Seq::empty(), width: TermScalar::Finite(0), index: 0 }
}

/// The width available to line `index`: `first` for the first line,
/// `rest` for the others.
pub open spec fn wrap_limit(index: int, first: Col, rest: Col) -> Col {
    if index == 0 {
        first
    } else {
        rest
    }
}

/// One item of greedy wrapping.  A break ends the line.  Another item that
/// would overflow a line already holding items starts a new line, except a
/// space, which is dropped there; otherwise the item joins the line.
pub open spec fn wrap_step(s: WrapState, item: InlineItem, first: Col, rest: Col) -> WrapState {
    let limit = wrap_limit(s.index, first, rest);
    match item {
        InlineItem::Break => WrapState {
            lines: s.lines.push((s.current, limit)),
            current: Seq::empty(),
            width: TermScalar::Finite(0),
            index: s.index + 1,
        },
        _ => {
            let w = item_width(item);
            if limit.lt_spec(s.width.add_spec(w)) && s.current.len() > 0 {
                if !(item is Space) {
                    WrapState {
                        lines: s.lines.push((s.current, limit)),
                        current: seq![item],
                        width: TermScalar::Finite(0).add_spec(w),
                        index: s.index + 1,
                    }
                } else {
                    s
                }
            } else {
                WrapState { current: s.current.push(item), width: s.width.add_spec(w), ..s }
            }
        },
    }
}

/// The state after the items, one after the other.
pub open spec fn wrap_run(items: Seq<InlineItem>, first: Col, rest: Col) -> WrapState
    decreases items.len(),
{
    if items.len() == 0 {
        wrap_start()
    } else {
        wrap_step(wrap_run(items.drop_last(), first, rest), items.last(), first, rest)
    }
}

/// The lines greedy wrapping gives: those ended, then the last one if it
/// holds items.
pub open spec fn wrapped(items: Seq<InlineItem>, first: Col, rest: Col) -> Seq<(Seq<InlineItem>, Col)> {
    let s = wrap_run(items, first, rest);
    if s.current.len() > 0 {
        s.lines.push((s.current, wrap_limit(s.index, first, rest)))
    } else {
        s.lines
    }
}

/// Whether an item's step compares only numbers.
pub open spec fn wrap_step_ok(s: WrapState, item: InlineItem, first: Col, rest: Col) -> bool {
    item is Break || (item_measurable(item) && wrap_limit(s.index, first, rest).is_num() && s.width.add_spec(
        item_width(item),
    ).is_num())
}

/// Whether wrapping the items compares only numbers.
pub open spec fn wrap_ok(items: Seq<InlineItem>, first: Col, rest: Col) -> bool
    decreases items.len(),
{
    items.len() == 0 || (wrap_ok(items.drop_last(), first, rest) && wrap_step_ok(
        wrap_run(items.drop_last(), first, rest),
        items.last(),
        first,
        rest,
    ))
}

/// A wrap whose steps compare only numbers does so on every prefix.
proof fn lemma_wrap_ok_prefix(items: Seq<InlineItem>, first: Col, rest: Col, k: int)
    requires
        wrap_ok(items, first, rest),
        0 <= k <= items.len(),
    ensures
        wrap_ok(items.take(k), first, rest),
    decreases items.len(),
{
    if k == items.len() {
        assert(items.take(k) =~= items);
    } else {
        lemma_wrap_ok_prefix(items.drop_last(), first, rest, k);
        assert(items.drop_last().take(k) =~= items.take(k));
    }
}

/// The line index never passes the number of items taken.
proof fn lemma_wrap_index(items: Seq<InlineItem>, first: Col, rest: Col)
    ensures
        0 <= wrap_run(items, first, rest).index <= items.len(),
    decreases items.len(),
{
    if items.len() > 0 {
        lemma_wrap_index(items.drop_last(), first, rest);
    }
}

/// Whether `lines` holds, line by line, the items and widths of `spec`.
pub open spec fn same_lines(lines: Seq<(Vec<InlineItem>, Col)>, spec: Seq<(Seq<InlineItem>, Col)>) -> bool {
    &&& lines.len() == spec.len()
    &&& forall|i: int| 0 <= i < lines.len() ==> (#[trigger] lines[i]).0@ == spec[i].0 && lines[i].1 == spec[i].1
}

/// Wrap items into lines greedily (see [`wrap_step`]): the first line has
/// the width less the first-line indent, the others the width less the
/// hanging indent.
pub fn greedy_wrap(items: Vec<InlineItem>, max_width: Col, pc: &ParaConfig) -> (r: Vec<(Vec<InlineItem>, Col)>)
    requires
        wrap_ok(
            items@,
            max_width.sub_spec(pc.first_line_indent),
            max_width.sub_spec(pc.hanging_indent),
        ),
    ensures
        same_lines(
            r@,
            wrapped(
                items@,
                max_width.sub_spec(pc.first_line_indent),
                max_width.sub_spec(pc.hanging_indent),
            ),
        ),
        forall|i: int|
            0 <= i < r@.len() ==> (#[trigger] r@[i]).1 == (if i == 0 {
                max_width.sub_spec(pc.first_line_indent)
            } else {
                max_width.sub_spec(pc.hanging_indent)
            }),
{
    let first_line_width = max_width.sub(pc.first_line_indent);
    let rest_line_width = max_width.sub(pc.hanging_indent);
    let ghost all = items@;
    let count = items.len();
    let mut lines: Vec<(Vec<InlineItem>, Col)> = Vec::new();
    let mut current: Vec<InlineItem> = Vec::new();
    let mut current_width = TermScalar::zero();
    let mut line_index: usize = 0;
    for item in it: items.into_iter()
        invariant
            it.seq() == all,
            all.len() == count,
            wrap_ok(all, first_line_width, rest_line_width),
            same_lines(lines@, wrap_run(all.take(it.index() as int), first_line_width, rest_line_width).lines),
            current@ == wrap_run(all.take(it.index() as int), first_line_width, rest_line_width).current,
            current_width == wrap_run(all.take(it.index() as int), first_line_width, rest_line_width).width,
            line_index == wrap_run(all.take(it.index() as int), first_line_width, rest_line_width).index,
            line_index <= it.index(),
    {
        let ghost k = it.index() as int;
        let ghost s = wrap_run(all.take(k), first_line_width, rest_line_width);
        assert(k < count);
        proof {
            lemma_wrap_ok_prefix(all, first_line_width, rest_line_width, k + 1);
            assert(all.take(k + 1).drop_last() =~= all.take(k));
            assert(all.take(k + 1).last() == all[k]);
        }
        let limit = if line_index == 0 {
            first_line_width
        } else {
            rest_line_width
        };
        match item {
            InlineItem::Break => {
                let mut done: Vec<InlineItem> = Vec::new();
                std::mem::swap(&mut done, &mut current);
                lines.push((done, limit));
                current_width = TermScalar::zero();
                line_index = line_index + 1;
            },
            other => {
                let item_w = other.width();
                let overflow = current_width.add(item_w).gt(limit) && current.len() > 0;
                let is_space = match &other {
                    InlineItem::Space(_) => true,
                    _ => false,
                };
                if overflow && is_space {
                    // A space where the line wraps is dropped.
                } else {
                    if overflow {
                        let mut done: Vec<InlineItem> = Vec::new();
                        std::mem::swap(&mut done, &mut current);
                        lines.push((done, limit));
                        current_width = TermScalar::zero();
                        line_index = line_index + 1;
                    }
                    current_width = current_width.add(item_w);
                    current.push(other);
                }
            },
        }
        proof {
            let n = wrap_run(all.take(k + 1), first_line_width, rest_line_width);
            assert forall|i: int| 0 <= i < lines@.len() implies (#[trigger] lines@[i]).0@ == n.lines[i].0
                && lines@[i].1 == n.lines[i].1 by {}
            if n.current.len() == 1 && s.current.len() > 0 && n.lines.len() == s.lines.len() + 1 {
                assert(current@ =~= n.current);
            }
            assert(current@ =~= n.current);
        }
    }
    proof {
        assert(all.take(all.len() as int) =~= all);
        law_wrapped_line_widths(all, first_line_width, rest_line_width);
    }
    if current.len() > 0 {
        let limit = if line_index == 0 {
            first_line_width
        } else {
            rest_line_width
        };
        lines.push((current, limit));
    }
    lines
}


// ── Paragraph frames ─────────────────────────────────────────────────────

/// Where each of frames of the given heights starts when stacked with no
/// gap: the sum of the heights before it.
pub open spec fn stack_offset(hs: Seq<Row>, i: int) -> Row
    decreases i,
{
    if i <= 0 {
        TermScalar::Finite(0)
    } else {
        stack_offset(hs, i - 1).add_spec(hs[i - 1])
    }
}

/// Whether `r` stacks the line frames `fs` top to bottom, left-aligned,
/// each given at least one row: as wide as the widest (never negative), as
/// tall as the rows (never negative), with the first line's baseline.
pub open spec fn is_line_stack(r: TermFrame, fs: Seq<TermFrame>) -> bool {
    &&& r.size == (TermSize {
        cols: seq_max(frame_widths(fs)).max_spec(TermScalar::Finite(0)),
        rows: seq_sum(frame_heights(fs)).max_spec(TermScalar::Finite(0)),
    })
    &&& r.baseline == fs[0].baseline
    &&& r.content_height == TermScalar::Finite(0)
    &&& r.items@.len() == fs.len()
    &&& forall|i: int|
        0 <= i < fs.len() ==> #[trigger] r.items@[i] == (
            TermPoint { col: TermScalar::Finite(0), row: stack_offset(frame_heights(fs), i) },
            TermFrameItem::Frame(fs[i]),
        )
}

/// Whether `r` is the frame of a paragraph of `lines`: each line laid out
/// on the width available to it (see [`is_line_frame`]), and the lines
/// stacked (see [`is_line_stack`]).  No lines give one empty row.
pub open spec fn is_paragraph_frame(r: TermFrame, lines: Seq<(Seq<InlineItem>, Col)>, justify: bool) -> bool {
    if lines.len() == 0 {
        r.is_empty_of(TermSize { cols: TermScalar::Finite(0), rows: TermScalar::Finite(1) })
    } else {
        exists|fs: Seq<TermFrame>|
            #[trigger] is_line_stack(r, fs) && fs.len() == lines.len() && forall|i: int|
                0 <= i < fs.len() ==> is_line_frame(#[trigger] fs[i], lines[i].0, justify, lines[i].1)
    }
}

/// Whether every line can be laid out.
pub open spec fn lines_ok(lines: Seq<(Seq<InlineItem>, Col)>, justify: bool) -> bool {
    forall|i: int| 0 <= i < lines.len() ==> line_ok((#[trigger] lines[i]).0, justify, lines[i].1)
}

/// Lay out the lines of a paragraph and stack them (see
/// [`is_paragraph_frame`]).
pub fn build_paragraph_frame(lines: Vec<(Vec<InlineItem>, Col)>, justify: bool) -> (r: TermFrame)
    requires
        forall|i: int|
            0 <= i < lines@.len() ==> line_ok((#[trigger] lines@[i]).0@, justify, lines@[i].1),
    ensures
        is_paragraph_frame(
            r,
            lines@.map_values(|l: (Vec<InlineItem>, Col)| (l.0@, l.1)),
            justify,
        ),
{
    let ghost spec_lines = lines@.map_values(|l: (Vec<InlineItem>, Col)| (l.0@, l.1));
    if lines.len() == 0 {
        return TermFrame::new(TermSize::new(TermScalar::zero(), TermScalar::one()));
    }
    let ghost ls = lines@;
    let mut frames: Vec<TermFrame> = Vec::new();
    for line in it: lines.into_iter()
        invariant
            it.seq() == ls,
            spec_lines == ls.map_values(|l: (Vec<InlineItem>, Col)| (l.0@, l.1)),
            forall|i: int| 0 <= i < ls.len() ==> line_ok((#[trigger] ls[i]).0@, justify, ls[i].1),
            frames@.len() == it.index(),
            forall|j: int|
                0 <= j < it.index() ==> is_line_frame(
                    #[trigger] frames@[j],
                    spec_lines[j].0,
                    justify,
                    spec_lines[j].1,
                ),
    {
        let ghost k = it.index() as int;
        proof {
            assert(line_ok(ls[k].0@, justify, ls[k].1));
        }
        let (items, available) = line;
        frames.push(build_line_frame(items, justify, available));
    }
    let ghost fs = frames@;
    let ghost hs = frame_heights(fs);
    let ghost ws = frame_widths(fs);
    let n = frames.len();
    let first_baseline = frames[0].baseline();
    let mut max_cols = frames[0].cols();
    let mut total_rows = TermScalar::zero().add(frames[0].rows().max(TermScalar::one()));
    proof {
        assert(ws.subrange(0, 1).drop_last() =~= Seq::<Col>::empty());
        assert(hs.subrange(0, 1).drop_last() =~= Seq::<Row>::empty());
        assert(seq_sum(Seq::<Row>::empty()) == TermScalar::Finite(0));
        assert(hs.subrange(0, 1).last() == hs[0]);
    }
    let mut i: usize = 1;
    while i < n
        invariant
            1 <= i <= n,
            n == fs.len(),
            frames@ == fs,
            hs == frame_heights(fs),
            ws == frame_widths(fs),
            max_cols == seq_max(ws.subrange(0, i as int)),
            total_rows == seq_sum(hs.subrange(0, i as int)),
        decreases n - i,
    {
        proof {
            assert(ws.subrange(0, i + 1).drop_last() =~= ws.subrange(0, i as int));
            assert(hs.subrange(0, i + 1).drop_last() =~= hs.subrange(0, i as int));
        }
        max_cols = max_cols.max(frames[i].cols());
        total_rows = total_rows.add(frames[i].rows().max(TermScalar::one()));
        i = i + 1;
    }
    proof {
        assert(ws.subrange(0, n as int) =~= ws);
        assert(hs.subrange(0, n as int) =~= hs);
    }
    let mut out = TermFrame::new(TermSize::new(max_cols.max(TermScalar::zero()), total_rows.max(TermScalar::zero())));
    out.set_baseline(first_baseline);
    let mut y = TermScalar::zero();
    for frame in jt: frames.into_iter()
        invariant
            jt.seq() == fs,
            hs == frame_heights(fs),
            y == stack_offset(hs, jt.index() as int),
            out.items@.len() == jt.index(),
            forall|j: int|
                0 <= j < jt.index() ==> #[trigger] out.items@[j] == (
                    TermPoint { col: TermScalar::Finite(0), row: stack_offset(hs, j) },
                    TermFrameItem::Frame(fs[j]),
                ),
            out.size == (TermSize {
                cols: max_cols.max_spec(TermScalar::Finite(0)),
                rows: total_rows.max_spec(TermScalar::Finite(0)),
            }),
            out.baseline == first_baseline,
            out.content_height == TermScalar::Finite(0),
    {
        let h = frame.rows().max(TermScalar::one());
        out.push_frame(TermPoint::new(TermScalar::zero(), y), frame);
        y = y.add(h);
    }
    assert(is_line_stack(out, fs));
    out
}

/// Lay out a paragraph of items within `max_width` columns: wrapped
/// greedily (see [`greedy_wrap`]), each line laid out on the width
/// available to it, and the lines stacked.
pub fn layout_paragraph(items: Vec<InlineItem>, max_width: Col, pc: &ParaConfig) -> (r: TermFrame)
    requires
        wrap_ok(
            items@,
            max_width.sub_spec(pc.first_line_indent),
            max_width.sub_spec(pc.hanging_indent),
        ),
        lines_ok(
            wrapped(items@, max_width.sub_spec(pc.first_line_indent), max_width.sub_spec(pc.hanging_indent)),
            pc.justify,
        ),
    ensures
        is_paragraph_frame(
            r,
            wrapped(items@, max_width.sub_spec(pc.first_line_indent), max_width.sub_spec(pc.hanging_indent)),
            pc.justify,
        ),
{
    let ghost w = wrapped(items@, max_width.sub_spec(pc.first_line_indent), max_width.sub_spec(pc.hanging_indent));
    let lines = greedy_wrap(items, max_width, pc);
    proof {
        assert forall|i: int| 0 <= i < lines@.len() implies line_ok(
            (#[trigger] lines@[i]).0@,
            pc.justify,
            lines@[i].1,
        ) by {
            assert(line_ok(w[i].0, pc.justify, w[i].1));
        }
        assert(lines@.map_values(|l: (Vec<InlineItem>, Col)| (l.0@, l.1)) =~= w);
    }
    build_paragraph_frame(lines, pc.justify)
}


// ── Laws of wrapping ─────────────────────────────────────────────────────

/// The items that are neither spaces nor breaks, in order.
pub open spec fn solid(s: Seq<InlineItem>) -> Seq<InlineItem>
    decreases s.len(),
{
    if s.len() == 0 {
        Seq::empty()
    } else {
        solid(s.drop_last()) + if !(s.last() is Space) && !(s.last() is Break) {
            seq![s.last()]
        } else {
            Seq::empty()
        }
    }
}

/// The items of lines, line after line.
pub open spec fn line_items(lines: Seq<(Seq<InlineItem>, Col)>) -> Seq<InlineItem>
    decreases lines.len(),
{
    if lines.len() == 0 {
        Seq::empty()
    } else {
        line_items(lines.drop_last()) + lines.last().0
    }
}

/// Whether a line fits the width available to it, or holds a single item
/// (or none).
pub open spec fn fits_or_single(line: (Seq<InlineItem>, Col)) -> bool {
    seq_sum(item_widths(line.0)).le_spec(line.1) || line.0.len() <= 1
}

/// Whether no item is a break.
pub open spec fn no_breaks(s: Seq<InlineItem>) -> bool {
    forall|i: int| 0 <= i < s.len() ==> !((#[trigger] s[i]) is Break)
}

/// The items of a sequence with one more item.
proof fn lemma_solid_push(s: Seq<InlineItem>, x: InlineItem)
    ensures
        solid(s.push(x)) == solid(s) + if !(x is Space) && !(x is Break) {
            seq![x]
        } else {
            Seq::empty()
        },
{
    assert(s.push(x).drop_last() =~= s);
}

/// The solid items of two sequences one after the other.
proof fn lemma_solid_concat(a: Seq<InlineItem>, b: Seq<InlineItem>)
    ensures
        solid(a + b) == solid(a) + solid(b),
    decreases b.len(),
{
    if b.len() == 0 {
        assert(a + b =~= a);
        assert(solid(a) + solid(b) =~= solid(a));
    } else {
        lemma_solid_concat(a, b.drop_last());
        assert((a + b).drop_last() =~= a + b.drop_last());
        assert((a + b).last() == b.last());
        assert(solid(a + b) =~= solid(a) + solid(b));
    }
}

/// What every state of wrapping keeps: the solid items taken, in order,
/// are those of the lines and then the current line; every line fits or
/// holds one item, and so does the current line, whose width is its
/// items' total; no line holds a break.
pub open spec fn wrap_invariant(s: WrapState, taken: Seq<InlineItem>, first: Col, rest: Col) -> bool {
    &&& solid(line_items(s.lines) + s.current) == solid(taken)
    &&& forall|i: int| 0 <= i < s.lines.len() ==> fits_or_single(#[trigger] s.lines[i])
    &&& fits_or_single((s.current, wrap_limit(s.index, first, rest)))
    &&& s.width == seq_sum(item_widths(s.current))
    &&& forall|i: int| 0 <= i < s.lines.len() ==> no_breaks((#[trigger] s.lines[i]).0)
    &&& no_breaks(s.current)
}

/// Every step of wrapping keeps [`wrap_invariant`].
proof fn lemma_wrap_invariant(items: Seq<InlineItem>, first: Col, rest: Col)
    ensures
        wrap_invariant(wrap_run(items, first, rest), items, first, rest),
    decreases items.len(),
{
    if items.len() == 0 {
        assert(line_items(Seq::<(Seq<InlineItem>, Col)>::empty()) + Seq::<InlineItem>::empty()
            =~= Seq::<InlineItem>::empty());
        assert(seq_sum(item_widths(Seq::<InlineItem>::empty())) == TermScalar::Finite(0)) by {
            assert(item_widths(Seq::<InlineItem>::empty()) =~= Seq::<Col>::empty());
        }
    } else {
        let p = items.drop_last();
        let x = items.last();
        lemma_wrap_invariant(p, first, rest);
        let s = wrap_run(p, first, rest);
        let n = wrap_step(s, x, first, rest);
        let limit = wrap_limit(s.index, first, rest);
        let w = item_width(x);
        lemma_solid_push(p, x);
        assert(items == p.push(x));
        // The line pushed, if any, is the current one.
        let pushed = s.lines.push((s.current, limit));
        assert(pushed.drop_last() =~= s.lines);
        assert(line_items(pushed) == line_items(s.lines) + s.current);
        lemma_solid_concat(line_items(s.lines), s.current);
        match x {
            InlineItem::Break => {
                assert(n.lines == pushed);
                lemma_solid_concat(line_items(pushed), Seq::<InlineItem>::empty());
                assert(line_items(pushed) + Seq::<InlineItem>::empty() =~= line_items(pushed));
                assert(solid(line_items(n.lines) + n.current) == solid(items));
                assert(item_widths(Seq::<InlineItem>::empty()) =~= Seq::<Col>::empty());
                assert(forall|i: int| 0 <= i < n.lines.len() ==> fits_or_single(#[trigger] n.lines[i]));
                assert(forall|i: int|
                    0 <= i < n.lines.len() ==> no_breaks((#[trigger] n.lines[i]).0));
            },
            _ => {
                if limit.lt_spec(s.width.add_spec(w)) && s.current.len() > 0 {
                    if !(x is Space) {
                        assert(n.lines == pushed);
                        assert(n.current == seq![x]);
                        assert(seq![x] =~= Seq::<InlineItem>::empty().push(x));
                        lemma_solid_push(Seq::<InlineItem>::empty(), x);
                        lemma_solid_concat(line_items(pushed), seq![x]);
                        assert(solid(Seq::<InlineItem>::empty()) =~= Seq::<InlineItem>::empty());
                        assert(item_widths(seq![x]).drop_last() =~= Seq::<Col>::empty());
                        assert(item_widths(Seq::<InlineItem>::empty()) =~= Seq::<Col>::empty());
                        assert(forall|i: int| 0 <= i < n.lines.len() ==> fits_or_single(#[trigger] n.lines[i]));
                        assert(forall|i: int|
                            0 <= i < n.lines.len() ==> no_breaks((#[trigger] n.lines[i]).0));
                    } else {
                        assert(n == s);
                        assert(solid(items) == solid(p));
                    }
                } else {
                    assert(n.current == s.current.push(x));
                    assert(line_items(n.lines) + n.current =~= (line_items(s.lines) + s.current).push(x));
                    lemma_solid_push(line_items(s.lines) + s.current, x);
                    assert(item_widths(s.current.push(x)).drop_last() =~= item_widths(s.current));
                    assert(seq_sum(item_widths(n.current)) == s.width.add_spec(w));
                }
            },
        }
    }
}

/// Greedy wrapping loses and reorders no content: the items of the lines
/// that are neither spaces nor breaks are those of the paragraph, in order;
/// and no line holds a break.
pub proof fn law_wrapping_keeps_content(items: Seq<InlineItem>, first: Col, rest: Col)
    ensures
        solid(line_items(wrapped(items, first, rest))) == solid(items),
        forall|i: int|
            0 <= i < wrapped(items, first, rest).len() ==> no_breaks(
                (#[trigger] wrapped(items, first, rest)[i]).0,
            ),
{
    lemma_wrap_invariant(items, first, rest);
    let s = wrap_run(items, first, rest);
    let lines = wrapped(items, first, rest);
    if s.current.len() > 0 {
        let pushed = s.lines.push((s.current, wrap_limit(s.index, first, rest)));
        assert(pushed.drop_last() =~= s.lines);
        assert(line_items(pushed) == line_items(s.lines) + s.current);
    } else {
        assert(line_items(s.lines) + s.current =~= line_items(s.lines));
    }
}

/// Greedy wrapping overflows no line except to hold a single item: every
/// line's items fit the width available to it, or the line holds one item.
pub proof fn law_wrapped_lines_fit(items: Seq<InlineItem>, first: Col, rest: Col)
    ensures
        forall|i: int|
            0 <= i < wrapped(items, first, rest).len() ==> fits_or_single(
                #[trigger] wrapped(items, first, rest)[i],
            ),
{
    lemma_wrap_invariant(items, first, rest);
}


/// The index of the line under way is the number of lines ended, and each
/// line ended has the first-line width if it is the first line and the
/// rest-line width otherwise.
proof fn lemma_wrap_line_widths(items: Seq<InlineItem>, first: Col, rest: Col)
    ensures
        wrap_run(items, first, rest).index == wrap_run(items, first, rest).lines.len(),
        forall|i: int|
            0 <= i < wrap_run(items, first, rest).lines.len() ==> (#[trigger] wrap_run(
                items,
                first,
                rest,
            ).lines[i]).1 == (if i == 0 {
                first
            } else {
                rest
            }),
    decreases items.len(),
{
    if items.len() > 0 {
        lemma_wrap_line_widths(items.drop_last(), first, rest);
        let p = wrap_run(items.drop_last(), first, rest);
        let s = wrap_run(items, first, rest);
        assert forall|i: int| 0 <= i < s.lines.len() implies (#[trigger] s.lines[i]).1 == (if i == 0 {
            first
        } else {
            rest
        }) by {
            if i < p.lines.len() {
                assert(s.lines[i] == p.lines[i]);
            }
        }
    }
}

/// Every line of a greedy wrap, whether ended by a break or by an item
/// that overflows it, counts: the first line has the first-line width and
/// every line after it the rest-line width.
pub proof fn law_wrapped_line_widths(items: Seq<InlineItem>, first: Col, rest: Col)
    ensures
        forall|i: int|
            0 <= i < wrapped(items, first, rest).len() ==> (#[trigger] wrapped(items, first, rest)[i]).1 == (
            if i == 0 {
                first
            } else {
                rest
            }),
{
    lemma_wrap_line_widths(items, first, rest);
}

/// A line that decorates text.
#[derive(Clone, Copy, PartialEq, Eq, Structural, Debug)]
pub enum DecoLine {
    /// A line under the text.
    Underline,
    /// A line through the text.
    Strikethrough,
    /// A line over the text; a terminal cell cannot draw it.
    Overline,
    /// A highlight behind the text.
    Highlight,
}

/// Whether `decos` holds `d`.
pub open spec fn has_deco(decos: Seq<DecoLine>, d: DecoLine) -> bool {
    exists|i: int| 0 <= i < decos.len() && decos[i] == d
}

/// The cell style of inline text (see [`inline_text_style`]).
pub open spec fn inline_text_style_spec(
    weight_delta: i64,
    emph: bool,
    decos: Seq<DecoLine>,
    fill: Option<TermColor>,
) -> TermStyle {
    TermStyle {
        foreground_color: fill,
        background_color: if has_deco(decos, DecoLine::Highlight) {
            Some(TermColor::Yellow)
        } else {
            None
        },
        underline_color: None,
        attributes: ((if weight_delta > 0 { ATTR_BOLD } else { 0 }) + (if emph { ATTR_ITALIC } else { 0 }) + (
        if has_deco(decos, DecoLine::Underline) {
            ATTR_UNDERLINED
        } else {
            0
        }) + (if has_deco(decos, DecoLine::Strikethrough) {
            ATTR_CROSSED_OUT
        } else {
            0
        })) as u32,
    }
}

/// The cell style of inline text: bold when its weight is raised, italic
/// when emphasized, underlined and crossed out by those decorations, on a
/// yellow background when highlighted, and in the `fill` color given for a
/// text that is not filled black.  An overline sets nothing.
pub fn inline_text_style(weight_delta: i64, emph: bool, decos: &Vec<DecoLine>, fill: Option<TermColor>) -> (r:
    TermStyle)
    ensures
        r == inline_text_style_spec(weight_delta, emph, decos@, fill),
{
    let mut underline = false;
    let mut strike = false;
    let mut highlight = false;
    let mut i: usize = 0;
    while i < decos.len()
        invariant
            i <= decos@.len(),
            underline == exists|j: int| 0 <= j < i && decos@[j] == DecoLine::Underline,
            strike == exists|j: int| 0 <= j < i && decos@[j] == DecoLine::Strikethrough,
            highlight == exists|j: int| 0 <= j < i && decos@[j] == DecoLine::Highlight,
        decreases decos@.len() - i,
    {
        let d = decos[i];
        match d {
            DecoLine::Underline => {
                underline = true;
            },
            DecoLine::Strikethrough => {
                strike = true;
            },
            DecoLine::Highlight => {
                highlight = true;
            },
            DecoLine::Overline => {},
        }
        i = i + 1;
    }
    let mut attributes: u32 = 0;
    if weight_delta > 0 {
        attributes = attributes + ATTR_BOLD;
    }
    if emph {
        attributes = attributes + ATTR_ITALIC;
    }
    if underline {
        attributes = attributes + ATTR_UNDERLINED;
    }
    if strike {
        attributes = attributes + ATTR_CROSSED_OUT;
    }
    TermStyle {
        foreground_color: fill,
        background_color: if highlight {
            Some(TermColor::Yellow)
        } else {
            None
        },
        underline_color: None,
        attributes,
    }
}

} // verus!
