//! Terminal frames: sized, nestable collections of placed items.
//!
//! A [`TermFrame`] is a rectangular region of terminal cells holding items
//! (styled text, nested frames, rules, shapes, images, introspection tags)
//! at positions relative to its top-left corner.  The *baseline* row is used
//! for vertical alignment when items are composed side by side.

use vstd::prelude::*;
use crate::geom::{Alignment, Axes, Col, Row, TermPoint, TermSize, align_offset, align_x, align_y};
use crate::scalar::TermScalar;
use crate::style::TermStyle;
use crate::grid::{TermCell, TermGrid, extent, put_text_cells};
use crate::text::push_char;

verus! {

/// An item placed in a [`TermFrame`].
pub enum TermFrameItem {
    /// Styled text.
    Text(String, TermStyle),
    /// A nested sub-frame.
    Frame(TermFrame),
    /// A horizontal rule: `ch` repeated over `width` columns.
    Rule { ch: char, width: Col, style: TermStyle },
    /// An approximated shape.
    Shape(TermShape),
    /// An image placeholder.
    Image(TermImage),
    /// An introspection tag, identified by its key.
    Tag(u64),
}

/// An approximated geometric shape for terminal display.
pub struct TermShape {
    /// Shape geometry.
    pub geometry: TermGeometry,
    /// Optional fill character.
    pub fill: Option<char>,
    /// Stroke character for outlines.
    pub stroke_char: char,
    /// Style for the shape.
    pub style: TermStyle,
    /// Source location of the shape.
    pub span: u64,
}

/// Simplified geometry for terminal rendering.
pub enum TermGeometry {
    /// A line from the placement point to `delta` past it.
    Line { delta: TermPoint },
    /// A rectangle.
    Rect { size: TermSize },
    /// An ellipse, approximated by its bounding box.
    Ellipse { size: TermSize },
    /// A path through points, approximated by its bounding box.
    Path { points: Vec<TermPoint>, closed: bool },
}

/// An image placeholder for terminal display.
pub struct TermImage {
    /// Placeholder width in columns.
    pub width: Col,
    /// Placeholder height in rows.
    pub height: Row,
    /// Alt text or file name.
    pub alt: String,
}

/// A terminal frame: a sized, sparse 2-D arrangement of placed items.
pub struct TermFrame {
    /// Total size of the frame.
    pub size: TermSize,
    /// Baseline row offset from the top.
    pub baseline: Row,
    /// Placed items, in drawing order.
    pub items: Vec<(TermPoint, TermFrameItem)>,
    /// Content height before any expansion.
    pub content_height: Row,
}

/// The positions of a sequence of placed items.
pub open spec fn positions(items: Seq<(TermPoint, TermFrameItem)>) -> Seq<TermPoint> {
    items.map_values(|it: (TermPoint, TermFrameItem)| it.0)
}

/// Whether an item is a text run with the given chars and style.
pub open spec fn is_text_item(it: TermFrameItem, text: Seq<char>, style: TermStyle) -> bool {
    it matches TermFrameItem::Text(t, s) && t@ == text && s == style
}

/// Whether an item is a nested frame.
pub open spec fn is_frame_item(it: TermFrameItem) -> bool {
    it is Frame
}

impl TermFrame {
    /// Whether the frame is a fresh, empty frame of the given size.
    pub open spec fn is_empty_of(self, size: TermSize) -> bool {
        &&& self.size == size
        &&& self.baseline == TermScalar::Finite(0)
        &&& self.items@.len() == 0
        &&& self.content_height == TermScalar::Finite(0)
    }

    /// Whether the size and baseline are numbers and the descent is defined.
    pub open spec fn metrics_ok(self) -> bool {
        &&& self.size.cols.is_num()
        &&& self.size.rows.is_num()
        &&& self.baseline.is_num()
        &&& self.size.rows.sub_spec(self.baseline).is_num()
    }

    /// Rows at or below the baseline.
    pub open spec fn descent_spec(self) -> Row {
        self.size.rows.sub_spec(self.baseline)
    }

    /// Create an empty frame with the given size.
    pub fn new(size: TermSize) -> (r: TermFrame)
        ensures
            r.is_empty_of(size),
    {
        TermFrame {
            size,
            baseline: TermScalar::zero(),
            items: Vec::new(),
            content_height: TermScalar::zero(),
        }
    }

    /// Create a soft (auto-sized) frame.
    pub fn soft(size: TermSize) -> (r: TermFrame)
        ensures
            r.is_empty_of(size),
    {
        TermFrame::new(size)
    }

    /// Create a `cols × rows` frame holding a single text item at the origin.
    pub fn text(text: String, style: TermStyle, cols: Col, rows: Row) -> (r: TermFrame)
        ensures
            r.size == (TermSize { cols, rows }),
            r.baseline == TermScalar::Finite(0),
            r.content_height == TermScalar::Finite(0),
            r.items@.len() == 1,
            r.items@[0].0 == TermPoint::zero_spec(),
            is_text_item(r.items@[0].1, text@, style),
    {
        let mut f = TermFrame::new(TermSize::new(cols, rows));
        f.push_text(TermPoint::zero(), text, style);
        f
    }

    // ── Accessors ────────────────────────────────────────────────────────

    /// The frame's size.
    pub fn size(&self) -> (r: TermSize)
        ensures
            r == self.size,
    {
        self.size
    }

    /// The width in columns.
    pub fn cols(&self) -> (r: Col)
        ensures
            r == self.size.cols,
    {
        self.size.cols
    }

    /// The height in rows.
    pub fn rows(&self) -> (r: Row)
        ensures
            r == self.size.rows,
    {
        self.size.rows
    }

    /// The width in columns.
    pub fn width(&self) -> (r: Col)
        ensures
            r == self.size.cols,
    {
        self.size.cols
    }

    /// The height in rows.
    pub fn height(&self) -> (r: Row)
        ensures
            r == self.size.rows,
    {
        self.size.rows
    }

    /// The baseline row.
    pub fn baseline(&self) -> (r: Row)
        ensures
            r == self.baseline,
    {
        self.baseline
    }

    /// Rows above the baseline: the baseline itself.
    pub fn ascent(&self) -> (r: Row)
        ensures
            r == self.baseline,
    {
        self.baseline
    }

    /// Rows at or below the baseline.
    pub fn descent(&self) -> (r: Row)
        ensures
            r == self.descent_spec(),
    {
        self.size.rows.sub(self.baseline)
    }

    /// Whether the baseline lies below the top row.
    pub fn has_baseline(&self) -> (r: bool)
        requires
            self.baseline.is_num(),
        ensures
            r == TermScalar::Finite(0).lt_spec(self.baseline),
    {
        self.baseline.gt(TermScalar::zero())
    }

    /// The content height.
    pub fn content_height(&self) -> (r: Row)
        ensures
            r == self.content_height,
    {
        self.content_height
    }

    /// Whether the frame holds no items.
    pub fn is_empty_items(&self) -> (r: bool)
        ensures
            r == (self.items@.len() == 0),
    {
        self.items.len() == 0
    }

    /// The placed items.
    pub fn items(&self) -> (r: &Vec<(TermPoint, TermFrameItem)>)
        ensures
            r == &self.items,
    {
        &self.items
    }

    // ── Mutators ─────────────────────────────────────────────────────────

    /// Set the size.
    pub fn set_size(&mut self, size: TermSize)
        ensures
            *final(self) == (TermFrame { size, ..*old(self) }),
    {
        self.size = size;
    }

    /// Set the width.
    pub fn set_cols(&mut self, cols: Col)
        ensures
            *final(self) == (TermFrame { size: TermSize { cols, rows: old(self).size.rows }, ..*old(self) }),
    {
        self.size.cols = cols;
    }

    /// Set the height.
    pub fn set_rows(&mut self, rows: Row)
        ensures
            *final(self) == (TermFrame { size: TermSize { cols: old(self).size.cols, rows }, ..*old(self) }),
    {
        self.size.rows = rows;
    }

    /// Set the baseline.
    pub fn set_baseline(&mut self, baseline: Row)
        ensures
            *final(self) == (TermFrame { baseline, ..*old(self) }),
    {
        self.baseline = baseline;
    }

    /// Set the content height.
    pub fn set_content_height(&mut self, h: Row)
        ensures
            *final(self) == (TermFrame { content_height: h, ..*old(self) }),
    {
        self.content_height = h;
    }

    /// Clip the frame to a rectangle: clipping does nothing on a terminal.
    pub fn clip(&mut self, rect: TermSize)
        ensures
            *final(self) == *old(self),
    {
    }

    // ── Item push ────────────────────────────────────────────────────────

    /// Push any item at `pos`.
    pub fn push(&mut self, pos: TermPoint, item: TermFrameItem)
        ensures
            final(self).items@ == old(self).items@.push((pos, item)),
            final(self).size == old(self).size,
            final(self).baseline == old(self).baseline,
            final(self).content_height == old(self).content_height,
    {
        self.items.push((pos, item));
    }

    /// Push a text run at `pos`.
    pub fn push_text(&mut self, pos: TermPoint, text: String, style: TermStyle)
        ensures
            final(self).items@.len() == old(self).items@.len() + 1,
            final(self).items@.subrange(0, old(self).items@.len() as int) == old(self).items@,
            final(self).items@.last().0 == pos,
            is_text_item(final(self).items@.last().1, text@, style),
            final(self).size == old(self).size,
            final(self).baseline == old(self).baseline,
            final(self).content_height == old(self).content_height,
    {
        let ghost tv = text@;
        self.items.push((pos, TermFrameItem::Text(text, style)));
        assert(self.items@.subrange(0, old(self).items@.len() as int) =~= old(self).items@);
    }

    /// Push a nested frame at `pos`.
    pub fn push_frame(&mut self, pos: TermPoint, frame: TermFrame)
        ensures
            final(self).items@ == old(self).items@.push((pos, TermFrameItem::Frame(frame))),
            final(self).size == old(self).size,
            final(self).baseline == old(self).baseline,
            final(self).content_height == old(self).content_height,
    {
        self.items.push((pos, TermFrameItem::Frame(frame)));
    }

    /// Push a horizontal rule at `pos`.
    pub fn push_rule(&mut self, pos: TermPoint, ch: char, width: Col, style: TermStyle)
        ensures
            final(self).items@ == old(self).items@.push((pos, (TermFrameItem::Rule { ch, width, style }))),
            final(self).size == old(self).size,
            final(self).baseline == old(self).baseline,
            final(self).content_height == old(self).content_height,
    {
        self.items.push((pos, TermFrameItem::Rule { ch, width, style }));
    }

    /// Push a shape at `pos`.
    pub fn push_shape(&mut self, pos: TermPoint, shape: TermShape)
        ensures
            final(self).items@ == old(self).items@.push((pos, TermFrameItem::Shape(shape))),
            final(self).size == old(self).size,
            final(self).baseline == old(self).baseline,
            final(self).content_height == old(self).content_height,
    {
        self.items.push((pos, TermFrameItem::Shape(shape)));
    }

    /// Push an image placeholder at `pos`.
    pub fn push_image(&mut self, pos: TermPoint, image: TermImage)
        ensures
            final(self).items@ == old(self).items@.push((pos, TermFrameItem::Image(image))),
            final(self).size == old(self).size,
            final(self).baseline == old(self).baseline,
            final(self).content_height == old(self).content_height,
    {
        self.items.push((pos, TermFrameItem::Image(image)));
    }

    /// Push an introspection tag at `pos`.
    pub fn push_tag(&mut self, pos: TermPoint, tag: u64)
        ensures
            final(self).items@ == old(self).items@.push((pos, TermFrameItem::Tag(tag))),
            final(self).size == old(self).size,
            final(self).baseline == old(self).baseline,
            final(self).content_height == old(self).content_height,
    {
        self.items.push((pos, TermFrameItem::Tag(tag)));
    }

    /// Put an item in front of all others.
    pub fn prepend(&mut self, pos: TermPoint, item: TermFrameItem)
        ensures
            final(self).items@ == seq![(pos, item)] + old(self).items@,
            final(self).size == old(self).size,
            final(self).baseline == old(self).baseline,
            final(self).content_height == old(self).content_height,
    {
        self.items.insert(0, (pos, item));
        assert(self.items@ =~= seq![(pos, item)] + old(self).items@);
    }

    /// Push several items after all others, in order.
    pub fn push_multiple(&mut self, items: Vec<(TermPoint, TermFrameItem)>)
        ensures
            final(self).items@ == old(self).items@ + items@,
            final(self).size == old(self).size,
            final(self).baseline == old(self).baseline,
            final(self).content_height == old(self).content_height,
    {
        let mut items = items;
        self.items.append(&mut items);
    }

    /// Put several items in front of all others, in order.
    pub fn prepend_multiple(&mut self, items: Vec<(TermPoint, TermFrameItem)>)
        ensures
            final(self).items@ == items@ + old(self).items@,
            final(self).size == old(self).size,
            final(self).baseline == old(self).baseline,
            final(self).content_height == old(self).content_height,
    {
        let mut new = items;
        let mut old_items = Vec::new();
        std::mem::swap(&mut old_items, &mut self.items);
        new.append(&mut old_items);
        self.items = new;
    }

    // ── Translate / resize ───────────────────────────────────────────────

    /// Shift every item by `delta`.
    pub fn translate(&mut self, delta: TermPoint)
        ensures
            final(self).size == old(self).size,
            final(self).baseline == old(self).baseline,
            final(self).content_height == old(self).content_height,
            final(self).items@.len() == old(self).items@.len(),
            forall|i: int|
                0 <= i < old(self).items@.len() ==> (#[trigger] final(self).items@[i]).0 == (if delta
                    == TermPoint::zero_spec() {
                    old(self).items@[i].0
                } else {
                    old(self).items@[i].0.add_spec(delta)
                }) && final(self).items@[i].1 == old(self).items@[i].1,
    {
        if delta == TermPoint::zero() {
            return;
        }
        let n = self.items.len();
        let mut items = Vec::new();
        std::mem::swap(&mut items, &mut self.items);
        let ghost orig = items@;
        let mut out: Vec<(TermPoint, TermFrameItem)> = Vec::new();
        let mut rest: Vec<(TermPoint, TermFrameItem)> = Vec::new();
        while items.len() > 0
            invariant
                items@.len() + rest@.len() == orig.len(),
                items@ == orig.subrange(0, items@.len() as int),
                forall|k: int| 0 <= k < rest@.len() ==> #[trigger] rest@[k] == orig[orig.len() - 1 - k],
            decreases items@.len(),
        {
            let it = items.pop().unwrap();
            rest.push(it);
        }
        while rest.len() > 0
            invariant
                out@.len() + rest@.len() == orig.len(),
                forall|k: int| 0 <= k < rest@.len() ==> #[trigger] rest@[k] == orig[orig.len() - 1 - k],
                forall|k: int|
                    0 <= k < out@.len() ==> (#[trigger] out@[k]).0 == orig[k].0.add_spec(delta)
                        && out@[k].1 == orig[k].1,
            decreases rest@.len(),
        {
            let (pos, item) = rest.pop().unwrap();
            out.push((pos.add(delta), item));
        }
        self.items = out;
    }

    /// Resize to `target`, shifting the content by the offset that aligns
    /// the old size within the new one on each axis.
    pub fn resize(&mut self, target: TermSize, align: Axes<Alignment>)
        ensures
            final(self).size == target,
            final(self).baseline == old(self).baseline,
            final(self).content_height == old(self).content_height,
            final(self).items@.len() == old(self).items@.len(),
            forall|i: int|
                0 <= i < old(self).items@.len() ==> {
                    let d = TermPoint {
                        col: align_offset(align.x, target.cols, old(self).size.cols),
                        row: align_offset(align.y, target.rows, old(self).size.rows),
                    };
                    (#[trigger] final(self).items@[i]).0 == (if d == TermPoint::zero_spec() {
                        old(self).items@[i].0
                    } else {
                        old(self).items@[i].0.add_spec(d)
                    }) && final(self).items@[i].1 == old(self).items@[i].1
                },
    {
        let dx = align_x(align.x, target.cols, self.size.cols);
        let dy = align_y(align.y, target.rows, self.size.rows);
        self.translate(TermPoint::new(dx, dy));
        self.size = target;
    }

    // ── Lines ────────────────────────────────────────────────────────────

    /// Draw a horizontal line of `ch` over `width` columns.
    pub fn hline(&mut self, pos: TermPoint, width: Col, ch: char, style: TermStyle)
        ensures
            final(self).items@ == old(self).items@.push((pos, (TermFrameItem::Rule { ch, width, style }))),
            final(self).size == old(self).size,
            final(self).baseline == old(self).baseline,
            final(self).content_height == old(self).content_height,
    {
        self.push_rule(pos, ch, width, style);
    }

    /// Draw a vertical line: one `ch` text item in each of `height` rows
    /// from `pos` down.
    pub fn vline(&mut self, pos: TermPoint, height: Row, ch: char, style: TermStyle)
        ensures
            final(self).size == old(self).size,
            final(self).baseline == old(self).baseline,
            final(self).content_height == old(self).content_height,
            ({
                let h = height.max_spec(TermScalar::Finite(0)).get_spec() as int;
                let n = old(self).items@.len();
                &&& final(self).items@.len() == n + (if h > 0 { h } else { 0 })
                &&& final(self).items@.subrange(0, n as int) == old(self).items@
                &&& forall|i: int|
                    0 <= i < h ==> {
                        &&& (#[trigger] final(self).items@[n + i]).0 == TermPoint {
                            col: pos.col,
                            row: pos.row.add_spec(TermScalar::Finite(i as i64)),
                        }
                        &&& is_text_item(final(self).items@[n + i].1, seq![ch], style)
                    }
            }),
    {
        let h = height.max(TermScalar::zero()).get();
        let ghost n = self.items@.len();
        let mut i: i32 = 0;
        while i < h
            invariant
                0 <= i,
                i <= h || i == 0,
                self.size == old(self).size,
                self.baseline == old(self).baseline,
                self.content_height == old(self).content_height,
                self.items@.len() == n + i,
                self.items@.subrange(0, n as int) == old(self).items@,
                forall|k: int|
                    0 <= k < i ==> {
                        &&& (#[trigger] self.items@[n + k]).0 == TermPoint {
                            col: pos.col,
                            row: pos.row.add_spec(TermScalar::Finite(k as i64)),
                        }
                        &&& is_text_item(self.items@[n + k].1, seq![ch], style)
                    },
            decreases h - i,
        {
            let mut s = String::new();
            push_char(&mut s, ch);
            let ghost before = self.items@;
            self.push_text(TermPoint::new(pos.col, pos.row.add(TermScalar::new(i))), s, style);
            assert(self.items@.subrange(0, n as int) =~= before.subrange(0, n as int));
            assert forall|k: int| 0 <= k < i implies #[trigger] self.items@[n + k] == before[n + k] by {
                assert(self.items@.subrange(0, before.len() as int)[n + k] == before[n + k]);
            }
            i = i + 1;
        }
    }
}

// ── Rasterise ────────────────────────────────────────────────────────────

/// The cells after drawing a frame at `offset`: its items in order, text
/// runs written at their position plus the offset, nested frames drawn at
/// their position plus the offset; other items draw nothing.
pub open spec fn render_frame(
    cells: Seq<TermCell>,
    cols: TermScalar,
    rows: TermScalar,
    f: TermFrame,
    offset: TermPoint,
) -> Seq<TermCell>
    decreases f, 1nat,
{
    render_items(cells, cols, rows, f.items@, offset)
}

/// The cells after drawing a sequence of placed items at `offset`.
pub open spec fn render_items(
    cells: Seq<TermCell>,
    cols: TermScalar,
    rows: TermScalar,
    items: Seq<(TermPoint, TermFrameItem)>,
    offset: TermPoint,
) -> Seq<TermCell>
    decreases items, 0nat,
{
    if items.len() == 0 {
        cells
    } else {
        let prev = render_items(cells, cols, rows, items.drop_last(), offset);
        let p = items.last().0.add_spec(offset);
        match items.last().1 {
            TermFrameItem::Text(t, style) => put_text_cells(prev, cols, rows, p.col, p.row, t@, style),
            TermFrameItem::Frame(sub) => render_frame(prev, cols, rows, sub, p),
            _ => prev,
        }
    }
}

/// Whether a frame can be drawn at `offset`: every text run and nested
/// frame lands at a position whose coordinates are numbers.
pub open spec fn render_ok(f: TermFrame, offset: TermPoint) -> bool
    decreases f, 1nat,
{
    render_ok_items(f.items@, offset)
}

/// Whether a sequence of placed items can be drawn at `offset`.
pub open spec fn render_ok_items(items: Seq<(TermPoint, TermFrameItem)>, offset: TermPoint) -> bool
    decreases items, 0nat,
{
    if items.len() == 0 {
        true
    } else {
        let p = items.last().0.add_spec(offset);
        &&& render_ok_items(items.drop_last(), offset)
        &&& match items.last().1 {
            TermFrameItem::Text(t, style) => p.col.is_num() && p.row.is_num(),
            TermFrameItem::Frame(sub) => p.col.is_num() && p.row.is_num() && render_ok(sub, p),
            _ => true,
        }
    }
}

/// Whether a frame's size allows rasterising it into a grid.
pub open spec fn grid_size_ok(size: TermSize) -> bool {
    &&& size.cols.is_fin()
    &&& size.rows.is_fin()
    &&& size.cols.val() <= i32::MAX
    &&& size.rows.val() <= i32::MAX
    &&& extent(size.cols) * extent(size.rows) <= i32::MAX
}

impl TermFrame {
    /// Render the frame into a fresh blank grid of its size.
    pub fn render(&self) -> (r: TermGrid)
        requires
            grid_size_ok(self.size),
            render_ok(*self, TermPoint::zero_spec()),
        ensures
            r.wf(),
            r.cols == self.size.cols,
            r.rows == self.size.rows,
            r.cells@ == render_frame(
                Seq::new(
                    (extent(self.size.cols) * extent(self.size.rows)) as nat,
                    |i: int| TermCell::blank_spec(),
                ),
                self.size.cols,
                self.size.rows,
                *self,
                TermPoint::zero_spec(),
            ),
    {
        let mut grid = TermGrid::blank(self.size.cols, self.size.rows);
        self.render_into(&mut grid, TermPoint::zero());
        grid
    }

    /// Render into an existing grid at `offset`.
    pub fn render_into(&self, grid: &mut TermGrid, offset: TermPoint)
        requires
            old(grid).wf(),
            render_ok(*self, offset),
        ensures
            final(grid).wf(),
            final(grid).cols == old(grid).cols,
            final(grid).rows == old(grid).rows,
            final(grid).cells@ == render_frame(old(grid).cells@, old(grid).cols, old(grid).rows, *self, offset),
        decreases *self,
    {
        let ghost cells0 = grid.cells@;
        let mut i: usize = 0;
        while i < self.items.len()
            invariant
                grid.wf(),
                grid.cols == old(grid).cols,
                grid.rows == old(grid).rows,
                i <= self.items@.len(),
                render_ok_items(self.items@, offset),
                render_ok(*self, offset),
                grid.cells@ == render_items(cells0, grid.cols, grid.rows, self.items@.subrange(0, i as int), offset),
            decreases self.items@.len() - i,
        {
            let ghost sub = self.items@.subrange(0, i + 1);
            proof {
                assert(sub.drop_last() =~= self.items@.subrange(0, i as int));
                assert(sub.last() == self.items@[i as int]);
                lemma_render_ok_prefix(self.items@, i as int + 1, offset);
            }
            let (pos, item) = (&self.items[i].0, &self.items[i].1);
            let p = pos.add(offset);
            match item {
                TermFrameItem::Text(t, style) => {
                    grid.put_text(p.col, p.row, t.as_str(), *style);
                },
                TermFrameItem::Frame(f) => {
                    proof {
                        assert(decreases_to!(*self => self.items));
                        assert(decreases_to!(self.items => self.items@));
                        assert(decreases_to!(self.items@ => self.items@[i as int]));
                    }
                    f.render_into(grid, p);
                },
                _ => {},
            }
            i = i + 1;
        }
        proof {
            assert(self.items@.subrange(0, self.items@.len() as int) =~= self.items@);
        }
    }
}

/// Drawability of a sequence of items carries over to its prefixes.
proof fn lemma_render_ok_prefix(items: Seq<(TermPoint, TermFrameItem)>, n: int, offset: TermPoint)
    requires
        render_ok_items(items, offset),
        0 <= n <= items.len(),
    ensures
        render_ok_items(items.subrange(0, n), offset),
    decreases items.len() - n,
{
    if n < items.len() {
        lemma_render_ok_prefix(items, n + 1, offset);
        let s = items.subrange(0, n + 1);
        assert(s.drop_last() =~= items.subrange(0, n));
    } else {
        assert(items.subrange(0, n) =~= items);
    }
}


// ── Copies ───────────────────────────────────────────────────────────────

/// Whether two shapes are the same.
pub open spec fn same_shape(a: TermShape, b: TermShape) -> bool {
    &&& match (a.geometry, b.geometry) {
        (TermGeometry::Path { points: p, closed: c }, TermGeometry::Path { points: q, closed: d }) => p@
            == q@ && c == d,
        (TermGeometry::Path { .. }, _) => false,
        (_, TermGeometry::Path { .. }) => false,
        (x, y) => x == y,
    }
    &&& a.fill == b.fill
    &&& a.stroke_char == b.stroke_char
    &&& a.style == b.style
    &&& a.span == b.span
}

/// Whether two items are the same: equal but for where their strings,
/// vectors and nested frames are held.
pub open spec fn same_item(a: TermFrameItem, b: TermFrameItem) -> bool
    decreases a,
{
    match a {
        TermFrameItem::Text(s, st) => b matches TermFrameItem::Text(t, su) && s@ == t@ && st == su,
        TermFrameItem::Frame(f) => b matches TermFrameItem::Frame(g) && same_frame(f, g),
        TermFrameItem::Rule { .. } => a == b,
        TermFrameItem::Shape(x) => b matches TermFrameItem::Shape(y) && same_shape(x, y),
        TermFrameItem::Image(x) => b matches TermFrameItem::Image(y) && x.width == y.width && x.height
            == y.height && x.alt@ == y.alt@,
        TermFrameItem::Tag(_) => a == b,
    }
}

/// Whether two sequences of placed items are the same, item by item.
pub open spec fn same_items(a: Seq<(TermPoint, TermFrameItem)>, b: Seq<(TermPoint, TermFrameItem)>) -> bool
    decreases a,
{
    &&& a.len() == b.len()
    &&& a.len() > 0 ==> {
        &&& same_items(a.drop_last(), b.drop_last())
        &&& a.last().0 == b.last().0
        &&& same_item(a.last().1, b.last().1)
    }
}

/// Whether two frames are the same: same size, baseline, content height and
/// items.
pub open spec fn same_frame(a: TermFrame, b: TermFrame) -> bool
    decreases a,
{
    &&& a.size == b.size
    &&& a.baseline == b.baseline
    &&& a.content_height == b.content_height
    &&& same_items(a.items@, b.items@)
}


/// A copy of a list of points.
fn copy_points(v: &Vec<TermPoint>) -> (r: Vec<TermPoint>)
    ensures
        r@ == v@,
{
    let mut out: Vec<TermPoint> = Vec::new();
    let mut i: usize = 0;
    while i < v.len()
        invariant
            i <= v@.len(),
            out@ == v@.take(i as int),
        decreases v@.len() - i,
    {
        out.push(v[i]);
        i = i + 1;
        assert(out@ =~= v@.take(i as int));
    }
    assert(v@.take(v@.len() as int) =~= v@);
    out
}

impl TermShape {
    /// A copy of the shape.
    pub fn copy(&self) -> (r: TermShape)
        ensures
            same_shape(*self, r),
    {
        let geometry = match &self.geometry {
            TermGeometry::Line { delta } => TermGeometry::Line { delta: *delta },
            TermGeometry::Rect { size } => TermGeometry::Rect { size: *size },
            TermGeometry::Ellipse { size } => TermGeometry::Ellipse { size: *size },
            TermGeometry::Path { points, closed } => TermGeometry::Path {
                points: copy_points(points),
                closed: *closed,
            },
        };
        TermShape {
            geometry,
            fill: self.fill,
            stroke_char: self.stroke_char,
            style: self.style,
            span: self.span,
        }
    }
}

impl TermFrameItem {
    /// A copy of the item.
    pub fn copy(&self) -> (r: TermFrameItem)
        ensures
            same_item(*self, r),
        decreases *self,
    {
        match self {
            TermFrameItem::Text(s, st) => TermFrameItem::Text(s.clone(), *st),
            TermFrameItem::Frame(f) => TermFrameItem::Frame(f.copy()),
            TermFrameItem::Rule { ch, width, style } => TermFrameItem::Rule {
                ch: *ch,
                width: *width,
                style: *style,
            },
            TermFrameItem::Shape(x) => TermFrameItem::Shape(x.copy()),
            TermFrameItem::Image(x) => TermFrameItem::Image(
                TermImage { width: x.width, height: x.height, alt: x.alt.clone() },
            ),
            TermFrameItem::Tag(k) => TermFrameItem::Tag(*k),
        }
    }
}

impl TermFrame {
    /// A copy of the frame.
    pub fn copy(&self) -> (r: TermFrame)
        ensures
            same_frame(*self, r),
        decreases *self,
    {
        let mut items: Vec<(TermPoint, TermFrameItem)> = Vec::new();
        let mut i: usize = 0;
        while i < self.items.len()
            invariant
                i <= self.items@.len(),
                items@.len() == i,
                same_items(self.items@.take(i as int), items@),
            decreases self.items@.len() - i,
        {
            proof {
                assert(decreases_to!(self.items => self.items[i as int]));
            }
            let item = self.items[i].1.copy();
            let ghost before = items@;
            items.push((self.items[i].0, item));
            i = i + 1;
            proof {
                assert(self.items@.take(i as int).drop_last() =~= self.items@.take(i - 1));
                assert(items@.drop_last() =~= before);
            }
        }
        assert(self.items@.take(self.items@.len() as int) =~= self.items@);
        TermFrame {
            size: self.size,
            baseline: self.baseline,
            items,
            content_height: self.content_height,
        }
    }
}


// ── Fragments ────────────────────────────────────────────────────────────

/// A sequence of frames, one per region.
pub type TermFragment = Vec<TermFrame>;

/// The frames of a fragment.
pub fn fragment_into_frames(fragment: TermFragment) -> (r: Vec<TermFrame>)
    ensures
        r@ == fragment@,
{
    fragment
}

/// The fragment of a single frame.
pub fn fragment_from_frame(frame: TermFrame) -> (r: TermFragment)
    ensures
        r@ == seq![frame],
{
    let mut v: Vec<TermFrame> = Vec::new();
    v.push(frame);
    assert(v@ =~= seq![frame]);
    v
}

/// The fragment of frames.
pub fn fragment_from_frames(frames: Vec<TermFrame>) -> (r: TermFragment)
    ensures
        r@ == frames@,
{
    frames
}

} // verus!
