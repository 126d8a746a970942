//! Distributing prepared flow items into regions, one frame per region.
//!
//! The distributor goes through the items one by one and tracks the rows
//! used in the current region.  When spacing or a frame does not fit and a
//! later region may give more room, the current region is finished and the
//! next one begins.  A finished region stacks its frames top to bottom with
//! one blank row between each two, and places its tags at the rows where
//! they were met.  Weak spacing at the end of a region is trimmed.

use vstd::prelude::*;
use crate::frame::{TermFrame, TermFrameItem};
use crate::geom::{Alignment, Axes, Col, Row, TermPoint, TermSize, align_offset, align_x};
use crate::math::run::{frame_heights, frame_widths, offsets};
use crate::regions::TermRegions;
use crate::scalar::{TermScalar, seq_max};

verus! {

/// An item to be placed into a region.
pub enum Item {
    /// An introspection tag, identified by its key.
    Tag(u64),
    /// Absolute vertical spacing, and whether it is weak.
    Abs(Row, bool),
    /// Fractional spacing; it takes no rows in a terminal.
    Fr,
    /// A laid-out frame.
    Frame {
        /// The frame.
        frame: TermFrame,
        /// Horizontal alignment within the region.
        align_x: Alignment,
        /// Rows that must be free before the frame is placed (orphan and
        /// widow protection); at least the frame's own rows.
        need: Row,
    },
    /// An absolutely placed frame; it takes no room in the flow.
    Placed {
        /// The frame.
        frame: TermFrame,
        /// Horizontal alignment, if any.
        align_x: Option<Alignment>,
        /// Vertical alignment, if any.
        align_y: Option<Alignment>,
        /// Offset from the aligned position.
        delta: (Col, Row),
    },
    /// A flush event.
    Flush,
    /// A region break, and whether it is strong.
    Break(bool),
}

impl Item {
    /// Whether this item can be migrated to the next region: spacing and
    /// tags can.
    pub fn migratable(&self) -> (r: bool)
        ensures
            r == (self is Abs || self is Tag),
    {
        match self {
            Item::Abs(..) => true,
            Item::Tag(_) => true,
            _ => false,
        }
    }
}

/// The configuration of a flow: its width, and whether it expands.
#[derive(Clone, Copy, PartialEq, Eq, Structural, Debug)]
pub struct FlowConfig {
    /// Available width in columns.
    pub width: Col,
    /// Whether the region expands on each axis.
    pub expand: Axes<bool>,
}

// ── Model ────────────────────────────────────────────────────────────────

/// The heights that regions hold: the current one, the ones after it, and
/// the one that repeats after those.
pub struct RegionHeights {
    /// Height of the current region.
    pub rows: Row,
    /// Heights of the regions after the current one.
    pub backlog: Seq<Row>,
    /// Height of a region that repeats after the backlog.
    pub last: Option<Row>,
}

/// The heights of `rs`.
pub open spec fn heights_of(rs: &TermRegions) -> RegionHeights {
    RegionHeights { rows: rs.size.rows, backlog: rs.backlog@, last: rs.last }
}

/// Whether moving to the next region may give more room.
pub open spec fn may_progress(r: RegionHeights) -> bool {
    r.backlog.len() > 0 || (r.last matches Some(h) && r.rows != h)
}

/// Whether a region break is permitted.
pub open spec fn may_break(r: RegionHeights) -> bool {
    r.backlog.len() > 0 || r.last is Some
}

/// The heights after moving to the next region.
pub open spec fn next_heights(r: RegionHeights) -> RegionHeights {
    if r.backlog.len() > 0 {
        RegionHeights { rows: r.backlog[0], backlog: r.backlog.drop_first(), last: r.last }
    } else {
        match r.last {
            Some(h) => RegionHeights { rows: h, backlog: r.backlog, last: r.last },
            None => r,
        }
    }
}

/// What a finished region holds: its frames with their alignments, and its
/// tags with the rows where they were met.
pub struct RegionContent {
    /// The frames, in order, with their horizontal alignments.
    pub frames: Seq<(TermFrame, Alignment)>,
    /// The tags, in order, with their rows.
    pub tags: Seq<(u64, Row)>,
}

/// The state of a distribution between two items.
pub struct DistState {
    /// The heights of the regions, starting at the current one.
    pub regions: RegionHeights,
    /// The regions finished so far.
    pub finished: Seq<RegionContent>,
    /// The frames placed in the current region.
    pub pending: Seq<(TermFrame, Alignment)>,
    /// The tags met in the current region.
    pub tags: Seq<(u64, Row)>,
    /// Rows used in the current region.
    pub y: Row,
    /// Weak spacing added since the last frame or strong spacing.
    pub weak: Row,
}

/// The state before the first item.
pub open spec fn initial(r: RegionHeights) -> DistState {
    DistState {
        regions: r,
        finished: Seq::empty(),
        pending: Seq::empty(),
        tags: Seq::empty(),
        y: TermScalar::Finite(0),
        weak: TermScalar::Finite(0),
    }
}

/// Trailing weak spacing removed: when it is positive, the rows used lose
/// it (never going below zero) and it is reset.
pub open spec fn trimmed(s: DistState) -> DistState {
    if TermScalar::Finite(0).lt_spec(s.weak) {
        DistState {
            y: s.y.sub_spec(s.weak).max_spec(TermScalar::Finite(0)),
            weak: TermScalar::Finite(0),
            ..s
        }
    } else {
        s
    }
}

/// The current region finished: trailing weak spacing trimmed, and the
/// region's frames and tags, if it has any, moved to the finished regions.
pub open spec fn finished(s: DistState) -> DistState {
    let t = trimmed(s);
    if t.pending.len() == 0 && t.tags.len() == 0 {
        t
    } else {
        DistState {
            finished: t.finished.push(RegionContent { frames: t.pending, tags: t.tags }),
            pending: Seq::empty(),
            tags: Seq::empty(),
            ..t
        }
    }
}

/// The current region finished and the next one begun, with nothing used.
pub open spec fn advanced(s: DistState) -> DistState {
    let f = finished(s);
    DistState { regions: next_heights(f.regions), y: TermScalar::Finite(0), ..f }
}

/// Spacing of `amount` rows: when it overflows the region and a later
/// region may give more room, the region is finished first.
pub open spec fn abs_step(s: DistState, amount: Row, weak: bool) -> DistState {
    let s1 = if s.regions.rows.lt_spec(s.y.add_spec(amount)) && may_progress(s.regions) {
        DistState { weak: TermScalar::Finite(0), ..advanced(s) }
    } else {
        s
    };
    DistState {
        y: s1.y.add_spec(amount),
        weak: if weak { s1.weak.add_spec(amount) } else { TermScalar::Finite(0) },
        ..s1
    }
}

/// A frame: when what it needs overflows a region that already holds a
/// frame and a later region may give more room, the region is finished
/// first.  The frame's rows are then used.
pub open spec fn frame_step(s: DistState, frame: TermFrame, align: Alignment, need: Row) -> DistState {
    let s1 = if s.regions.rows.lt_spec(s.y.add_spec(need)) && s.pending.len() > 0 && may_progress(
        s.regions,
    ) {
        advanced(s)
    } else {
        s
    };
    DistState {
        pending: s1.pending.push((frame, align)),
        y: s1.y.add_spec(frame.size.rows),
        weak: TermScalar::Finite(0),
        ..s1
    }
}

/// A break: a strong one where a break is permitted finishes the region.
pub open spec fn break_step(s: DistState, strong: bool) -> DistState {
    if strong && may_break(s.regions) {
        advanced(s)
    } else {
        s
    }
}

/// The state after one item.
pub open spec fn step(s: DistState, item: Item) -> DistState {
    match item {
        Item::Tag(t) => DistState { tags: s.tags.push((t, s.y)), ..s },
        Item::Abs(amount, weak) => abs_step(s, amount, weak),
        Item::Fr => trimmed(s),
        Item::Frame { frame, align_x, need } => frame_step(s, frame, align_x, need),
        Item::Break(strong) => break_step(s, strong),
        _ => s,
    }
}

/// The state after the items, one after the other.
pub open spec fn run(s: DistState, items: Seq<Item>) -> DistState
    decreases items.len(),
{
    if items.len() == 0 {
        s
    } else {
        step(run(s, items.drop_last()), items.last())
    }
}

/// The finished regions of a whole distribution.
pub open spec fn distribution(items: Seq<Item>, r: RegionHeights) -> Seq<RegionContent> {
    finished(run(initial(r), items)).finished
}

// ── Where the comparisons are defined ────────────────────────────────────

/// The frames of placed pairs.
pub open spec fn frames_of_pairs(p: Seq<(TermFrame, Alignment)>) -> Seq<TermFrame> {
    p.map_values(|x: (TermFrame, Alignment)| x.0)
}

/// The width of a finished region: the flow's width when the flow expands
/// horizontally and the width is finite, else the widest frame (zero for
/// none).
pub open spec fn region_width(frames: Seq<(TermFrame, Alignment)>, cfg: FlowConfig) -> Col {
    if cfg.expand.x && cfg.width.is_fin() {
        cfg.width
    } else if frames.len() == 0 {
        TermScalar::Finite(0)
    } else {
        seq_max(frame_widths(frames_of_pairs(frames)))
    }
}

/// Whether the widest frame can be found: widths are compared only when
/// the flow does not give the width and there are two frames or more.
pub open spec fn widths_ok(frames: Seq<(TermFrame, Alignment)>, cfg: FlowConfig) -> bool {
    (cfg.expand.x && cfg.width.is_fin()) || frames.len() <= 1 || forall|i: int|
        0 <= i < frames.len() ==> (#[trigger] frames[i]).0.size.cols.is_num()
}

/// Whether finishing the region compares only numbers.
pub open spec fn finish_ok(s: DistState, cfg: FlowConfig) -> bool {
    &&& s.weak.is_num()
    &&& widths_ok(s.pending, cfg)
}

/// Whether the item's step compares only numbers.
pub open spec fn step_ok(s: DistState, item: Item, cfg: FlowConfig) -> bool {
    match item {
        Item::Abs(amount, _) => {
            &&& s.y.add_spec(amount).is_num()
            &&& s.regions.rows.is_num()
            &&& (s.regions.rows.lt_spec(s.y.add_spec(amount)) && may_progress(s.regions))
                ==> finish_ok(s, cfg)
        },
        Item::Fr => s.weak.is_num(),
        Item::Frame { need, .. } => {
            &&& s.y.add_spec(need).is_num()
            &&& s.regions.rows.is_num()
            &&& (s.regions.rows.lt_spec(s.y.add_spec(need)) && s.pending.len() > 0 && may_progress(
                s.regions,
            )) ==> finish_ok(s, cfg)
        },
        Item::Break(strong) => (strong && may_break(s.regions)) ==> finish_ok(s, cfg),
        _ => true,
    }
}

/// Whether every step of the items compares only numbers.
pub open spec fn run_ok(s: DistState, items: Seq<Item>, cfg: FlowConfig) -> bool
    decreases items.len(),
{
    items.len() == 0 || (run_ok(s, items.drop_last(), cfg) && step_ok(
        run(s, items.drop_last()),
        items.last(),
        cfg,
    ))
}

/// Whether a whole distribution compares only numbers.
pub open spec fn distribution_ok(items: Seq<Item>, r: RegionHeights, cfg: FlowConfig) -> bool {
    run_ok(initial(r), items, cfg) && finish_ok(run(initial(r), items), cfg)
}

// ── Finished regions as frames ───────────────────────────────────────────

/// Whether `r` is the frame of a finished region: its frames stacked top
/// to bottom, each given at least one row, with one blank row between each
/// two, aligned horizontally within the region's width; then its tags at
/// column zero and their rows.  The frame is as tall as its frames and the
/// rows between them (zero with no frames).
pub open spec fn is_region_frame(r: TermFrame, c: RegionContent, cfg: FlowConfig) -> bool {
    let fs = frames_of_pairs(c.frames);
    let hs = frame_heights(fs);
    let w = region_width(c.frames, cfg);
    let n = c.frames.len();
    let one = TermScalar::Finite(1);
    &&& r.size.cols == w
    &&& r.size.rows == (if n == 0 {
        TermScalar::Finite(0)
    } else {
        offsets(hs, one, n - 1).add_spec(hs[n - 1])
    })
    &&& r.baseline == TermScalar::Finite(0)
    &&& r.content_height == TermScalar::Finite(0)
    &&& r.items@.len() == n + c.tags.len()
    &&& forall|i: int|
        0 <= i < n ==> #[trigger] r.items@[i] == (
            TermPoint { col: align_offset(c.frames[i].1, w, fs[i].size.cols), row: offsets(hs, one, i) },
            TermFrameItem::Frame(fs[i]),
        )
    &&& forall|j: int|
        0 <= j < c.tags.len() ==> #[trigger] r.items@[n + j] == (
            TermPoint { col: TermScalar::Finite(0), row: c.tags[j].1 },
            TermFrameItem::Tag(c.tags[j].0),
        )
}

/// The widest of the placed frames.
fn widest_placed(frames: &Vec<(TermFrame, Alignment)>) -> (r: Col)
    requires
        frames@.len() > 0,
    ensures
        r == seq_max(frame_widths(frames_of_pairs(frames@))),
{
    let ghost s = frame_widths(frames_of_pairs(frames@));
    let mut m = frames[0].0.cols();
    let mut i: usize = 1;
    assert(s.subrange(0, 1).drop_last() =~= Seq::<TermScalar>::empty());
    while i < frames.len()
        invariant
            1 <= i <= frames@.len(),
            s == frame_widths(frames_of_pairs(frames@)),
            m == seq_max(s.subrange(0, i as int)),
        decreases frames@.len() - i,
    {
        proof {
            assert(s.subrange(0, i + 1).drop_last() =~= s.subrange(0, i as int));
        }
        m = m.max(frames[i].0.cols());
        i = i + 1;
    }
    assert(s.subrange(0, s.len() as int) =~= s);
    m
}

/// Build the frame of a finished region (see [`is_region_frame`]).
fn compose_region(
    frames: Vec<(TermFrame, Alignment)>,
    tags: Vec<(u64, Row)>,
    cfg: FlowConfig,
) -> (r: TermFrame)
    ensures
        is_region_frame(r, RegionContent { frames: frames@, tags: tags@ }, cfg),
{
    let ghost c = RegionContent { frames: frames@, tags: tags@ };
    let ghost fs = frames_of_pairs(frames@);
    let ghost hs = frame_heights(fs);
    let one = TermScalar::one();
    let n = frames.len();
    let width = if cfg.expand.x && cfg.width.is_finite() {
        cfg.width
    } else if n == 0 {
        TermScalar::zero()
    } else {
        widest_placed(&frames)
    };
    assert(width == region_width(frames@, cfg));
    let mut result = TermFrame::new(TermSize::new(width, TermScalar::zero()));
    if n > 0 {
        let mut y = TermScalar::zero();
        let mut idx: usize = 0;
        for pair in it: frames.into_iter()
            invariant
                it.seq() == c.frames,
                fs == frames_of_pairs(c.frames),
                hs == frame_heights(fs),
                n == c.frames.len(),
                n > 0,
                idx == it.index(),
                one == TermScalar::Finite(1),
                width == region_width(c.frames, cfg),
                it.index() < n ==> y == offsets(hs, one, it.index() as int),
                it.index() == n ==> y == offsets(hs, one, n - 1).add_spec(hs[n - 1]),
                result.items@.len() == it.index(),
                forall|j: int|
                    0 <= j < it.index() ==> #[trigger] result.items@[j] == (
                        TermPoint {
                            col: align_offset(c.frames[j].1, width, fs[j].size.cols),
                            row: offsets(hs, one, j),
                        },
                        TermFrameItem::Frame(fs[j]),
                    ),
                result.size == (TermSize { cols: width, rows: TermScalar::Finite(0) }),
                result.baseline == TermScalar::Finite(0),
                result.content_height == TermScalar::Finite(0),
        {
            let (frame, align) = pair;
            let h = frame.rows().max(one);
            let x = align_x(align, width, frame.cols());
            result.push_frame(TermPoint::new(x, y), frame);
            y = y.add(h);
            if idx + 1 < n {
                y = y.add(one);
            }
            idx = idx + 1;
        }
        result.set_rows(y);
    }
    let ghost before = result.items@;
    for tag in jt: tags.into_iter()
        invariant
            jt.seq() == c.tags,
            n == c.frames.len(),
            result.items@.len() == n + jt.index(),
            result.items@.subrange(0, n as int) == before.subrange(0, n as int),
            before.len() == n,
            forall|j: int|
                0 <= j < jt.index() ==> #[trigger] result.items@[n + j] == (
                    TermPoint { col: TermScalar::Finite(0), row: c.tags[j].1 },
                    TermFrameItem::Tag(c.tags[j].0),
                ),
            result.size == (TermSize {
                cols: width,
                rows: if n == 0 {
                    TermScalar::Finite(0)
                } else {
                    offsets(hs, one, n - 1).add_spec(hs[n - 1])
                },
            }),
            result.baseline == TermScalar::Finite(0),
            result.content_height == TermScalar::Finite(0),
    {
        let ghost prev = result.items@;
        result.push_tag(TermPoint::new(TermScalar::zero(), tag.1), tag.0);
        proof {
            assert(result.items@.subrange(0, n as int) =~= prev.subrange(0, n as int));
        }
    }
    proof {
        assert forall|i: int| 0 <= i < n implies #[trigger] result.items@[i] == before[i] by {
            assert(result.items@.subrange(0, n as int)[i] == before.subrange(0, n as int)[i]);
        }
    }
    result
}

// ── The distributor ──────────────────────────────────────────────────────

/// The distribution state saved when a region is about to be finished,
/// for rolling back a sticky block.
struct DistributionSnapshot {
    /// Number of pending frames when the snapshot was taken.
    pending_frames_len: usize,
    /// Rows used when the snapshot was taken.
    current_y: Row,
    /// Trailing weak spacing when the snapshot was taken.
    trailing_weak: Row,
}

/// Distributes items into regions.
struct Distributor {
    /// The flow's configuration.
    cfg: FlowConfig,
    /// The regions, starting at the current one.
    regions: TermRegions,
    /// The frames of the finished regions.
    finished: Vec<TermFrame>,
    /// What the finished regions hold.
    done: Ghost<Seq<RegionContent>>,
    /// Frames placed in the current region, with their alignments.
    pending_frames: Vec<(TermFrame, Alignment)>,
    /// Frames rolled back from the previous region by a sticky block, to
    /// be placed first in the next region.
    rollback_frames: Vec<(TermFrame, Alignment)>,
    /// Tags met in the current region, with their rows.
    pending_tags: Vec<(u64, Row)>,
    /// Snapshot for rolling back a sticky block.
    sticky: Option<DistributionSnapshot>,
    /// Rows used in the current region.
    current_y: Row,
    /// Weak spacing added since the last frame or strong spacing.
    trailing_weak: Row,
}

/// A copy of the regions.
fn copy_regions(rs: &TermRegions) -> (c: TermRegions)
    ensures
        heights_of(&c) == heights_of(rs),
        c.size == rs.size,
        c.full == rs.full,
        c.expand == rs.expand,
{
    let mut backlog: Vec<Row> = Vec::new();
    let mut i: usize = 0;
    while i < rs.backlog.len()
        invariant
            i <= rs.backlog@.len(),
            backlog@ == rs.backlog@.subrange(0, i as int),
        decreases rs.backlog@.len() - i,
    {
        backlog.push(rs.backlog[i]);
        i = i + 1;
        assert(backlog@ =~= rs.backlog@.subrange(0, i as int));
    }
    assert(backlog@ =~= rs.backlog@);
    TermRegions { size: rs.size, full: rs.full, expand: rs.expand, backlog, last: rs.last }
}

impl Distributor {
    /// The state this distributor is in.
    spec fn state(&self) -> DistState {
        DistState {
            regions: heights_of(&self.regions),
            finished: self.done@,
            pending: self.pending_frames@,
            tags: self.pending_tags@,
            y: self.current_y,
            weak: self.trailing_weak,
        }
    }

    /// Every finished frame is the frame of its region's content, and no
    /// frame waits to be rolled back.
    spec fn wf(&self) -> bool {
        &&& self.finished@.len() == self.done@.len()
        &&& forall|i: int|
            0 <= i < self.done@.len() ==> is_region_frame(
                #[trigger] self.finished@[i],
                self.done@[i],
                self.cfg,
            )
        &&& self.rollback_frames@.len() == 0
    }

    /// A snapshot, if any, was taken in the current state.
    spec fn sticky_fresh(&self) -> bool {
        match self.sticky {
            None => true,
            Some(snap) => {
                &&& snap.pending_frames_len == self.pending_frames@.len()
                &&& snap.current_y == self.current_y
                &&& snap.trailing_weak == self.trailing_weak
            },
        }
    }

    /// Distribute the items, then finish the last region.
    fn run(self, items: Vec<Item>) -> (r: Vec<TermFrame>)
        requires
            self.wf(),
            self.sticky is None,
            self.state() == initial(self.state().regions),
            distribution_ok(items@, self.state().regions, self.cfg),
        ensures
            r@.len() == distribution(items@, self.state().regions).len(),
            forall|i: int|
                0 <= i < r@.len() ==> is_region_frame(
                    #[trigger] r@[i],
                    distribution(items@, self.state().regions)[i],
                    self.cfg,
                ),
    {
        let mut d = self;
        let ghost items0 = items@;
        let ghost s0 = d.state();
        let ghost cfg = d.cfg;
        for item in it: items.into_iter()
            invariant
                it.seq() == items0,
                d.wf(),
                d.sticky is None,
                d.cfg == cfg,
                d.state() == run(s0, items0.take(it.index() as int)),
                distribution_ok(items0, s0.regions, cfg),
                s0 == initial(s0.regions),
        {
            let ghost k = it.index() as int;
            proof {
                lemma_run_ok_prefix(s0, items0, cfg, k + 1);
                assert(items0.take(k + 1).drop_last() =~= items0.take(k));
                assert(items0.take(k + 1).last() == items0[k]);
            }
            d.handle_item(item);
        }
        proof {
            assert(items0.take(items0.len() as int) =~= items0);
        }
        d.finish_region();
        d.finished
    }

    /// Handle one item.
    fn handle_item(&mut self, item: Item)
        requires
            old(self).wf(),
            old(self).sticky is None,
            step_ok(old(self).state(), item, old(self).cfg),
        ensures
            final(self).wf(),
            final(self).sticky is None,
            final(self).cfg == old(self).cfg,
            final(self).state() == step(old(self).state(), item),
    {
        match item {
            Item::Tag(tag) => {
                let y = self.current_y;
                self.pending_tags.push((tag, y));
            },
            Item::Abs(amount, weak) => {
                self.handle_abs(amount, weak);
            },
            Item::Fr => {
                // Fractional spacing takes no rows in a terminal.
                self.trim_spacing();
            },
            Item::Frame { frame, align_x, need } => {
                self.handle_frame(frame, align_x, need);
            },
            Item::Placed { frame, align_x, align_y, delta } => {
                self.handle_placed(frame, align_x, align_y, delta);
            },
            Item::Flush => {},
            Item::Break(strong) => {
                self.handle_break(strong);
            },
        }
    }

    /// Spacing: finish the region first when it overflows and a later
    /// region may give more room.
    fn handle_abs(&mut self, amount: Row, weak: bool)
        requires
            old(self).wf(),
            old(self).sticky is None,
            step_ok(old(self).state(), Item::Abs(amount, weak), old(self).cfg),
        ensures
            final(self).wf(),
            final(self).sticky is None,
            final(self).cfg == old(self).cfg,
            final(self).state() == abs_step(old(self).state(), amount, weak),
    {
        if weak && !self.keep_spacing(amount) {
            return;
        }
        if self.current_y.add(amount).gt(self.regions.size.rows) {
            if self.regions.may_progress() {
                self.finish_region();
                self.regions.next();
                self.current_y = TermScalar::zero();
                self.trailing_weak = TermScalar::zero();
            }
        }
        self.current_y = self.current_y.add(amount);
        if weak {
            self.trailing_weak = self.trailing_weak.add(amount);
        } else {
            self.trailing_weak = TermScalar::zero();
        }
    }

    /// A frame: finish the region first when what the frame needs
    /// overflows a region that already holds frames, and a later region may
    /// give more room.
    fn handle_frame(&mut self, frame: TermFrame, align_x: Alignment, need: Row)
        requires
            old(self).wf(),
            old(self).sticky is None,
            step_ok(old(self).state(), Item::Frame { frame, align_x, need }, old(self).cfg),
        ensures
            final(self).wf(),
            final(self).sticky is None,
            final(self).cfg == old(self).cfg,
            final(self).state() == frame_step(old(self).state(), frame, align_x, need),
    {
        let h = frame.rows();
        if self.current_y.add(need).gt(self.regions.size.rows) && self.pending_frames.len() > 0 {
            if self.regions.may_progress() {
                if self.should_stick() {
                    self.sticky = Some(self.snapshot());
                }
                self.finish_region();
                self.regions.next();
                self.current_y = TermScalar::zero();
                if self.rollback_frames.len() > 0 {
                    // Rolled-back frames go first in the new region.
                    let mut frames: Vec<(TermFrame, Alignment)> = Vec::new();
                    std::mem::swap(&mut frames, &mut self.rollback_frames);
                    let mut i: usize = 0;
                    while i < frames.len()
                        invariant
                            i <= frames@.len(),
                        decreases frames@.len() - i,
                    {
                        self.current_y = self.current_y.add(frames[i].0.rows());
                        i = i + 1;
                    }
                    self.pending_frames = frames;
                }
            }
        }
        self.pending_frames.push((frame, align_x));
        self.current_y = self.current_y.add(h);
        self.trailing_weak = TermScalar::zero();
    }

    /// An absolutely placed frame takes no room in the flow.
    fn handle_placed(
        &mut self,
        frame: TermFrame,
        align_x: Option<Alignment>,
        align_y: Option<Alignment>,
        delta: (Col, Row),
    )
        ensures
            final(self).state() == old(self).state(),
            final(self).cfg == old(self).cfg,
            final(self).finished@ == old(self).finished@,
            final(self).rollback_frames@ == old(self).rollback_frames@,
            final(self).sticky == old(self).sticky,
    {
    }

    /// A strong break finishes the region where a break is permitted.  A
    /// weak break does nothing: it only marks where a full region may end.
    fn handle_break(&mut self, strong: bool)
        requires
            old(self).wf(),
            old(self).sticky is None,
            step_ok(old(self).state(), Item::Break(strong), old(self).cfg),
        ensures
            final(self).wf(),
            final(self).sticky is None,
            final(self).cfg == old(self).cfg,
            final(self).state() == break_step(old(self).state(), strong),
    {
        if strong && self.regions.may_break() {
            self.finish_region();
            self.regions.next();
            self.current_y = TermScalar::zero();
        }
    }

    /// Finish the current region: roll back a sticky block, trim trailing
    /// weak spacing, and turn the region's frames and tags, if it has any,
    /// into a finished frame.
    fn finish_region(&mut self)
        requires
            old(self).wf(),
            old(self).sticky_fresh(),
            finish_ok(old(self).state(), old(self).cfg),
        ensures
            final(self).wf(),
            final(self).sticky is None,
            final(self).cfg == old(self).cfg,
            final(self).regions == old(self).regions,
            final(self).state() == finished(old(self).state()),
    {
        if let Some(snap) = self.sticky.take() {
            // The frames placed since the snapshot move to the next region.
            let mut rolled_back = self.pending_frames.split_off(snap.pending_frames_len);
            let mut new_rollback: Vec<(TermFrame, Alignment)> = Vec::new();
            std::mem::swap(&mut new_rollback, &mut self.rollback_frames);
            new_rollback.append(&mut rolled_back);
            self.rollback_frames = new_rollback;
            self.current_y = snap.current_y;
            self.trailing_weak = snap.trailing_weak;
            proof {
                assert(self.pending_frames@ =~= old(self).pending_frames@);
            }
        }
        self.trim_spacing();
        let mut frames: Vec<(TermFrame, Alignment)> = Vec::new();
        std::mem::swap(&mut frames, &mut self.pending_frames);
        let mut tags: Vec<(u64, Row)> = Vec::new();
        std::mem::swap(&mut tags, &mut self.pending_tags);
        if frames.len() == 0 && tags.len() == 0 {
            proof {
                assert(self.pending_frames@ =~= frames@);
                assert(self.pending_tags@ =~= tags@);
            }
            return;
        }
        let ghost content = RegionContent { frames: frames@, tags: tags@ };
        let result = compose_region(frames, tags, self.cfg);
        self.finished.push(result);
        self.done = Ghost(self.done@.push(content));
    }

    /// Weak spacing is kept unless collapsed by the caller.
    fn keep_spacing(&self, amount: Row) -> (r: bool)
        ensures
            r,
    {
        true
    }

    /// Remove trailing weak spacing, so that a region does not end in
    /// blank rows that come only from weak gaps.
    fn trim_spacing(&mut self)
        requires
            old(self).trailing_weak.is_num(),
        ensures
            final(self).state() == trimmed(old(self).state()),
            final(self).cfg == old(self).cfg,
            final(self).regions == old(self).regions,
            final(self).finished@ == old(self).finished@,
            final(self).done == old(self).done,
            final(self).rollback_frames@ == old(self).rollback_frames@,
            final(self).sticky == old(self).sticky,
    {
        if self.trailing_weak.gt(TermScalar::zero()) {
            self.current_y = self.current_y.sub(self.trailing_weak).max(TermScalar::zero());
            self.trailing_weak = TermScalar::zero();
        }
    }

    /// A block is sticky when the region already uses rows.
    fn should_stick(&self) -> (r: bool)
        requires
            self.current_y.is_num(),
        ensures
            r == TermScalar::Finite(0).lt_spec(self.current_y),
    {
        self.current_y.gt(TermScalar::zero())
    }

    /// The current state, for rolling back.
    fn snapshot(&self) -> (r: DistributionSnapshot)
        ensures
            r.pending_frames_len == self.pending_frames@.len(),
            r.current_y == self.current_y,
            r.trailing_weak == self.trailing_weak,
    {
        DistributionSnapshot {
            pending_frames_len: self.pending_frames.len(),
            current_y: self.current_y,
            trailing_weak: self.trailing_weak,
        }
    }
}

/// A run whose steps compare only numbers does so on every prefix too.
proof fn lemma_run_ok_prefix(s: DistState, items: Seq<Item>, cfg: FlowConfig, k: int)
    requires
        run_ok(s, items, cfg),
        0 <= k <= items.len(),
    ensures
        run_ok(s, items.take(k), cfg),
    decreases items.len(),
{
    if k == items.len() {
        assert(items.take(k) =~= items);
    } else {
        lemma_run_ok_prefix(s, items.drop_last(), cfg, k);
        assert(items.drop_last().take(k) =~= items.take(k));
    }
}

/// Distribute items into regions, returning one frame per finished region
/// (see [`distribution`] and [`is_region_frame`]).
pub fn distribute(items: Vec<Item>, config: &FlowConfig, regions: &TermRegions) -> (r: Vec<TermFrame>)
    requires
        distribution_ok(items@, heights_of(regions), *config),
    ensures
        r@.len() == distribution(items@, heights_of(regions)).len(),
        forall|i: int|
            0 <= i < r@.len() ==> is_region_frame(
                #[trigger] r@[i],
                distribution(items@, heights_of(regions))[i],
                *config,
            ),
{
    let distributor = Distributor {
        cfg: *config,
        regions: copy_regions(regions),
        finished: Vec::new(),
        done: Ghost(Seq::empty()),
        pending_frames: Vec::new(),
        rollback_frames: Vec::new(),
        pending_tags: Vec::new(),
        sticky: None,
        current_y: TermScalar::zero(),
        trailing_weak: TermScalar::zero(),
    };
    proof {
        assert(distributor.state() =~= initial(heights_of(regions)));
    }
    distributor.run(items)
}

// ── Laws ─────────────────────────────────────────────────────────────────

/// The frames of the items, in order, with their alignments.
pub open spec fn item_frames(items: Seq<Item>) -> Seq<(TermFrame, Alignment)>
    decreases items.len(),
{
    if items.len() == 0 {
        Seq::empty()
    } else {
        item_frames(items.drop_last()) + match items.last() {
            Item::Frame { frame, align_x, .. } => seq![(frame, align_x)],
            _ => Seq::empty(),
        }
    }
}

/// The keys of the items' tags, in order.
pub open spec fn item_tags(items: Seq<Item>) -> Seq<u64>
    decreases items.len(),
{
    if items.len() == 0 {
        Seq::empty()
    } else {
        item_tags(items.drop_last()) + match items.last() {
            Item::Tag(t) => seq![t],
            _ => Seq::empty(),
        }
    }
}

/// The keys of placed tags.
pub open spec fn tag_keys(tags: Seq<(u64, Row)>) -> Seq<u64> {
    tags.map_values(|t: (u64, Row)| t.0)
}

/// The frames of regions, region after region.
pub open spec fn region_frames(cs: Seq<RegionContent>) -> Seq<(TermFrame, Alignment)>
    decreases cs.len(),
{
    if cs.len() == 0 {
        Seq::empty()
    } else {
        region_frames(cs.drop_last()) + cs.last().frames
    }
}

/// The keys of the tags of regions, region after region.
pub open spec fn region_tags(cs: Seq<RegionContent>) -> Seq<u64>
    decreases cs.len(),
{
    if cs.len() == 0 {
        Seq::empty()
    } else {
        region_tags(cs.drop_last()) + tag_keys(cs.last().tags)
    }
}

/// Whether every region holds a frame or a tag.
pub open spec fn none_empty(cs: Seq<RegionContent>) -> bool {
    forall|i: int| 0 <= i < cs.len() ==> (#[trigger] cs[i]).frames.len() > 0 || cs[i].tags.len() > 0
}

/// What a state holds, in order: the finished regions' frames then the
/// pending ones, and likewise for tag keys; and no finished region is
/// empty.
pub open spec fn holds(s: DistState, frames: Seq<(TermFrame, Alignment)>, tags: Seq<u64>) -> bool {
    &&& region_frames(s.finished) + s.pending == frames
    &&& region_tags(s.finished) + tag_keys(s.tags) == tags
    &&& none_empty(s.finished)
}

/// Finishing a region moves its frames and tags without losing,
/// duplicating or reordering any.
proof fn lemma_finished_holds(s: DistState, frames: Seq<(TermFrame, Alignment)>, tags: Seq<u64>)
    requires
        holds(s, frames, tags),
    ensures
        holds(finished(s), frames, tags),
        finished(s).pending.len() == 0,
        finished(s).tags.len() == 0,
{
    let t = trimmed(s);
    if !(t.pending.len() == 0 && t.tags.len() == 0) {
        let c = RegionContent { frames: t.pending, tags: t.tags };
        let f = finished(s);
        assert(f.finished.drop_last() =~= s.finished);
        assert(region_frames(f.finished) == region_frames(s.finished) + t.pending);
        assert(region_frames(f.finished) + f.pending =~= frames);
        assert(region_tags(f.finished) + tag_keys(f.tags) =~= tags);
    } else {
        assert(s.pending =~= Seq::<(TermFrame, Alignment)>::empty());
        assert(tag_keys(s.tags) =~= Seq::<u64>::empty());
    }
}

/// One item adds its frame or its tag, if it is one, after all others.
proof fn lemma_step_holds(s: DistState, item: Item, frames: Seq<(TermFrame, Alignment)>, tags: Seq<u64>)
    requires
        holds(s, frames, tags),
    ensures
        holds(
            step(s, item),
            frames + match item {
                Item::Frame { frame, align_x, .. } => seq![(frame, align_x)],
                _ => Seq::empty(),
            },
            tags + match item {
                Item::Tag(t) => seq![t],
                _ => Seq::empty(),
            },
        ),
{
    let ef = Seq::<(TermFrame, Alignment)>::empty();
    let et = Seq::<u64>::empty();
    assert(frames + ef =~= frames);
    assert(tags + et =~= tags);
    lemma_finished_holds(s, frames, tags);
    match item {
        Item::Tag(t) => {
            let n = step(s, item);
            assert(tag_keys(n.tags) =~= tag_keys(s.tags).push(t));
            assert(region_tags(n.finished) + tag_keys(n.tags) =~= tags + seq![t]);
        },
        Item::Frame { frame, align_x, need } => {
            let s1 = if s.regions.rows.lt_spec(s.y.add_spec(need)) && s.pending.len() > 0
                && may_progress(s.regions) {
                advanced(s)
            } else {
                s
            };
            assert(holds(s1, frames, tags));
            let n = step(s, item);
            assert(region_frames(n.finished) + n.pending =~= frames + seq![(frame, align_x)]);
        },
        _ => {},
    }
}

/// A run holds the items' frames and tags, in order, in its finished
/// regions and then its current one.
proof fn lemma_run_holds(r: RegionHeights, items: Seq<Item>)
    ensures
        holds(run(initial(r), items), item_frames(items), item_tags(items)),
    decreases items.len(),
{
    if items.len() == 0 {
        assert(region_frames(Seq::<RegionContent>::empty()) + Seq::<(TermFrame, Alignment)>::empty()
            =~= Seq::<(TermFrame, Alignment)>::empty());
        assert(tag_keys(Seq::<(u64, Row)>::empty()) =~= Seq::<u64>::empty());
    } else {
        lemma_run_holds(r, items.drop_last());
        lemma_step_holds(
            run(initial(r), items.drop_last()),
            items.last(),
            item_frames(items.drop_last()),
            item_tags(items.drop_last()),
        );
    }
}

/// Distribution loses, duplicates and reorders nothing: the regions'
/// frames, region after region, are the items' frames with their
/// alignments, in order; and likewise for the tags.
pub proof fn law_distribution_keeps_content(items: Seq<Item>, r: RegionHeights)
    ensures
        region_frames(distribution(items, r)) == item_frames(items),
        region_tags(distribution(items, r)) == item_tags(items),
{
    lemma_run_holds(r, items);
    lemma_finished_holds(run(initial(r), items), item_frames(items), item_tags(items));
    let f = finished(run(initial(r), items));
    assert(region_frames(f.finished) + f.pending =~= region_frames(f.finished));
    assert(tag_keys(f.tags) =~= Seq::<u64>::empty());
    assert(region_tags(f.finished) + tag_keys(f.tags) =~= region_tags(f.finished));
}

/// No region of a distribution is empty: each holds a frame or a tag.
pub proof fn law_distribution_has_no_empty_region(items: Seq<Item>, r: RegionHeights)
    ensures
        none_empty(distribution(items, r)),
{
    lemma_run_holds(r, items);
    lemma_finished_holds(run(initial(r), items), item_frames(items), item_tags(items));
}

/// Running items one after the other is running the first part, then the
/// second from where the first stopped.
proof fn lemma_run_concat(s: DistState, a: Seq<Item>, b: Seq<Item>)
    ensures
        run(s, a + b) == run(run(s, a), b),
    decreases b.len(),
{
    if b.len() == 0 {
        assert(a + b =~= a);
    } else {
        lemma_run_concat(s, a, b.drop_last());
        assert((a + b).drop_last() =~= a + b.drop_last());
        assert((a + b).last() == b.last());
    }
}

/// The frames and tags of items one after the other.
proof fn lemma_items_concat(a: Seq<Item>, b: Seq<Item>)
    ensures
        item_frames(a + b) == item_frames(a) + item_frames(b),
        item_tags(a + b) == item_tags(a) + item_tags(b),
    decreases b.len(),
{
    if b.len() == 0 {
        assert(a + b =~= a);
        assert(item_frames(a) + item_frames(b) =~= item_frames(a));
        assert(item_tags(a) + item_tags(b) =~= item_tags(a));
    } else {
        lemma_items_concat(a, b.drop_last());
        assert((a + b).drop_last() =~= a + b.drop_last());
        assert((a + b).last() == b.last());
        assert(item_frames(a + b) =~= item_frames(a) + item_frames(b));
        assert(item_tags(a + b) =~= item_tags(a) + item_tags(b));
    }
}

/// The frames and tags of regions one after the other.
proof fn lemma_regions_concat(x: Seq<RegionContent>, y: Seq<RegionContent>)
    ensures
        region_frames(x + y) == region_frames(x) + region_frames(y),
        region_tags(x + y) == region_tags(x) + region_tags(y),
    decreases y.len(),
{
    if y.len() == 0 {
        assert(x + y =~= x);
        assert(region_frames(x) + region_frames(y) =~= region_frames(x));
        assert(region_tags(x) + region_tags(y) =~= region_tags(x));
    } else {
        lemma_regions_concat(x, y.drop_last());
        assert((x + y).drop_last() =~= x + y.drop_last());
        assert((x + y).last() == y.last());
        assert(region_frames(x + y) =~= region_frames(x) + region_frames(y));
        assert(region_tags(x + y) =~= region_tags(x) + region_tags(y));
    }
}

/// Regions once finished stay finished: later steps only add regions.
proof fn lemma_run_extends(s: DistState, b: Seq<Item>)
    ensures
        run(s, b).finished.len() >= s.finished.len(),
        run(s, b).finished.take(s.finished.len() as int) == s.finished,
        finished(run(s, b)).finished.len() >= s.finished.len(),
        finished(run(s, b)).finished.take(s.finished.len() as int) == s.finished,
    decreases b.len(),
{
    let k = s.finished.len() as int;
    if b.len() == 0 {
        assert(s.finished.take(k) =~= s.finished);
        assert(finished(s).finished.take(k) =~= s.finished);
    } else {
        lemma_run_extends(s, b.drop_last());
        let p = run(s, b.drop_last());
        assert(finished(p).finished.take(k) =~= s.finished);
        let n = step(p, b.last());
        assert(n.finished.take(k) =~= s.finished);
        assert(finished(n).finished.take(k) =~= s.finished);
    }
}

/// A run from any state adds the items' frames and tags after what the
/// state holds.
proof fn lemma_run_holds_from(
    s: DistState,
    b: Seq<Item>,
    frames: Seq<(TermFrame, Alignment)>,
    tags: Seq<u64>,
)
    requires
        holds(s, frames, tags),
    ensures
        holds(run(s, b), frames + item_frames(b), tags + item_tags(b)),
    decreases b.len(),
{
    if b.len() == 0 {
        assert(frames + item_frames(b) =~= frames);
        assert(tags + item_tags(b) =~= tags);
    } else {
        lemma_run_holds_from(s, b.drop_last(), frames, tags);
        lemma_step_holds(
            run(s, b.drop_last()),
            b.last(),
            frames + item_frames(b.drop_last()),
            tags + item_tags(b.drop_last()),
        );
        assert((frames + item_frames(b.drop_last())) + match b.last() {
            Item::Frame { frame, align_x, .. } => seq![(frame, align_x)],
            _ => Seq::empty(),
        } =~= frames + item_frames(b));
        assert((tags + item_tags(b.drop_last())) + match b.last() {
            Item::Tag(t) => seq![t],
            _ => Seq::empty(),
        } =~= tags + item_tags(b));
    }
}

/// Whether the regions before index `k` hold exactly the frames and tags
/// of `a`, and those from `k` on hold exactly the ones of `b`.
pub open spec fn splits_at(d: Seq<RegionContent>, k: int, a: Seq<Item>, b: Seq<Item>) -> bool {
    &&& 0 <= k <= d.len()
    &&& region_frames(d.take(k)) == item_frames(a)
    &&& region_frames(d.skip(k)) == item_frames(b)
    &&& region_tags(d.take(k)) == item_tags(a)
    &&& region_tags(d.skip(k)) == item_tags(b)
}

/// A strong break, where a break is permitted, ends a region: the regions
/// before some index hold exactly the frames and tags of the items before
/// the break, and those from it on hold exactly the ones after it.
pub proof fn law_strong_break_separates(a: Seq<Item>, b: Seq<Item>, r: RegionHeights)
    requires
        may_break(run(initial(r), a).regions),
    ensures
        exists|k: int| #[trigger] splits_at(distribution(a + seq![Item::Break(true)] + b, r), k, a, b),
{
    let brk = seq![Item::Break(true)];
    let ab = a + brk;
    let all = ab + b;
    let s = run(initial(r), ab);
    assert(ab.drop_last() =~= a);
    assert(ab.last() == Item::Break(true));
    lemma_run_holds(r, ab);
    lemma_run_holds(r, a);
    lemma_finished_holds(run(initial(r), a), item_frames(a), item_tags(a));
    lemma_items_concat(a, brk);
    assert(item_frames(brk) =~= Seq::<(TermFrame, Alignment)>::empty()) by {
        assert(brk.drop_last() =~= Seq::<Item>::empty());
    }
    assert(item_tags(brk) =~= Seq::<u64>::empty()) by {
        assert(brk.drop_last() =~= Seq::<Item>::empty());
    }
    assert(item_frames(ab) =~= item_frames(a));
    assert(item_tags(ab) =~= item_tags(a));
    // After the break nothing is pending.
    assert(s.pending.len() == 0 && s.tags.len() == 0);
    assert(region_frames(s.finished) =~= region_frames(s.finished) + s.pending);
    assert(region_frames(s.finished) == item_frames(a));
    assert(tag_keys(s.tags) =~= Seq::<u64>::empty());
    assert(region_tags(s.finished) =~= region_tags(s.finished) + tag_keys(s.tags));
    assert(region_tags(s.finished) == item_tags(a));
    // The rest of the run only adds regions after those.
    lemma_run_concat(initial(r), ab, b);
    lemma_run_extends(s, b);
    let d = distribution(all, r);
    let k = s.finished.len() as int;
    assert(d == finished(run(s, b)).finished);
    assert(d.take(k) == s.finished);
    // And everything is kept.
    law_distribution_keeps_content(all, r);
    lemma_items_concat(ab, b);
    lemma_regions_concat(d.take(k), d.skip(k));
    assert(d.take(k) + d.skip(k) =~= d);
    let fa = item_frames(a);
    let ta = item_tags(a);
    assert(region_frames(d) == fa + region_frames(d.skip(k)));
    assert(region_frames(d) == fa + item_frames(b));
    assert(region_frames(d.skip(k)) =~= (fa + region_frames(d.skip(k))).skip(fa.len() as int));
    assert(item_frames(b) =~= (fa + item_frames(b)).skip(fa.len() as int));
    assert(region_tags(d) == ta + region_tags(d.skip(k)));
    assert(region_tags(d) == ta + item_tags(b));
    assert(region_tags(d.skip(k)) =~= (ta + region_tags(d.skip(k))).skip(ta.len() as int));
    assert(item_tags(b) =~= (ta + item_tags(b)).skip(ta.len() as int));
    assert(splits_at(d, k, a, b));
}

} // verus!
