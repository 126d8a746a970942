//! Block-level helpers: the region of a sized container, and a fixed
//! height spread over regions.

use vstd::prelude::*;
use crate::flow::distribute::{RegionHeights, heights_of, may_break, may_progress, next_heights};
use crate::geom::{Axes, Row, TermSize};
use crate::regions::{TermRegion, TermRegions};
use crate::scalar::TermScalar;

verus! {

/// The region of an unbreakable sized container: the given width and
/// height, or the base's where none is given.  It expands on each axis
/// that is given and finite.
pub fn unbreakable_pod(width: Option<TermScalar>, height: Option<TermScalar>, base: TermSize) -> (r:
    TermRegion)
    ensures
        r.size.cols == (match width {
            Some(w) => w,
            None => base.cols,
        }),
        r.size.rows == (match height {
            Some(h) => h,
            None => base.rows,
        }),
        r.expand.x == (width is Some && r.size.cols.is_fin()),
        r.expand.y == (height is Some && r.size.rows.is_fin()),
{
    let size = TermSize::new(
        match width {
            Some(w) => w,
            None => base.cols,
        },
        match height {
            Some(h) => h,
            None => base.rows,
        },
    );
    let expand = Axes::new(
        width.is_some() && size.cols.is_finite(),
        height.is_some() && size.rows.is_finite(),
    );
    TermRegion::new(size, expand)
}

/// The state of spreading a height over regions.
pub struct SpreadState {
    /// Height still to place.
    pub remaining: Row,
    /// The regions, starting at the current one.
    pub regions: RegionHeights,
    /// Heights given to the regions so far.
    pub heights: Seq<Row>,
    /// Whether the spreading has stopped.
    pub done: bool,
}

/// A region's height limited to what remains: never below zero nor above
/// the remaining height.
pub open spec fn limited_to(rows: Row, remaining: Row) -> Row {
    rows.max_spec(TermScalar::Finite(0)).min_spec(remaining)
}

/// One round: the current region takes what it can; the spreading stops
/// when nothing remains, when no break is permitted, or when the region
/// took nothing and a later one would give no more room; else it goes on
/// in the next region.
pub open spec fn spread_step(s: SpreadState) -> SpreadState {
    if s.done {
        s
    } else {
        let limited = limited_to(s.regions.rows, s.remaining);
        let remaining = s.remaining.sub_spec(limited);
        let heights = s.heights.push(limited);
        if !TermScalar::Finite(0).lt_spec(remaining) || !may_break(s.regions) || (!may_progress(
            s.regions,
        ) && limited.le_spec(TermScalar::Finite(0))) {
            SpreadState { remaining, regions: s.regions, heights, done: true }
        } else {
            SpreadState { remaining, regions: next_heights(s.regions), heights, done: false }
        }
    }
}

/// The state after `k` rounds.
pub open spec fn spread_rounds(s: SpreadState, k: nat) -> SpreadState
    decreases k,
{
    if k == 0 {
        s
    } else {
        spread_step(spread_rounds(s, (k - 1) as nat))
    }
}

/// The state after `k` rounds of spreading `height` over the regions.
pub open spec fn spread(height: Row, r: RegionHeights, k: nat) -> SpreadState {
    spread_rounds(SpreadState { remaining: height, regions: r, heights: Seq::empty(), done: false }, k)
}

/// The heights once spreading stopped: what still remains, if positive, is
/// added to the last region.
pub open spec fn spread_heights(s: SpreadState) -> Seq<Row> {
    if TermScalar::Finite(0).lt_spec(s.remaining) && s.heights.len() > 0 {
        s.heights.update(s.heights.len() - 1, s.heights.last().add_spec(s.remaining))
    } else {
        s.heights
    }
}

/// Whether every height of the regions is a number.
pub open spec fn heights_num(r: RegionHeights) -> bool {
    &&& r.rows.is_num()
    &&& forall|i: int| 0 <= i < r.backlog.len() ==> (#[trigger] r.backlog[i]).is_num()
    &&& r.last matches Some(h) ==> h.is_num()
}

/// Whether spreading `height` over the regions compares only numbers and
/// stops: the height and region heights are numbers, and an infinite
/// height meets no infinite region and stops at a repeating region only
/// if that takes nothing.
pub open spec fn spread_ok(height: Row, r: RegionHeights) -> bool {
    &&& height.is_num()
    &&& heights_num(r)
    &&& height is Infinity ==> {
        &&& !(r.rows is Infinity)
        &&& forall|i: int| 0 <= i < r.backlog.len() ==> !(#[trigger] r.backlog[i] is Infinity)
        &&& r.last matches Some(h) ==> h.le_spec(TermScalar::Finite(0))
    }
}

/// How much room for progress the regions still have.
pub open spec fn progress_room(r: RegionHeights) -> int {
    2 * r.backlog.len() + if (r.last matches Some(h) && r.rows != h) {
        1int
    } else {
        0int
    }
}

/// Spread a fixed height over the regions: the height given to the first
/// region, and the heights given to the ones after it.  A height that fits
/// the first region is all given to it, with none for the regions after
/// it; a height that is not positive always fits.  Otherwise each region
/// in turn takes what it can (see [`spread_step`]), and what still remains
/// when spreading stops goes to the last region used.
pub fn distribute_fixed_height(height: Row, regions: TermRegions) -> (r: (Row, Vec<Row>))
    requires
        spread_ok(height, heights_of(&regions)),
    ensures
        height.le_spec(TermScalar::Finite(0)) ==> (r.0 == height && r.1@.len() == 0),
        height.le_spec(regions.size.rows) ==> (r.0 == height && r.1@.len() == 0),
        !height.le_spec(TermScalar::Finite(0)) ==> exists|k: nat|
            #[trigger] spread(height, heights_of(&regions), k).done && seq![r.0] + r.1@
                == spread_heights(spread(height, heights_of(&regions), k)),
{
    let mut regions = regions;
    let mut remaining = height;
    let mut buf: Vec<Row> = Vec::new();
    if remaining.le(TermScalar::zero()) {
        buf.push(remaining);
        let rest = buf.split_off(1);
        return (buf[0], rest);
    }
    let ghost init = SpreadState {
        remaining: height,
        regions: heights_of(&regions),
        heights: Seq::empty(),
        done: false,
    };
    let ghost mut k: nat = 0;
    let ghost first_rows = regions.size.rows;
    loop
        invariant_except_break
            height.le_spec(first_rows) ==> (k == 0 && heights_of(&regions).rows == first_rows && remaining
                == height && buf@.len() == 0),
            spread_rounds(init, k) == (SpreadState {
                remaining,
                regions: heights_of(&regions),
                heights: buf@,
                done: false,
            }),
            TermScalar::Finite(0).lt_spec(remaining),
            spread_ok(height, heights_of(&regions)),
            height is Infinity ==> remaining is Infinity,
            !(height is Infinity) ==> remaining is Finite,
        ensures
            spread_rounds(init, k).done,
            spread_rounds(init, k).remaining == remaining,
            spread_rounds(init, k).heights == buf@,
            remaining.is_num(),
            buf@.len() > 0,
            height.le_spec(first_rows) ==> (buf@ == seq![height] && remaining == TermScalar::Finite(0)),
        decreases remaining.val(), progress_room(heights_of(&regions)),
    {
        let ghost before = heights_of(&regions);
        let limited = regions.size.rows.clamp(TermScalar::zero(), remaining);
        assert(limited == limited_to(before.rows, remaining));
        buf.push(limited);
        remaining = remaining.sub(limited);
        proof {
            k = k + 1;
        }
        if !remaining.gt(TermScalar::zero()) || !regions.may_break() || (!regions.may_progress()
            && limited.le(TermScalar::zero())) {
            break;
        }
        regions.next();
        proof {
            assert(heights_of(&regions) == next_heights(before));
        }
    }
    if remaining.gt(TermScalar::zero()) {
        let last = buf.len() - 1;
        let v = buf[last].add(remaining);
        buf.set(last, v);
    }
    let rest = buf.split_off(1);
    proof {
        assert(seq![buf@[0]] + rest@ =~= spread_heights(spread_rounds(init, k)));
        assert(spread(height, init.regions, k) == spread_rounds(init, k));
    }
    (buf[0], rest)
}

} // verus!
