//! Regions to lay content out into: a single region, or a sequence of
//! same-width regions for content that breaks across pages.

use vstd::prelude::*;
use crate::geom::{Axes, Row, TermSize};
use crate::scalar::TermScalar;

verus! {

/// A single rectangular region to lay out into.
#[derive(Clone, Copy, PartialEq, Eq, Structural, Debug)]
pub struct TermRegion {
    /// Available space.
    pub size: TermSize,
    /// Whether the region can expand on each axis.
    pub expand: Axes<bool>,
}

impl TermRegion {
    /// A region from its size and expansion.
    pub fn new(size: TermSize, expand: Axes<bool>) -> (r: TermRegion)
        ensures
            r.size == size,
            r.expand == expand,
    {
        TermRegion { size, expand }
    }

    /// The base size for relative sizing: the region's size.
    pub fn base(&self) -> (r: TermSize)
        ensures
            r == self.size,
    {
        self.size
    }
}

/// A sequence of same-width regions.
pub struct TermRegions {
    /// Size of the current region.
    pub size: TermSize,
    /// Full height of the current region (used for relative sizing).
    pub full: Row,
    /// Whether regions can expand.
    pub expand: Axes<bool>,
    /// Heights of the regions after the current one.
    pub backlog: Vec<Row>,
    /// Height of a region that repeats after the backlog (`None`: no
    /// repeating tail).
    pub last: Option<Row>,
}

impl TermRegions {
    /// The regions holding just one region.
    pub fn from_region(r: TermRegion) -> (rs: TermRegions)
        ensures
            rs.size == r.size,
            rs.full == r.size.rows,
            rs.expand == r.expand,
            rs.backlog@.len() == 0,
            rs.last is None,
    {
        TermRegions { size: r.size, full: r.size.rows, expand: r.expand, backlog: Vec::new(), last: None }
    }

    /// A single region (no page breaking).
    pub fn one(size: TermSize, expand: Axes<bool>) -> (rs: TermRegions)
        ensures
            rs.size == size,
            rs.full == size.rows,
            rs.expand == expand,
            rs.backlog@.len() == 0,
            rs.last is None,
    {
        TermRegions::from_region(TermRegion::new(size, expand))
    }

    /// Regions that repeat with the same size forever.
    pub fn repeat(size: TermSize, expand: Axes<bool>) -> (rs: TermRegions)
        ensures
            rs.size == size,
            rs.full == size.rows,
            rs.expand == expand,
            rs.backlog@.len() == 0,
            rs.last == Some(size.rows),
    {
        TermRegions { size, full: size.rows, expand, backlog: Vec::new(), last: Some(size.rows) }
    }

    /// The base size for relative sizing: the current width and full height.
    pub fn base(&self) -> (r: TermSize)
        ensures
            r == (TermSize { cols: self.size.cols, rows: self.full }),
    {
        TermSize::new(self.size.cols, self.full)
    }

    /// Whether a region break is permitted.
    pub open spec fn may_break_spec(&self) -> bool {
        self.backlog@.len() > 0 || self.last is Some
    }

    /// Whether moving to the next region may give more space.
    pub open spec fn may_progress_spec(&self) -> bool {
        self.backlog@.len() > 0 || (self.last matches Some(h) && self.size.rows != h)
    }

    /// Whether a region break is permitted.
    pub fn may_break(&self) -> (r: bool)
        ensures
            r == self.may_break_spec(),
    {
        self.backlog.len() > 0 || self.last.is_some()
    }

    /// Whether calling `next` may improve space availability.
    pub fn may_progress(&self) -> (r: bool)
        ensures
            r == self.may_progress_spec(),
    {
        if self.backlog.len() > 0 {
            return true;
        }
        match self.last {
            Some(h) => self.size.rows != h,
            None => false,
        }
    }

    /// Whether the current region is full and moving on may help.  The
    /// height is compared with zero, so it may not be `Undefined`.
    pub fn is_full(&self) -> (r: bool)
        requires
            self.size.rows.is_num(),
        ensures
            r == (self.size.rows.le_spec(TermScalar::Finite(0)) && self.may_progress_spec()),
    {
        self.size.rows.le(TermScalar::zero()) && self.may_progress()
    }

    /// Advance to the next region: the first height of the backlog, or the
    /// repeating height once the backlog is used up; without either nothing
    /// changes.  The width and expansion never change.
    pub fn next(&mut self)
        ensures
            final(self).size.cols == old(self).size.cols,
            final(self).expand == old(self).expand,
            old(self).backlog@.len() > 0 ==> {
                &&& final(self).size.rows == old(self).backlog@[0]
                &&& final(self).full == old(self).backlog@[0]
                &&& final(self).backlog@ == old(self).backlog@.drop_first()
                &&& final(self).last == old(self).last
            },
            old(self).backlog@.len() == 0 ==> (final(self).backlog@ == old(self).backlog@
                && final(self).last == old(self).last),
            (old(self).backlog@.len() == 0 && old(self).last is Some) ==> (final(self).size.rows
                == old(self).last.unwrap() && final(self).full == old(self).last.unwrap()),
            (old(self).backlog@.len() == 0 && old(self).last is None) ==> (final(self).size
                == old(self).size && final(self).full == old(self).full),
    {
        let h = if self.backlog.len() > 0 {
            let first = self.backlog.remove(0);
            proof {
                assert(self.backlog@ =~= old(self).backlog@.drop_first());
            }
            first
        } else {
            match self.last {
                Some(h) => h,
                None => {
                    return;
                },
            }
        };
        self.size.rows = h;
        self.full = h;
    }

    /// The sizes of all regions: the current one, then one per backlog
    /// height, then the repeating one if any; all with the current width.
    pub fn iter(&self) -> (r: Vec<TermSize>)
        ensures
            r@.len() == 1 + self.backlog@.len() + (if self.last is Some { 1int } else { 0int }),
            r@[0] == self.size,
            forall|i: int|
                0 <= i < self.backlog@.len() ==> #[trigger] r@[i + 1] == (TermSize {
                    cols: self.size.cols,
                    rows: self.backlog@[i],
                }),
            self.last matches Some(h) ==> r@.last() == (TermSize { cols: self.size.cols, rows: h }),
    {
        let x = self.size.cols;
        let mut out: Vec<TermSize> = Vec::new();
        out.push(self.size);
        let mut i: usize = 0;
        while i < self.backlog.len()
            invariant
                i <= self.backlog@.len(),
                out@.len() == 1 + i,
                out@[0] == self.size,
                x == self.size.cols,
                forall|k: int|
                    0 <= k < i ==> #[trigger] out@[k + 1] == (TermSize { cols: x, rows: self.backlog@[k] }),
            decreases self.backlog@.len() - i,
        {
            out.push(TermSize::new(x, self.backlog[i]));
            i = i + 1;
        }
        if let Some(h) = self.last {
            out.push(TermSize::new(x, h));
        }
        out
    }

    /// Map all region sizes through `f`: the current size, and for each
    /// other height the rows of `f` applied to the current width and that
    /// height.
    pub fn map<F: Fn(TermSize) -> TermSize>(&self, f: F) -> (r: TermRegions)
        requires
            forall|s: TermSize| f.requires((s,)),
        ensures
            f.ensures((self.size,), r.size),
            exists|s: TermSize| f.ensures((TermSize { cols: self.size.cols, rows: self.full },), s) && r.full == s.rows,
            r.expand == self.expand,
            r.backlog@.len() == self.backlog@.len(),
            forall|i: int|
                0 <= i < self.backlog@.len() ==> exists|s: TermSize|
                    f.ensures((TermSize { cols: self.size.cols, rows: self.backlog@[i] },), s) && #[trigger] r.backlog@[i] == s.rows,
            r.last is Some <==> self.last is Some,
            self.last matches Some(h) ==> exists|s: TermSize|
                f.ensures((TermSize { cols: self.size.cols, rows: h },), s) && r.last == Some(s.rows),
    {
        let x = self.size.cols;
        let size = f(self.size);
        let full_size = f(TermSize::new(x, self.full));
        let mut backlog: Vec<Row> = Vec::new();
        let mut i: usize = 0;
        while i < self.backlog.len()
            invariant
                forall|s: TermSize| f.requires((s,)),
                x == self.size.cols,
                i <= self.backlog@.len(),
                backlog@.len() == i,
                forall|k: int|
                    0 <= k < i ==> exists|s: TermSize|
                        f.ensures((TermSize { cols: x, rows: self.backlog@[k] },), s) && #[trigger] backlog@[k] == s.rows,
            decreases self.backlog@.len() - i,
        {
            let s = f(TermSize::new(x, self.backlog[i]));
            backlog.push(s.rows);
            i = i + 1;
        }
        let last = match self.last {
            Some(y) => Some(f(TermSize::new(x, y)).rows),
            None => None,
        };
        TermRegions { size, full: full_size.rows, expand: self.expand, backlog, last }
    }
}

/// Regions that repeat forever can always break, and moving to the next
/// region gives back a region of the same size.
pub proof fn law_repeat_regions_are_stable(size: TermSize, rs: TermRegions, after: TermRegions)
    requires
        rs.size == size,
        rs.full == size.rows,
        rs.backlog@.len() == 0,
        rs.last == Some(size.rows),
        after.size.cols == rs.size.cols,
        after.size.rows == rs.last.unwrap(),
        after.full == rs.last.unwrap(),
    ensures
        rs.may_break_spec(),
        !rs.may_progress_spec(),
        after.size == rs.size,
        after.full == rs.full,
{
}

} // verus!
