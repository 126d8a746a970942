//! Boxes inside a paragraph.

use vstd::prelude::*;
use crate::flow::block::unbreakable_pod;
use crate::frame::TermFrame;
use crate::geom::{Col, Row, TermSize};
use crate::pad::grow;
use crate::scalar::TermScalar;

verus! {

/// The size of an empty box: on each axis the box is given a finite size
/// on, that size (never negative); elsewhere nothing.
pub open spec fn box_size(width: Option<Col>, height: Option<Row>, region: TermSize) -> TermSize {
    let cols = match width {
        Some(w) => w,
        None => region.cols,
    };
    let rows = match height {
        Some(h) => h,
        None => region.rows,
    };
    let ex = width is Some && cols.is_fin();
    let ey = height is Some && rows.is_fin();
    TermSize {
        cols: if ex {
            cols.max_spec(TermScalar::Finite(0))
        } else {
            TermScalar::Finite(0)
        },
        rows: if ey {
            rows.max_spec(TermScalar::Finite(0))
        } else {
            TermScalar::Finite(0)
        },
    }
}

/// Lay out a box whose body gives no frame of its own: sized as
/// [`box_size`] says within `region`, grown by the inset (if any, as left,
/// right, top and bottom), with its baseline moved up by `shift` rows.
pub fn layout_box(
    width: Option<Col>,
    height: Option<Row>,
    region: TermSize,
    inset: Option<(Col, Col, Row, Row)>,
    shift: Row,
) -> (r: TermFrame)
    ensures
        r.size == (match inset {
            Some((l, rt, t, b)) => TermSize {
                cols: box_size(width, height, region).cols.add_spec(l.add_spec(rt)),
                rows: box_size(width, height, region).rows.add_spec(t.add_spec(b)),
            },
            None => box_size(width, height, region),
        }),
        r.baseline == (if shift == TermScalar::Finite(0) {
            TermScalar::Finite(0)
        } else {
            TermScalar::Finite(0).sub_spec(shift)
        }),
        r.content_height == TermScalar::Finite(0),
        r.items@.len() == 0,
{
    let pod = unbreakable_pod(width, height, region);
    let mut frame = TermFrame::new(TermSize::new(TermScalar::zero(), TermScalar::zero()));
    let size_from_expand = if pod.expand.x && pod.expand.y {
        TermSize::new(pod.size.cols.max(frame.cols()), pod.size.rows.max(frame.rows()))
    } else if pod.expand.x {
        TermSize::new(pod.size.cols.max(frame.cols()), frame.rows())
    } else if pod.expand.y {
        TermSize::new(frame.cols(), pod.size.rows.max(frame.rows()))
    } else {
        frame.size()
    };
    frame.set_size(size_from_expand);
    match inset {
        Some((l, rt, t, b)) => {
            grow(&mut frame, l, rt, t, b);
        },
        None => {},
    }
    frame.clip(frame.size());
    if shift != TermScalar::zero() {
        let base = TermScalar::new(frame.baseline().get());
        frame.set_baseline(base.sub(shift));
    }
    frame
}

} // verus!
