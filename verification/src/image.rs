//! Images on a terminal: a placeholder that names the image.

use vstd::prelude::*;
use crate::frame::{TermFrame, TermFrameItem, TermImage};
use crate::geom::{Col, TermPoint, TermSize};
use crate::scalar::TermScalar;

verus! {

/// The text an image placeholder shows.
pub open spec fn image_label() -> Seq<char> {
    seq!['[', 'i', 'm', 'g', ':', ' ', 'i', 'm', 'a', 'g', 'e', ']']
}

/// Lay out an image as a placeholder: as wide as the page (at most twenty
/// columns), half as tall (at least one row), holding an image item of
/// that size labelled `[img: image]`; the frame is at least one cell each
/// way.
pub fn layout_image(page_cols: Col) -> (r: TermFrame)
    ensures
        ({
            let w = page_cols.min_spec(TermScalar::Finite(20));
            let h = w.div_spec(TermScalar::Finite(2)).max_spec(TermScalar::Finite(1));
            &&& r.size == (TermSize {
                cols: w.max_spec(TermScalar::Finite(1)),
                rows: h.max_spec(TermScalar::Finite(1)),
            })
            &&& r.baseline == TermScalar::Finite(0)
            &&& r.content_height == TermScalar::Finite(0)
            &&& r.items@.len() == 1
            &&& r.items@[0].0 == TermPoint::zero_spec()
            &&& r.items@[0].1 matches TermFrameItem::Image(img) && img.width == w && img.height == h
                && img.alt@ == image_label()
        }),
{
    let width_cols = page_cols.min(TermScalar::new(20));
    let height_rows = width_cols.div(TermScalar::new(2)).max(TermScalar::one());
    let size = TermSize::new(width_cols.max(TermScalar::one()), height_rows.max(TermScalar::one()));
    let mut frame = TermFrame::new(size);
    let mut alt = String::new();
    let label: [char; 12] = ['[', 'i', 'm', 'g', ':', ' ', 'i', 'm', 'a', 'g', 'e', ']'];
    let mut i: usize = 0;
    while i < 12
        invariant
            i <= 12,
            label@ == image_label(),
            alt@ == image_label().take(i as int),
        decreases 12 - i,
    {
        crate::text::push_char(&mut alt, label[i]);
        i = i + 1;
        assert(alt@ =~= image_label().take(i as int));
    }
    assert(image_label().take(12) =~= image_label());
    frame.push_image(TermPoint::zero(), TermImage { width: width_cols, height: height_rows, alt });
    frame
}

} // verus!
