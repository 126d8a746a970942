use lynchpin::frame::TermFrameItem;
use lynchpin::geom::{TermPoint, TermSize};
use lynchpin::image::layout_image;
use lynchpin::inline::inline_box::layout_box;
use lynchpin::scalar::TermScalar;

fn s(v: i32) -> TermScalar {
    TermScalar::new(v)
}

#[test]
fn boxes_take_the_sizes_they_are_given() {
    let region = TermSize::new(s(40), s(10));
    let b = layout_box(Some(s(5)), None, region, None, s(0));
    assert_eq!(b.size(), TermSize::new(s(5), s(0)));
    let b = layout_box(Some(s(5)), Some(s(2)), region, Some((s(1), s(1), s(1), s(0))), s(0));
    assert_eq!(b.size(), TermSize::new(s(7), s(3)));
    let b = layout_box(None, Some(TermScalar::infinity()), region, None, s(0));
    assert_eq!(b.size(), TermSize::new(s(0), s(0)));
    let b = layout_box(None, None, region, None, s(1));
    assert_eq!(b.baseline(), s(-1));
    assert!(b.items().is_empty());
}

#[test]
fn images_are_placeholders() {
    let f = layout_image(s(80));
    assert_eq!(f.size(), TermSize::new(s(20), s(10)));
    assert_eq!(f.items()[0].0, TermPoint::zero());
    match &f.items()[0].1 {
        TermFrameItem::Image(img) => {
            assert_eq!(img.alt, "[img: image]");
            assert_eq!(img.width, s(20));
            assert_eq!(img.height, s(10));
        }
        _ => panic!("expected an image"),
    }
    let narrow = layout_image(s(1));
    assert_eq!(narrow.size(), TermSize::new(s(1), s(1)));
}
