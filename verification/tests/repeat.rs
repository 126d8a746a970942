use lynchpin::frame::{TermFrame, TermFrameItem};
use lynchpin::geom::{Alignment, TermPoint, TermSize};
use lynchpin::repeat::{layout_repeat, RepeatError};
use lynchpin::scalar::TermScalar;
use lynchpin::style::TermStyle;

fn s(v: i32) -> TermScalar {
    TermScalar::new(v)
}

fn piece() -> TermFrame {
    TermFrame::text("abc".to_string(), TermStyle::plain(), s(3), s(1))
}

fn columns(f: &TermFrame) -> Vec<TermScalar> {
    f.items().iter().map(|(p, _)| p.col).collect()
}

#[test]
fn repeat_fits_copies_with_gaps() {
    let f = layout_repeat(&piece(), s(10), s(1), false, Alignment::Start).unwrap();
    assert_eq!(f.size(), TermSize::new(s(10), s(1)));
    assert_eq!(columns(&f), vec![s(0), s(4)]);
    match &f.items()[1].1 {
        TermFrameItem::Frame(copy) => match &copy.items()[0].1 {
            TermFrameItem::Text(t, _) => assert_eq!(t, "abc"),
            _ => panic!("copy lost its text"),
        },
        _ => panic!("not a frame"),
    }
    assert_eq!(f.items()[1].0, TermPoint::new(s(4), s(0)));
}

#[test]
fn repeat_aligns_or_justifies_the_left_over_width() {
    let f = layout_repeat(&piece(), s(10), s(1), false, Alignment::Center).unwrap();
    assert_eq!(columns(&f), vec![s(1), s(5)]);
    let f = layout_repeat(&piece(), s(10), s(1), false, Alignment::End).unwrap();
    assert_eq!(columns(&f), vec![s(2), s(6)]);
    let f = layout_repeat(&piece(), s(10), s(1), true, Alignment::End).unwrap();
    assert_eq!(columns(&f), vec![s(0), s(6)]);
    let f = layout_repeat(&piece(), s(20), s(0), true, Alignment::Start).unwrap();
    assert_eq!(columns(&f), vec![s(0), s(3), s(6), s(9), s(12), s(15)]);
}

#[test]
fn repeat_of_empty_piece_places_nothing() {
    let empty = TermFrame::new(TermSize::new(s(0), s(0)));
    let f = layout_repeat(&empty, s(10), s(1), false, Alignment::Start).unwrap();
    assert_eq!(f.size(), TermSize::new(s(10), s(1)));
    assert!(f.items().is_empty());
}

#[test]
fn repeat_without_bounds_is_refused() {
    let wide = TermFrame::new(TermSize::new(TermScalar::infinity(), s(1)));
    assert!(matches!(
        layout_repeat(&wide, s(10), s(1), false, Alignment::Start),
        Err(RepeatError::Unbounded)
    ));
    assert!(matches!(
        layout_repeat(&piece(), TermScalar::infinity(), s(1), false, Alignment::Start),
        Err(RepeatError::Unbounded)
    ));
    assert_eq!(RepeatError::Unbounded.message(), "repeat with no size restrictions");
}

#[test]
fn repeat_keeps_the_piece_baseline() {
    let mut p = piece();
    p.set_baseline(s(1));
    let f = layout_repeat(&p, s(3), s(0), false, Alignment::Start).unwrap();
    assert_eq!(f.baseline(), s(1));
    assert_eq!(f.items().len(), 1);
}
