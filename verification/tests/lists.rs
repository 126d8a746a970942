use lynchpin::config::{RenderMode, TermConfig};
use lynchpin::frame::{TermFrame, TermFrameItem};
use lynchpin::geom::{TermPoint, TermSize};
use lynchpin::lists::{
    body_width, bullet_item_frame, description_width, enum_numbers, layout_enum, layout_list,
    layout_terms, list_gap, list_indent, numbered_item_frame, term_item_frame,
};
use lynchpin::scalar::TermScalar;

fn s(v: i32) -> TermScalar {
    TermScalar::new(v)
}

fn size(c: i32, r: i32) -> TermSize {
    TermSize::new(s(c), s(r))
}

fn frame(c: i32, r: i32) -> TermFrame {
    TermFrame::new(size(c, r))
}

fn sub(f: &TermFrame, i: usize) -> &TermFrame {
    match &f.items()[i].1 {
        TermFrameItem::Frame(g) => g,
        _ => panic!("not a frame"),
    }
}

fn text_of(f: &TermFrame) -> String {
    match &f.items()[0].1 {
        TermFrameItem::Text(t, _) => t.clone(),
        _ => panic!("not text"),
    }
}

#[test]
fn list_settings() {
    let config = TermConfig::default();
    assert_eq!(list_gap(true, &config), s(0));
    assert_eq!(list_gap(false, &config), s(1));
    assert_eq!(list_indent(s(0), &config), s(2));
    assert_eq!(list_indent(s(4), &config), s(4));
    assert_eq!(body_width(s(80), s(2)), s(78));
    assert_eq!(description_width(s(80), s(10)), s(68));
}

#[test]
fn bullet_list_items_and_stacking() {
    let config = TermConfig::default();
    let r = layout_list(vec![frame(5, 1), frame(3, 2)], s(0), false, &config);
    // Items are 2 + 5 and 2 + 3 wide; one blank row between them.
    assert_eq!(r.size(), size(7, 4));
    assert_eq!(r.items().len(), 2);
    assert_eq!(r.items()[1].0, TermPoint::new(s(0), s(2)));
    let first = sub(&r, 0);
    assert_eq!(first.size(), size(7, 1));
    assert_eq!(text_of(sub(first, 0)), "• ");
    assert_eq!(first.items()[1].0, TermPoint::new(s(2), s(0)));
}

#[test]
fn tight_list_has_no_gap_and_drops_empty_items() {
    let config = TermConfig { mode: RenderMode::Unicode, indent: s(0), block_gap: s(1), par_gap: s(1) };
    let r = layout_list(vec![frame(0, 1), frame(3, 1), frame(4, 1)], s(0), true, &config);
    // The first item is zero columns wide and is left out.
    assert_eq!(r.items().len(), 2);
    assert_eq!(r.size(), size(4, 2));
    assert_eq!(r.items()[1].0, TermPoint::new(s(0), s(1)));
}

#[test]
fn bullet_and_numbered_items() {
    let b = bullet_item_frame(s(3), frame(4, 0));
    assert_eq!(b.size(), size(7, 1));
    assert_eq!(sub(&b, 0).size(), size(2, 1));
    let n = numbered_item_frame(42, s(4), frame(2, 3));
    assert_eq!(n.size(), size(6, 3));
    assert_eq!(text_of(sub(&n, 0)), "42. ");
    assert_eq!(sub(&n, 0).size(), size(4, 1));
    let n = numbered_item_frame(u64::MAX, s(4), frame(2, 3));
    assert_eq!(text_of(sub(&n, 0)), "18446744073709551615. ");
    let n = numbered_item_frame(0, s(4), frame(2, 3));
    assert_eq!(text_of(sub(&n, 0)), "0. ");
}

#[test]
fn enum_numbers_follow_start_and_own_numbers() {
    assert_eq!(enum_numbers(None, false, &vec![None, Some(7), None]), vec![1, 7, 8]);
    assert_eq!(enum_numbers(None, true, &vec![None, None, None]), vec![3, 2, 1]);
    assert_eq!(enum_numbers(Some(5), true, &vec![None, None, Some(1), None, None]), vec![5, 4, 1, 0, 0]);
    assert_eq!(enum_numbers(Some(u64::MAX), false, &vec![None, None]), vec![u64::MAX, u64::MAX]);
    assert!(enum_numbers(Some(3), false, &vec![]).is_empty());
}

#[test]
fn numbered_list_markers() {
    let config = TermConfig::default();
    let items = vec![(None, frame(3, 1)), (Some(7), frame(3, 1)), (None, frame(3, 1))];
    let r = layout_enum(items, None, false, s(0), true, &config);
    assert_eq!(r.items().len(), 3);
    assert_eq!(text_of(sub(sub(&r, 0), 0)), "1. ");
    assert_eq!(text_of(sub(sub(&r, 1), 0)), "7. ");
    assert_eq!(text_of(sub(sub(&r, 2), 0)), "8. ");
    let items = vec![(None, frame(3, 1)), (None, frame(3, 1))];
    let r = layout_enum(items, None, true, s(0), true, &config);
    assert_eq!(text_of(sub(sub(&r, 0), 0)), "2. ");
    assert_eq!(text_of(sub(sub(&r, 1), 0)), "1. ");
}

#[test]
fn term_items_and_lists() {
    let t = term_item_frame(frame(4, 1), frame(6, 2));
    assert_eq!(t.size(), size(13, 2));
    assert_eq!(t.items()[1].0, TermPoint::new(s(4), s(0)));
    assert_eq!(text_of(sub(&t, 1)), ":  ");
    assert_eq!(t.items()[2].0, TermPoint::new(s(7), s(0)));

    let config = TermConfig::default();
    let r = layout_terms(vec![(frame(4, 1), frame(6, 2)), (frame(1, 1), frame(1, 1))], false, &config);
    assert_eq!(r.items().len(), 2);
    assert_eq!(r.size(), size(13, 4));
    assert_eq!(r.items()[1].0, TermPoint::new(s(0), s(3)));
}
