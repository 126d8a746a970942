use lynchpin::flow::block::{distribute_fixed_height, unbreakable_pod};
use lynchpin::flow::distribute::{distribute, FlowConfig, Item};
use lynchpin::frame::{TermFrame, TermFrameItem};
use lynchpin::geom::{Alignment, Axes, TermPoint, TermSize};
use lynchpin::regions::TermRegions;
use lynchpin::scalar::TermScalar;

fn s(v: i32) -> TermScalar {
    TermScalar::new(v)
}

fn size(c: i32, r: i32) -> TermSize {
    TermSize::new(s(c), s(r))
}

fn frame(c: i32, r: i32) -> TermFrame {
    TermFrame::new(size(c, r))
}

fn regions(rows: i32, backlog: &[i32], last: Option<i32>) -> TermRegions {
    TermRegions {
        size: size(20, rows),
        full: s(rows),
        expand: Axes::new(false, false),
        backlog: backlog.iter().map(|&h| s(h)).collect(),
        last: last.map(s),
    }
}

fn shrink_config() -> FlowConfig {
    FlowConfig { width: s(20), expand: Axes::new(false, false) }
}

fn frame_item(c: i32, r: i32, align: Alignment) -> Item {
    Item::Frame { frame: frame(c, r), align_x: align, need: s(r) }
}

fn child_pos(f: &TermFrame, i: usize) -> TermPoint {
    f.items()[i].0
}

fn child_size(f: &TermFrame, i: usize) -> TermSize {
    match &f.items()[i].1 {
        TermFrameItem::Frame(sub) => sub.size(),
        _ => panic!("not a frame"),
    }
}

#[test]
fn distribute_breaks_on_overflow_and_strong_break() {
    let items = vec![
        frame_item(4, 2, Alignment::Start),
        Item::Abs(s(1), false),
        frame_item(6, 2, Alignment::End),
        Item::Tag(7),
        Item::Break(true),
        frame_item(3, 1, Alignment::Center),
    ];
    let out = distribute(items, &shrink_config(), &regions(3, &[3, 3], None));
    assert_eq!(out.len(), 3);
    // First region: the first frame only, shrink-wrapped.
    assert_eq!(out[0].size(), size(4, 2));
    assert_eq!(out[0].items().len(), 1);
    assert_eq!(child_pos(&out[0], 0), TermPoint::new(s(0), s(0)));
    // Second region: the second frame and the tag met after it.
    assert_eq!(out[1].size(), size(6, 2));
    assert_eq!(out[1].items().len(), 2);
    assert_eq!(child_size(&out[1], 0), size(6, 2));
    assert_eq!(child_pos(&out[1], 1), TermPoint::new(s(0), s(2)));
    assert!(matches!(out[1].items()[1].1, TermFrameItem::Tag(7)));
    // Third region: after the strong break.
    assert_eq!(out[2].size(), size(3, 1));
}

#[test]
fn distribute_stacks_with_blank_rows_and_aligns() {
    let items = vec![
        frame_item(4, 2, Alignment::Start),
        frame_item(8, 1, Alignment::End),
        frame_item(2, 0, Alignment::Center),
    ];
    let out = distribute(items, &shrink_config(), &TermRegions::one(size(20, 50), Axes::new(false, false)));
    assert_eq!(out.len(), 1);
    let f = &out[0];
    // Heights 2, 1 and (at least) 1, with a blank row between each two.
    assert_eq!(f.size(), size(8, 6));
    assert_eq!(child_pos(f, 0), TermPoint::new(s(0), s(0)));
    assert_eq!(child_pos(f, 1), TermPoint::new(s(0), s(3)));
    assert_eq!(child_pos(f, 2), TermPoint::new(s(3), s(5)));
}

#[test]
fn distribute_expanding_flow_uses_its_width() {
    let cfg = FlowConfig { width: s(20), expand: Axes::new(true, false) };
    let items = vec![frame_item(6, 1, Alignment::Center), frame_item(6, 1, Alignment::End)];
    let out = distribute(items, &cfg, &TermRegions::one(size(20, 50), Axes::new(true, false)));
    assert_eq!(out.len(), 1);
    assert_eq!(out[0].size(), size(20, 3));
    assert_eq!(child_pos(&out[0], 0), TermPoint::new(s(7), s(0)));
    assert_eq!(child_pos(&out[0], 1), TermPoint::new(s(14), s(2)));
}

#[test]
fn distribute_trims_weak_spacing_before_fractional_spacing() {
    let with_fr = vec![
        frame_item(4, 2, Alignment::Start),
        Item::Abs(s(1), true),
        Item::Fr,
        frame_item(4, 1, Alignment::Start),
    ];
    let out = distribute(with_fr, &shrink_config(), &regions(3, &[3], None));
    assert_eq!(out.len(), 1);
    assert_eq!(out[0].items().len(), 2);

    let without_fr = vec![
        frame_item(4, 2, Alignment::Start),
        Item::Abs(s(1), true),
        frame_item(4, 1, Alignment::Start),
    ];
    let out = distribute(without_fr, &shrink_config(), &regions(3, &[3], None));
    assert_eq!(out.len(), 2);
}

#[test]
fn distribute_repeating_regions_break_only_when_asked() {
    // Regions that repeat at the same height give no more room, so an
    // overflow does not break; a strong break does.
    let items = vec![
        frame_item(4, 3, Alignment::Start),
        frame_item(4, 3, Alignment::Start),
        Item::Break(false),
        frame_item(4, 3, Alignment::Start),
        Item::Break(true),
        frame_item(4, 3, Alignment::Start),
    ];
    let out = distribute(items, &shrink_config(), &TermRegions::repeat(size(20, 4), Axes::new(false, false)));
    assert_eq!(out.len(), 2);
    assert_eq!(out[0].items().len(), 3);
    assert_eq!(out[1].items().len(), 1);
}

#[test]
fn distribute_keeps_tags_without_frames_and_skips_empty_regions() {
    let out = distribute(vec![Item::Tag(3)], &shrink_config(), &regions(5, &[], None));
    assert_eq!(out.len(), 1);
    assert_eq!(out[0].size(), size(0, 0));
    assert!(matches!(out[0].items()[0].1, TermFrameItem::Tag(3)));

    let out = distribute(vec![Item::Flush, Item::Abs(s(2), false)], &shrink_config(), &regions(5, &[], None));
    assert_eq!(out.len(), 0);
}

#[test]
fn items_that_migrate() {
    assert!(Item::Abs(s(1), true).migratable());
    assert!(Item::Tag(1).migratable());
    assert!(!Item::Fr.migratable());
    assert!(!Item::Break(true).migratable());
    assert!(!frame_item(1, 1, Alignment::Start).migratable());
}

#[test]
fn fixed_height_spreads_over_regions() {
    let (first, rest) = distribute_fixed_height(s(7), regions(3, &[3, 3], None));
    assert_eq!(first, s(3));
    assert_eq!(rest, vec![s(3), s(1)]);

    // What does not fit goes to the last region.
    let (first, rest) = distribute_fixed_height(s(10), regions(3, &[3, 3], None));
    assert_eq!(first, s(3));
    assert_eq!(rest, vec![s(3), s(4)]);

    // A height that fits the first region shrinks it to fit.
    let (first, rest) = distribute_fixed_height(s(2), regions(3, &[3, 3], None));
    assert_eq!(first, s(2));
    assert!(rest.is_empty());

    // Repeating regions keep taking their height.
    let (first, rest) = distribute_fixed_height(s(10), TermRegions::repeat(size(5, 4), Axes::new(false, false)));
    assert_eq!(first, s(4));
    assert_eq!(rest, vec![s(4), s(2)]);
}

#[test]
fn fixed_height_not_positive_always_fits() {
    let (first, rest) = distribute_fixed_height(s(-2), regions(3, &[3], None));
    assert_eq!(first, s(-2));
    assert!(rest.is_empty());
    let (first, rest) = distribute_fixed_height(s(0), regions(3, &[3], None));
    assert_eq!(first, s(0));
    assert!(rest.is_empty());
}

#[test]
fn fixed_height_infinite_fills_the_last_region() {
    let (first, rest) = distribute_fixed_height(TermScalar::infinity(), regions(3, &[2], None));
    assert_eq!(first, s(3));
    assert_eq!(rest, vec![TermScalar::infinity()]);
}

#[test]
fn pods_expand_where_sized() {
    let pod = unbreakable_pod(Some(s(5)), None, size(10, 20));
    assert_eq!(pod.size, size(5, 20));
    assert_eq!(pod.expand, Axes::new(true, false));
    let pod = unbreakable_pod(Some(TermScalar::infinity()), Some(s(3)), size(10, 20));
    assert_eq!(pod.size, TermSize::new(TermScalar::infinity(), s(3)));
    assert_eq!(pod.expand, Axes::new(false, true));
}
