use lynchpin::config::RenderMode;
use lynchpin::flow::FlowMode;
use lynchpin::frame::{TermFrame, TermFrameItem, TermGeometry};
use lynchpin::geom::{TermPoint, TermSize};
use lynchpin::inline::line::{Dash, LogicalIndex};
use lynchpin::inline::linebreak::{char_len_utf8, link_class_of, linebreak_link, Breakpoint, CumulativeVec, LinkClass, Trim};
use lynchpin::inline::shaping::{cjk_punct_style, is_cjk_left_aligned_punctuation, is_cjk_right_aligned_punctuation, is_letter_or_number};
use lynchpin::inline::shaping::{is_cj_script, is_cjk_center_aligned_punctuation, is_of_cj_script, is_space, CjkPunctStyle, SCRIPT_HAN};
use lynchpin::inline::ParSituation;
use lynchpin::lists::{compose_frames, compose_list_vertical};
use lynchpin::pad::{grow, shrink, shrink_multiple};
use lynchpin::scalar::TermScalar;
use lynchpin::shapes::{line_frame, polygon_frame, term_shape_frame, ShapeError};
use lynchpin::style::TermStyle;

fn s(v: i32) -> TermScalar {
    TermScalar::new(v)
}

#[test]
fn trimming_before_breakpoints() {
    let t = Breakpoint::Normal.trim(10, "ab \u{200B}");
    assert_eq!((t.layout, t.shaping), (12, 16));
    let m = Breakpoint::Mandatory.trim(0, "ab\r\n");
    assert_eq!((m.layout, m.shaping), (2, 2));
    let h = Breakpoint::Hyphen(2, 3).trim(5, "añ");
    assert_eq!((h.layout, h.shaping), (8, 8));
    let ideo = Breakpoint::Normal.trim(0, "x\u{3000}");
    assert_eq!((ideo.layout, ideo.shaping), (1, 4));
    assert!(Breakpoint::Hyphen(1, 1).is_hyphen());
    assert!(!Breakpoint::Normal.is_hyphen());
    let u = Trim::uniform(7);
    assert_eq!((u.layout, u.shaping), (7, 7));
}

#[test]
fn utf8_lengths() {
    assert_eq!(char_len_utf8('a'), 1);
    assert_eq!(char_len_utf8('ñ'), 2);
    assert_eq!(char_len_utf8('漢'), 3);
    assert_eq!(char_len_utf8('😀'), 4);
}

#[test]
fn link_break_opportunities() {
    assert_eq!(linebreak_link("ab/cd"), vec![3]);
    assert_eq!(linebreak_link("x1y"), vec![1, 2]);
    assert_eq!(linebreak_link("a(b"), vec![1]);
    assert_eq!(linebreak_link("a//b"), vec![2, 3]);
    assert_eq!(linebreak_link(""), Vec::<usize>::new());
    let long = "abcdefghijklmnopq1";
    assert_eq!(linebreak_link(long), (1..=17).collect::<Vec<usize>>());
    assert_eq!(link_class_of('q'), LinkClass::Alphabetic);
    assert_eq!(link_class_of('7'), LinkClass::Digit);
    assert_eq!(link_class_of('['), LinkClass::Open);
    assert_eq!(link_class_of('.'), LinkClass::Other);
}

#[test]
fn cumulative_metrics() {
    let mut c = CumulativeVec::with_capacity(8);
    c.push(2, 5);
    c.push(3, 1);
    assert_eq!(c.total, 6);
    assert_eq!(c.summed, vec![0, 5, 5, 6, 6, 6]);
    assert_eq!(c.get(0), 0);
    assert_eq!(c.get(2), 5);
    assert_eq!(c.estimate(1..5), 6 - 0);
    assert_eq!(c.estimate(3..3), 0);
    c.adjust(4);
    assert_eq!(c.summed, vec![0, 5, 5, 6]);
    c.adjust(6);
    assert_eq!(c.summed, vec![0, 5, 5, 6, 6, 6]);
}

#[test]
fn logical_indices_and_enums() {
    assert_eq!(LogicalIndex::from_item_index(4), LogicalIndex(5));
    assert_eq!(LogicalIndex::start_hyphen(), LogicalIndex(0));
    assert_eq!(LogicalIndex::end_hyphen(), LogicalIndex(usize::MAX));
    assert_ne!(Dash::Soft, Dash::Hard);
    assert_ne!(ParSituation::First, ParSituation::Other);
    assert_ne!(FlowMode::Root, FlowMode::Inline);
}

#[test]
fn cjk_character_classes() {
    assert!(is_space(' '));
    assert!(is_space('\u{3000}'));
    assert!(!is_space('\t'));
    assert!(is_of_cj_script('漢'));
    assert!(is_of_cj_script('か'));
    assert!(is_of_cj_script('ー'));
    assert!(!is_of_cj_script('a'));
    assert!(is_cj_script('x', SCRIPT_HAN));
    assert!(is_cjk_center_aligned_punctuation('・', CjkPunctStyle::Gb));
    assert!(is_cjk_center_aligned_punctuation('，', CjkPunctStyle::Cns));
    assert!(!is_cjk_center_aligned_punctuation('，', CjkPunctStyle::Jis));
}

#[test]
fn line_shapes() {
    let f = line_frame(TermPoint::new(s(-3), s(0)), RenderMode::Ascii, 9).unwrap();
    assert_eq!(f.size(), TermSize::new(s(3), s(1)));
    match &f.items()[0].1 {
        TermFrameItem::Shape(sh) => {
            assert_eq!(sh.stroke_char, '-');
            assert_eq!(sh.span, 9);
        }
        _ => panic!("expected a shape"),
    }
    let err = line_frame(TermPoint::new(TermScalar::infinity(), s(0)), RenderMode::Unicode, 0);
    assert!(matches!(err, Err(ShapeError::InfiniteLine)));
    assert_eq!(ShapeError::InfiniteLine.message(), "cannot create line with infinite length");
}

#[test]
fn polygon_shapes() {
    let f = polygon_frame(vec![TermPoint::new(s(4), s(1)), TermPoint::new(s(2), s(3))], true, RenderMode::Unicode, 1).unwrap();
    assert_eq!(f.size(), TermSize::new(s(4), s(3)));
    match &f.items()[0].1 {
        TermFrameItem::Shape(sh) => {
            assert_eq!(sh.fill, Some('█'));
            assert!(matches!(&sh.geometry, TermGeometry::Path { closed: true, .. }));
        }
        _ => panic!("expected a shape"),
    }
    let empty = polygon_frame(vec![], false, RenderMode::Unicode, 1).unwrap();
    assert_eq!(empty.size(), TermSize::new(s(1), s(1)));
    assert!(empty.is_empty_items());
    let inf = polygon_frame(vec![TermPoint::new(TermScalar::infinity(), s(1))], false, RenderMode::Ascii, 1);
    assert!(matches!(inf, Err(ShapeError::InfinitePolygon)));
}

#[test]
fn rectangle_like_shapes() {
    let r = term_shape_frame(s(0), s(0), s(40), false, false, false, 3);
    assert_eq!(r.size(), TermSize::new(s(20), s(8)));
    let q = term_shape_frame(s(5), s(0), s(40), true, true, false, 3);
    assert_eq!(q.size(), TermSize::new(s(5), s(5)));
    match &q.items()[0].1 {
        TermFrameItem::Shape(sh) => {
            assert_eq!(sh.fill, Some('█'));
            assert_eq!(sh.stroke_char, ' ');
        }
        _ => panic!("expected a shape"),
    }
}

#[test]
fn shrinking_and_growing_by_insets() {
    let sz = shrink(TermSize::new(s(10), s(6)), s(1), s(2), s(1), s(1));
    assert_eq!(sz, TermSize::new(s(7), s(4)));
    assert_eq!(shrink(TermSize::new(s(2), s(1)), s(3), s(0), s(0), s(0)), TermSize::new(s(0), s(1)));
    let mut f = TermFrame::new(sz);
    f.push_text(TermPoint::zero(), "a".to_string(), TermStyle::plain());
    grow(&mut f, s(1), s(2), s(1), s(1));
    assert_eq!(f.size(), TermSize::new(s(10), s(6)));
    assert_eq!(f.items()[0].0, TermPoint::new(s(1), s(1)));
    let mut size = TermSize::new(s(10), s(6));
    let mut full = s(6);
    let mut backlog = vec![s(5), s(1)];
    let mut last = Some(s(4));
    shrink_multiple(&mut size, &mut full, &mut backlog, &mut last, s(1), s(1), s(1), s(2));
    assert_eq!(size, TermSize::new(s(8), s(3)));
    assert_eq!(full, s(3));
    assert_eq!(backlog, vec![s(2), s(0)]);
    assert_eq!(last, Some(s(1)));
}

#[test]
fn stacking_list_items() {
    let mut a = TermFrame::new(TermSize::new(s(3), s(2)));
    a.set_baseline(s(1));
    let b = TermFrame::new(TermSize::new(s(5), s(0)));
    let f = compose_list_vertical(vec![a, b], s(1), 0);
    assert_eq!(f.size(), TermSize::new(s(5), s(4)));
    assert_eq!(f.items()[1].0, TermPoint::new(s(0), s(3)));
    assert_eq!(f.baseline(), s(0));
    let single = compose_frames(vec![TermFrame::new(TermSize::new(s(2), s(2)))]);
    assert_eq!(single.size(), TermSize::new(s(2), s(2)));
    let two = compose_frames(vec![TermFrame::new(TermSize::new(s(2), s(2))), TermFrame::new(TermSize::new(s(1), s(1)))]);
    assert_eq!(two.size(), TermSize::new(s(2), s(3)));
    assert_eq!(compose_list_vertical(vec![], s(1), 0).size(), TermSize::zero());
}

#[test]
fn hyphens_repeat_in_some_languages() {
    use_repeat_hyphen();
}

fn use_repeat_hyphen() {
    assert!(lynchpin::inline::line::should_repeat_hyphen("cs", "abc"));
    assert!(lynchpin::inline::line::should_repeat_hyphen("dsb", "Abc"));
    assert!(lynchpin::inline::line::should_repeat_hyphen("es", "abc"));
    assert!(!lynchpin::inline::line::should_repeat_hyphen("es", "Abc"));
    assert!(!lynchpin::inline::line::should_repeat_hyphen("es", ""));
    assert!(!lynchpin::inline::line::should_repeat_hyphen("en", "abc"));
}

#[test]
fn cjk_punctuation_sides_and_styles() {
    use_cjk();
}

fn use_cjk() {
    assert!(is_cjk_left_aligned_punctuation('\u{3002}', false, CjkPunctStyle::Gb));
    assert!(!is_cjk_left_aligned_punctuation('\u{3002}', false, CjkPunctStyle::Cns));
    assert!(is_cjk_left_aligned_punctuation('\u{FF01}', false, CjkPunctStyle::Gb));
    assert!(!is_cjk_left_aligned_punctuation('\u{FF01}', false, CjkPunctStyle::Jis));
    assert!(is_cjk_left_aligned_punctuation('\u{201D}', true, CjkPunctStyle::Cns));
    assert!(!is_cjk_left_aligned_punctuation('\u{201D}', false, CjkPunctStyle::Cns));
    assert!(is_cjk_left_aligned_punctuation('\u{300B}', false, CjkPunctStyle::Cns));
    assert!(is_cjk_right_aligned_punctuation('\u{300A}', false));
    assert!(is_cjk_right_aligned_punctuation('\u{201C}', true));
    assert!(!is_cjk_right_aligned_punctuation('\u{201C}', false));
    assert_eq!(cjk_punct_style("zh", Some("TW")), CjkPunctStyle::Cns);
    assert_eq!(cjk_punct_style("zh", Some("CN")), CjkPunctStyle::Gb);
    assert_eq!(cjk_punct_style("zh", None), CjkPunctStyle::Gb);
    assert_eq!(cjk_punct_style("ja", None), CjkPunctStyle::Jis);
    assert_eq!(cjk_punct_style("en", Some("HK")), CjkPunctStyle::Gb);
    assert!(is_letter_or_number('a'));
    assert!(is_letter_or_number('\u{3B1}'));
    assert!(is_letter_or_number('\u{44F}'));
    assert!(is_letter_or_number('#'));
    assert!(is_letter_or_number('5'));
    assert!(!is_letter_or_number('\u{4E2D}'));
    assert!(!is_letter_or_number('!'));
}

#[test]
fn shrink_undoes_grow() {
    let mut f = TermFrame::new(TermSize::new(s(3), s(2)));
    grow(&mut f, TermScalar::new(1), TermScalar::new(2), TermScalar::new(0), TermScalar::new(1));
    assert_eq!(f.size(), TermSize::new(TermScalar::new(6), TermScalar::new(3)));
    let back = shrink(f.size(), TermScalar::new(1), TermScalar::new(2), TermScalar::new(0), TermScalar::new(1));
    assert_eq!(back, TermSize::new(TermScalar::new(3), TermScalar::new(2)));
}

#[test]
fn shrink_undoes_grow_on_unbounded_axis() {
    let mut f = TermFrame::new(TermSize::new(s(4), TermScalar::Infinity));
    grow(&mut f, s(1), s(1), s(2), s(2));
    assert_eq!(f.size(), TermSize::new(s(6), TermScalar::Infinity));
    assert_eq!(shrink(f.size(), s(1), s(1), s(2), s(2)), TermSize::new(s(4), TermScalar::Infinity));
}
