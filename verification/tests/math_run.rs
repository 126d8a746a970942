use lynchpin::frame::{TermFrame, TermFrameItem};
use lynchpin::geom::{TermPoint, TermSize};
use lynchpin::math::fragment::{make_text_frame, math_class, MathClass, TermLimits, TermMathFragment, TermMathFrameFragment};
use lynchpin::math::run::{
    auto_spacing, build_delimiter_frame, compose_horizontal, compose_vertical, count_scalar, layout_class, layout_equation_block, layout_equation_inline,
    pad_h, TermMathRun,
};
use lynchpin::scalar::TermScalar;
use lynchpin::style::TermStyle;

fn s(v: i32) -> TermScalar {
    TermScalar::new(v)
}

fn frag(text: &str, class: MathClass) -> TermMathFragment {
    TermMathFragment::Frame(TermMathFrameFragment::new(make_text_frame(text)).with_class(class))
}

fn boxed(cols: i32, rows: i32, baseline: i32) -> TermFrame {
    let mut f = TermFrame::new(TermSize::new(s(cols), s(rows)));
    f.set_baseline(s(baseline));
    f
}

fn classes(run: &TermMathRun) -> Vec<String> {
    run.iter()
        .iter()
        .map(|f| match f {
            TermMathFragment::Frame(ff) => format!("{:?}", ff.class),
            TermMathFragment::Spacing(c, w) => format!("sp{}{}", c.get(), if *w { "w" } else { "" }),
            TermMathFragment::Space => "space".to_string(),
            TermMathFragment::Align => "align".to_string(),
            TermMathFragment::Linebreak => "lb".to_string(),
        })
        .collect()
}

#[test]
fn binary_operators_get_spaced() {
    let run = TermMathRun::new(vec![
        frag("a", MathClass::Alphabetic),
        frag("+", MathClass::Binary),
        frag("b", MathClass::Alphabetic),
    ]);
    assert_eq!(classes(&run), vec!["Alphabetic", "sp1", "Binary", "sp1", "Alphabetic"]);
    assert_eq!(run.total_width(), s(5));
}

#[test]
fn varying_operator_becomes_binary_after_operand() {
    let run = TermMathRun::new(vec![frag("a", MathClass::Alphabetic), frag("-", MathClass::Varying), frag("b", MathClass::Alphabetic)]);
    assert_eq!(classes(&run), vec!["Alphabetic", "sp1", "Binary", "sp1", "Alphabetic"]);
    let prefix = TermMathRun::new(vec![frag("-", MathClass::Varying), frag("b", MathClass::Alphabetic)]);
    assert_eq!(classes(&prefix), vec!["Varying", "Alphabetic"]);
}

#[test]
fn relations_and_punctuation_spacing() {
    let run = TermMathRun::new(vec![
        frag("x", MathClass::Alphabetic),
        frag("=", MathClass::Relation),
        frag("<", MathClass::Relation),
        frag(",", MathClass::Punctuation),
        frag("y", MathClass::Alphabetic),
    ]);
    assert_eq!(classes(&run), vec!["Alphabetic", "sp1", "Relation", "Relation", "Punctuation", "sp1", "Alphabetic"]);
}

#[test]
fn soft_space_needs_a_spaced_neighbour() {
    let sin = TermMathFragment::Frame(TermMathFrameFragment::new(make_text_frame("sin")).with_class(MathClass::Alphabetic).with_spaced(true));
    let run = TermMathRun::new(vec![sin, TermMathFragment::Space, frag("x", MathClass::Alphabetic)]);
    assert_eq!(classes(&run), vec!["Alphabetic", "sp1", "Alphabetic"]);
    let plain = TermMathRun::new(vec![frag("a", MathClass::Alphabetic), TermMathFragment::Space, frag("x", MathClass::Alphabetic)]);
    assert_eq!(classes(&plain), vec!["Alphabetic", "Alphabetic"]);
}

#[test]
fn weak_spacing_is_dropped_at_the_ends_and_merged() {
    let run = TermMathRun::new(vec![
        TermMathFragment::Spacing(s(2), true),
        frag("a", MathClass::Alphabetic),
        TermMathFragment::Spacing(s(1), true),
        TermMathFragment::Spacing(s(3), true),
        frag("b", MathClass::Alphabetic),
        TermMathFragment::Spacing(s(4), true),
    ]);
    assert_eq!(classes(&run), vec!["Alphabetic", "sp3w", "Alphabetic"]);
    let strong = TermMathRun::new(vec![TermMathFragment::Spacing(s(2), false), frag("a", MathClass::Alphabetic)]);
    assert_eq!(classes(&strong), vec!["sp2", "Alphabetic"]);
}

#[test]
fn auto_spacing_table() {
    let a = frag("a", MathClass::Alphabetic);
    let open = frag("(", MathClass::Opening);
    let large = frag("∑", MathClass::Large);
    assert_eq!(auto_spacing(&a, false, &frag("+", MathClass::Binary)), Some(s(1)));
    assert_eq!(auto_spacing(&open, false, &a), None);
    assert_eq!(auto_spacing(&large, false, &open), None);
    assert_eq!(auto_spacing(&large, false, &a), Some(s(1)));
    assert_eq!(auto_spacing(&a, true, &a), None);
}

#[test]
fn rows_split_at_line_breaks() {
    let run = TermMathRun::new(vec![
        frag("a", MathClass::Alphabetic),
        TermMathFragment::Linebreak,
        frag("b", MathClass::Alphabetic),
        TermMathFragment::Linebreak,
    ]);
    assert!(run.is_multiline());
    assert_eq!(run.row_count(), 2);
    let rows = run.rows();
    assert_eq!(rows.len(), 2);
    assert_eq!(rows[0].0.len(), 1);
    assert_eq!(rows[1].0.len(), 1);
    let lone = TermMathRun::new(vec![TermMathFragment::Linebreak]);
    assert_eq!(lone.row_count(), 1);
    let lone_rows = lone.rows();
    assert_eq!(lone_rows.len(), 1);
    assert!(lone_rows[0].0.is_empty());
    let inner = TermMathRun::new(vec![frag("a", MathClass::Alphabetic), TermMathFragment::Linebreak, TermMathFragment::Linebreak, frag("b", MathClass::Alphabetic)]);
    assert_eq!(inner.row_count(), 3);
    assert_eq!(inner.rows().len(), 3);
    let single = TermMathRun::new(vec![frag("a", MathClass::Alphabetic)]);
    assert!(!single.is_multiline());
    assert_eq!(single.row_count(), 1);
    assert_eq!(single.class(), MathClass::Alphabetic);
}

#[test]
fn run_into_frame_aligns_baselines() {
    let mut tall = TermMathFrameFragment::new(boxed(2, 3, 2));
    tall.class = MathClass::Normal;
    let run = TermMathRun::new(vec![frag("x", MathClass::Alphabetic), TermMathFragment::Frame(tall)]);
    assert_eq!(run.ascent(), s(2));
    assert_eq!(run.descent(), s(1));
    let f = run.into_frame();
    assert_eq!(f.size(), TermSize::new(s(3), s(3)));
    assert_eq!(f.baseline(), s(2));
    assert_eq!(f.items()[0].0, TermPoint::new(s(0), s(2)));
    assert_eq!(f.items()[1].0, TermPoint::new(s(1), s(0)));
}

#[test]
fn multiline_frames_stack_rows() {
    let run = TermMathRun::new(vec![
        frag("ab", MathClass::Alphabetic),
        TermMathFragment::Linebreak,
        frag("c", MathClass::Alphabetic),
    ]);
    let f = run.multiline_frame();
    assert_eq!(f.size(), TermSize::new(s(2), s(3)));
    assert_eq!(f.baseline(), s(1));
    assert_eq!(f.items().len(), 2);
    assert_eq!(f.items()[1].0, TermPoint::new(s(0), s(2)));
}

#[test]
fn into_fragment_keeps_a_single_fragment() {
    let one = TermMathRun::from_fragment(frag("q", MathClass::Relation));
    assert_eq!(one.into_fragment().class(), MathClass::Relation);
    let two = TermMathRun::new(vec![frag("a", MathClass::Alphabetic), frag("b", MathClass::Alphabetic)]);
    let f = two.into_fragment();
    assert_eq!(f.class(), MathClass::Normal);
    assert_eq!(f.width(), s(2));
    assert!(!f.is_text_like());
}

#[test]
fn horizontal_composition() {
    let f = compose_horizontal(vec![boxed(2, 3, 1), boxed(1, 1, 0)], s(1));
    assert_eq!(f.size(), TermSize::new(s(4), s(3)));
    assert_eq!(f.baseline(), s(1));
    assert_eq!(f.items()[0].0, TermPoint::new(s(0), s(0)));
    assert_eq!(f.items()[1].0, TermPoint::new(s(3), s(1)));
    let empty = compose_horizontal(vec![], s(1));
    assert_eq!(empty.size(), TermSize::zero());
    let flat = compose_horizontal(vec![boxed(0, 0, 0)], s(0));
    assert_eq!(flat.size(), TermSize::new(s(0), s(0)));
}

#[test]
fn vertical_composition() {
    let f = compose_vertical(vec![boxed(2, 1, 0), boxed(3, 2, 1), boxed(1, 0, 0)], s(1), 1);
    assert_eq!(f.size(), TermSize::new(s(3), s(6)));
    assert_eq!(f.baseline(), s(3));
    assert_eq!(f.items()[0].0, TermPoint::new(s(0), s(0)));
    assert_eq!(f.items()[1].0, TermPoint::new(s(0), s(2)));
    assert_eq!(f.items()[2].0, TermPoint::new(s(1), s(5)));
    let centred = compose_vertical(vec![boxed(2, 1, 0), boxed(4, 1, 0)], s(0), 0);
    assert_eq!(centred.items()[0].0, TermPoint::new(s(1), s(0)));
    assert_eq!(centred.items()[1].0, TermPoint::new(s(0), s(1)));
    let clamped = compose_vertical(vec![boxed(1, 2, 1)], s(0), 9);
    assert_eq!(clamped.baseline(), s(1));
}

#[test]
fn horizontal_padding() {
    let f = pad_h(boxed(2, 2, 1), s(1), s(3));
    assert_eq!(f.size(), TermSize::new(s(6), s(2)));
    assert_eq!(f.baseline(), s(1));
    assert_eq!(f.items()[0].0, TermPoint::new(s(1), s(0)));
}

#[test]
fn delimiter_frames() {
    let f = build_delimiter_frame(vec!['⎛', '⎜', '⎝'], TermStyle::plain());
    assert_eq!(f.size(), TermSize::new(s(1), s(3)));
    assert_eq!(f.baseline(), s(1));
    match &f.items()[2].1 {
        TermFrameItem::Text(t, _) => assert_eq!(t, "⎝"),
        _ => panic!("expected text"),
    }
    let wide = build_delimiter_frame(vec!['あ'], TermStyle::plain());
    assert_eq!(wide.cols(), s(1));
    assert_eq!(build_delimiter_frame(vec![], TermStyle::plain()).size(), TermSize::zero());
    assert_eq!(count_scalar(7), s(7));
}

#[test]
fn math_classes_and_limits() {
    assert_eq!(math_class('+'), Some(MathClass::Binary));
    assert_eq!(math_class('('), Some(MathClass::Opening));
    assert_eq!(math_class('x'), Some(MathClass::Alphabetic));
    assert_eq!(math_class('∑'), Some(MathClass::Large));
    assert_eq!(math_class('€'), None);
    assert!(TermLimits::Always.active(false));
    assert!(TermLimits::Display.active(true));
    assert!(!TermLimits::Display.active(false));
    assert!(!TermLimits::Never.active(true));
}

#[test]
fn inline_equation_is_its_row() {
    let run = TermMathRun::new(vec![frag("a", MathClass::Alphabetic), frag("+", MathClass::Binary), frag("b", MathClass::Alphabetic)]);
    let f = layout_equation_inline(run);
    assert_eq!(f.size(), TermSize::new(s(5), s(1)));
    assert_eq!(f.baseline(), s(0));
    assert_eq!(f.items().len(), 3);
}

#[test]
fn inline_equation_with_line_break_stacks_rows() {
    let run = TermMathRun::new(vec![frag("ab", MathClass::Alphabetic), TermMathFragment::Linebreak, frag("c", MathClass::Alphabetic)]);
    let f = layout_equation_inline(run);
    assert_eq!(f.size(), TermSize::new(s(2), s(3)));
    assert_eq!(f.items().len(), 2);
}

#[test]
fn block_equation_gets_a_column_on_each_side() {
    let run = TermMathRun::new(vec![frag("xy", MathClass::Alphabetic)]);
    let f = layout_equation_block(run);
    assert_eq!(f.size(), TermSize::new(s(4), s(1)));
    assert_eq!(f.baseline(), s(0));
    assert_eq!(f.items().len(), 1);
    assert_eq!(f.items()[0].0, TermPoint::new(s(1), s(0)));
    match &f.items()[0].1 {
        TermFrameItem::Frame(inner) => assert_eq!(inner.size(), TermSize::new(s(2), s(1))),
        _ => panic!("expected a nested frame"),
    }
}

#[test]
fn empty_block_equation_is_not_padded() {
    let f = layout_equation_block(TermMathRun::new(vec![]));
    assert_eq!(f.size(), TermSize::new(s(0), s(0)));
    assert!(f.items().is_empty());
}

#[test]
fn block_equation_with_line_break_is_not_padded() {
    let run = TermMathRun::new(vec![frag("ab", MathClass::Alphabetic), TermMathFragment::Linebreak, frag("c", MathClass::Alphabetic)]);
    let f = layout_equation_block(run);
    assert_eq!(f.size(), TermSize::new(s(2), s(3)));
    assert_eq!(f.baseline(), s(1));
}

#[test]
fn class_element_sets_the_class_of_every_frame() {
    let mut frags = vec![frag("a", MathClass::Alphabetic), TermMathFragment::Space, frag("b", MathClass::Normal)];
    layout_class(&mut frags, MathClass::Relation);
    assert_eq!(frags.len(), 3);
    assert_eq!(frags[0].class(), MathClass::Relation);
    assert!(matches!(frags[1], TermMathFragment::Space));
    assert_eq!(frags[2].class(), MathClass::Relation);
}
