use lynchpin::config::RenderMode;
use lynchpin::frame::{TermFrame, TermFrameItem};
use lynchpin::geom::{TermPoint, TermSize};
use lynchpin::math::delims::{
    arrow_l, arrow_lr, arrow_r, cases_delimiters, ceil_left, ceil_right, extract_single_char, floor_left, floor_right, hstretch_char,
    inner_content_metrics, is_delimiter_class, left_brace, left_bracket, left_paren, rep, right_brace, right_bracket, right_paren,
    stretch_chars_for, stretch_rows, stretched_delimiter, try_stretch_delimiter, unicode_brace, wrap_with_delimiters,
    layout_lr, layout_mid, layout_stretch,
};
use lynchpin::math::fragment::{make_text_frame, MathClass, TermMathFragment, TermMathFrameFragment};
use lynchpin::scalar::TermScalar;

fn s(v: i32) -> TermScalar {
    TermScalar::new(v)
}

fn st(v: Vec<char>) -> String {
    v.into_iter().collect()
}

#[test]
fn matrix_delimiters_span_the_rows_asked_for() {
    let u = RenderMode::Unicode;
    let a = RenderMode::Ascii;
    assert_eq!(st(stretched_delimiter(u, '(', s(1))), "(");
    assert_eq!(st(stretched_delimiter(u, '(', s(2))), "⎛⎝");
    assert_eq!(st(stretched_delimiter(u, '(', s(4))), "⎛⎜⎜⎝");
    assert_eq!(st(stretched_delimiter(a, '(', s(3))), "(((");
    assert_eq!(st(stretched_delimiter(a, '[', s(3))), "[|[");
    assert_eq!(st(stretched_delimiter(u, '{', s(3))), "⎧⎨⎩");
    assert_eq!(st(stretched_delimiter(u, '{', s(6))), "⎧⎪⎨⎪⎪⎩");
    assert_eq!(st(stretched_delimiter(a, '}', s(4))), "\\||/");
    assert_eq!(st(stretched_delimiter(u, '|', s(2))), "││");
    assert_eq!(st(stretched_delimiter(u, '⌊', s(3))), "⎢⎢⌊");
    assert_eq!(st(stretched_delimiter(a, '⌉', s(3))), "]||");
    assert_eq!(st(stretched_delimiter(a, '⟩', s(2))), ">>");
    assert_eq!(st(stretched_delimiter(u, 'x', s(0))), "x");
    assert_eq!(stretched_delimiter(u, '(', TermScalar::Undefined).len(), 1);
    assert_eq!(stretch_rows(s(-5)), 1);
}

#[test]
fn group_delimiters() {
    let u = RenderMode::Unicode;
    let a = RenderMode::Ascii;
    assert_eq!(st(left_paren(u, s(3))), "⎛⎜⎝");
    assert_eq!(st(right_paren(u, s(3))), "⎞⎟⎠");
    assert_eq!(st(left_bracket(u, s(2))), "⎡⎣");
    assert_eq!(st(right_bracket(a, s(3))), "]|]");
    assert_eq!(st(left_brace(a, s(2))), "/\\");
    assert_eq!(st(right_brace(u, s(5))), "⎫⎪⎬⎪⎭");
    assert_eq!(st(floor_left(u, s(2))), "│└");
    assert_eq!(st(floor_left(u, s(4))), "╷⎢⎢└");
    assert_eq!(st(floor_right(u, s(3))), "╷│┘");
    assert_eq!(st(floor_right(u, s(5))), "╷│││┘");
    assert_eq!(st(floor_right(a, s(3))), "||]");
    assert_eq!(st(ceil_left(u, s(3))), "┌│╵");
    assert_eq!(st(ceil_right(a, s(2))), "]|");
    assert_eq!(st(stretch_chars_for('<', s(2), a)), "<<");
    assert_eq!(st(stretch_chars_for('‖', s(2), u)), "║║");
    assert!(stretch_chars_for('x', s(2), u).is_empty());
    assert_eq!(st(unicode_brace(4, true)), "⎧⎨⎪⎩");
    assert_eq!(st(unicode_brace(1, false)), "}");
}

#[test]
fn horizontal_stretching() {
    let u = RenderMode::Unicode;
    let a = RenderMode::Ascii;
    assert_eq!(hstretch_char('→', s(4), u), "───→");
    assert_eq!(hstretch_char('→', s(4), a), "--->");
    assert_eq!(hstretch_char('⇐', s(3), u), "<==");
    assert_eq!(hstretch_char('↔', s(4), u), "←──⟶");
    assert_eq!(hstretch_char('⇔', s(1), a), "=");
    assert_eq!(hstretch_char('↔', s(1), a), "-");
    assert_eq!(hstretch_char('↔', s(0), u), "↔");
    assert_eq!(hstretch_char('⇔', s(2), u), "<>");
    assert_eq!(hstretch_char('─', s(3), a), "---");
    assert_eq!(hstretch_char('x', s(0), u), "x");
    assert_eq!(arrow_r(1, '=', '>', '-', '}', u), ">");
    assert_eq!(arrow_l(3, '<', '-', '<', '=', a), "<==");
    assert_eq!(arrow_lr(2, '[', '~', ']', '(', '.', ')', a), "()");
    assert_eq!(rep('a', 3), "aaa");
    assert_eq!(rep('z', 0), "");
}

#[test]
fn case_delimiter_sides() {
    assert_eq!(cases_delimiters(Some('{'), false), (Some('{'), None));
    assert_eq!(cases_delimiters(Some('{'), true), (None, Some('{')));
    assert!(is_delimiter_class(MathClass::Opening));
    assert!(is_delimiter_class(MathClass::Fence));
    assert!(!is_delimiter_class(MathClass::Binary));
}

fn text(t: &str, class: MathClass) -> TermMathFragment {
    TermMathFragment::Frame(TermMathFrameFragment::new(make_text_frame(t)).with_class(class))
}

#[test]
fn single_characters_of_fragments() {
    assert_eq!(extract_single_char(&text("(", MathClass::Opening)), Some('('));
    assert_eq!(extract_single_char(&text("ab", MathClass::Normal)), None);
    assert_eq!(extract_single_char(&TermMathFragment::Space), None);
    let mut f = TermFrame::new(TermSize::zero());
    f.push_frame(TermPoint::zero(), make_text_frame("x"));
    assert_eq!(extract_single_char(&TermMathFragment::Frame(TermMathFrameFragment::new(f))), None);
}

#[test]
fn stretching_group_delimiters_in_place() {
    let mut open = text("(", MathClass::Opening);
    try_stretch_delimiter(&mut open, s(3), s(1), RenderMode::Unicode, true);
    match &open {
        TermMathFragment::Frame(ff) => {
            assert_eq!(ff.frame.size(), TermSize::new(s(1), s(3)));
            assert_eq!(ff.frame.baseline(), s(1));
            assert_eq!(ff.class, MathClass::Opening);
            match &ff.frame.items()[1].1 {
                TermFrameItem::Text(t, _) => assert_eq!(t, "⎜"),
                _ => panic!("expected text"),
            }
        }
        _ => panic!("expected a frame"),
    }
    let mut letter = text("a", MathClass::Alphabetic);
    try_stretch_delimiter(&mut letter, s(3), s(1), RenderMode::Unicode, true);
    assert_eq!(letter.rows(), s(1));
    let mut odd = text("x", MathClass::Opening);
    try_stretch_delimiter(&mut odd, s(3), s(1), RenderMode::Unicode, true);
    assert_eq!(odd.rows(), s(1));
}

#[test]
fn inner_metrics_of_groups() {
    let frags = vec![text("(", MathClass::Opening), text("x", MathClass::Alphabetic), text(")", MathClass::Closing)];
    assert_eq!(inner_content_metrics(&frags), (s(1), s(0)));
    let mut tall = TermFrame::new(TermSize::new(s(1), s(4)));
    tall.set_baseline(s(3));
    let frags2 = vec![text("(", MathClass::Opening), TermMathFragment::Frame(TermMathFrameFragment::new(tall)), text(")", MathClass::Closing)];
    assert_eq!(inner_content_metrics(&frags2), (s(4), s(3)));
    assert_eq!(inner_content_metrics(&frags2[..2]), (s(1), s(0)));
}

#[test]
fn wrapping_a_body_with_delimiters() {
    let mut body = TermFrame::new(TermSize::new(s(3), s(2)));
    body.set_baseline(s(1));
    let w = wrap_with_delimiters(RenderMode::Unicode, body, Some('('), Some(')'));
    assert_eq!(w.frame.size(), TermSize::new(s(5), s(2)));
    assert_eq!(w.class, MathClass::Normal);
    assert_eq!(w.frame.items().len(), 3);
    assert_eq!(w.frame.items()[1].0, TermPoint::new(s(1), s(0)));
    assert_eq!(w.frame.items()[2].0, TermPoint::new(s(4), s(0)));
    let only = wrap_with_delimiters(RenderMode::Ascii, TermFrame::new(TermSize::new(s(1), s(1))), None, Some('|'));
    assert_eq!(only.frame.size(), TermSize::new(s(2), s(1)));
}

#[test]
fn left_right_groups_stretch_their_delimiters() {
    let mut tall = TermFrame::new(TermSize::new(s(1), s(4)));
    tall.set_baseline(s(3));
    let frags = vec![text("(", MathClass::Opening), TermMathFragment::Frame(TermMathFrameFragment::new(tall)), text(")", MathClass::Closing)];
    let group = layout_lr(frags, RenderMode::Unicode).unwrap();
    assert_eq!(group.frame.size(), TermSize::new(s(3), s(4)));
    assert_eq!(group.frame.baseline(), s(3));
    assert_eq!(group.class, MathClass::Normal);
    assert!(layout_lr(vec![], RenderMode::Unicode).is_none());
    let single = layout_lr(vec![text("(", MathClass::Opening)], RenderMode::Ascii).unwrap();
    assert_eq!(single.frame.size(), TermSize::new(s(1), s(1)));
}

#[test]
fn stretched_characters_and_mid_delimiters() {
    let body = text("x", MathClass::Normal);
    let r = layout_stretch(Some('→'), s(4), RenderMode::Unicode, text("→", MathClass::Normal));
    match &r {
        TermMathFragment::Frame(ff) => {
            assert_eq!(ff.frame.size(), TermSize::new(s(4), s(1)));
            match &ff.frame.items()[0].1 {
                TermFrameItem::Text(t, _) => assert_eq!(t, "───→"),
                _ => panic!("expected text"),
            }
        }
        _ => panic!("expected a frame"),
    }
    let kept = layout_stretch(None, s(4), RenderMode::Unicode, body);
    assert_eq!(kept.width(), s(1));
    let mid = layout_mid(text("|", MathClass::Fence));
    assert_eq!(mid.class(), MathClass::Relation);
}
