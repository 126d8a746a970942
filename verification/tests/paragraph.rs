use lynchpin::frame::{TermFrame, TermFrameItem};
use lynchpin::geom::{Alignment, TermPoint, TermSize};
use lynchpin::inline::paragraph::{
    build_line_frame, build_paragraph_frame, greedy_wrap, inline_text_style, layout_paragraph, DecoLine, InlineItem, ParaConfig,
};
use lynchpin::scalar::TermScalar;
use lynchpin::style::{TermColor, TermStyle, ATTR_BOLD, ATTR_CROSSED_OUT, ATTR_ITALIC, ATTR_UNDERLINED};

fn s(v: i32) -> TermScalar {
    TermScalar::new(v)
}

fn text(t: &str) -> InlineItem {
    InlineItem::Text(t.to_string(), TermStyle::plain())
}

fn space() -> InlineItem {
    InlineItem::Space(s(1))
}

fn config(indent: i32, hanging: i32, justify: bool) -> ParaConfig {
    ParaConfig { justify, first_line_indent: s(indent), hanging_indent: s(hanging), align: Alignment::Start }
}

fn texts(line: &[InlineItem]) -> Vec<String> {
    line.iter()
        .map(|i| match i {
            InlineItem::Text(t, _) => t.clone(),
            InlineItem::Space(_) => " ".to_string(),
            InlineItem::Frame(_) => "[frame]".to_string(),
            InlineItem::Break => "\n".to_string(),
        })
        .collect()
}

#[test]
fn line_frames_place_items_left_to_right() {
    let f = build_line_frame(vec![text("ab"), space(), text("cd")], false, s(10));
    assert_eq!(f.size(), TermSize::new(s(5), s(1)));
    assert_eq!(f.items().len(), 2);
    assert_eq!(f.items()[1].0, TermPoint::new(s(3), s(0)));
    let empty = build_line_frame(vec![], false, s(10));
    assert_eq!(empty.size(), TermSize::new(s(0), s(1)));
}

#[test]
fn justified_lines_widen_their_spaces() {
    let f = build_line_frame(vec![text("ab"), space(), text("cd")], true, s(9));
    assert_eq!(f.size(), TermSize::new(s(9), s(1)));
    assert_eq!(f.items()[1].0, TermPoint::new(s(7), s(0)));
}

#[test]
fn lines_align_frames_on_the_baseline() {
    let mut eq = TermFrame::new(TermSize::new(s(2), s(3)));
    eq.set_baseline(s(2));
    let f = build_line_frame(vec![text("x"), InlineItem::Frame(eq)], false, s(10));
    assert_eq!(f.size(), TermSize::new(s(3), s(3)));
    assert_eq!(f.baseline(), s(2));
    assert_eq!(f.items()[0].0, TermPoint::new(s(0), s(2)));
    assert_eq!(f.items()[1].0, TermPoint::new(s(1), s(0)));
    assert!(matches!(f.items()[1].1, TermFrameItem::Frame(_)));
}

#[test]
fn greedy_wrapping_drops_spaces_at_wraps() {
    let items = vec![text("aaa"), space(), text("bbb"), space(), text("ccc")];
    let lines = greedy_wrap(items, s(7), &config(0, 0, false));
    assert_eq!(lines.len(), 2);
    assert_eq!(texts(&lines[0].0), vec!["aaa", " ", "bbb"]);
    assert_eq!(texts(&lines[1].0), vec!["ccc"]);
    assert_eq!(lines[0].1, s(7));
}

#[test]
fn greedy_wrapping_with_indents() {
    let items = vec![text("aaa"), space(), text("bbb"), space(), text("ccc")];
    let lines = greedy_wrap(items, s(7), &config(2, 0, false));
    assert_eq!(lines.len(), 2);
    assert_eq!(texts(&lines[0].0), vec!["aaa", " "]);
    assert_eq!(lines[0].1, s(5));
    assert_eq!(texts(&lines[1].0), vec!["bbb", " ", "ccc"]);
    assert_eq!(lines[1].1, s(7));
}

#[test]
fn greedy_wrapping_breaks_and_wide_items() {
    let lines = greedy_wrap(vec![text("aaa"), InlineItem::Break, text("bbb")], s(80), &config(0, 0, false));
    assert_eq!(lines.len(), 2);
    assert_eq!(texts(&lines[1].0), vec!["bbb"]);
    let lines = greedy_wrap(vec![text("abcdefghij")], s(5), &config(0, 0, false));
    assert_eq!(lines.len(), 1);
    let lines = greedy_wrap(vec![InlineItem::Break, InlineItem::Break], s(5), &config(0, 0, false));
    assert_eq!(lines.len(), 2);
    assert!(lines[0].0.is_empty());
}

#[test]
fn paragraphs_stack_their_lines() {
    let items = vec![text("aaa"), space(), text("bbb"), space(), text("ccc")];
    let p = layout_paragraph(items, s(7), &config(0, 0, false));
    assert_eq!(p.size(), TermSize::new(s(7), s(2)));
    assert_eq!(p.items().len(), 2);
    assert_eq!(p.items()[1].0, TermPoint::new(s(0), s(1)));
    let empty = build_paragraph_frame(vec![], false);
    assert_eq!(empty.size(), TermSize::new(s(0), s(1)));
}

#[test]
fn plain_text_has_the_plain_style() {
    assert_eq!(inline_text_style(0, false, &vec![], None), TermStyle::plain());
    assert_eq!(inline_text_style(-100, false, &vec![DecoLine::Overline], None), TermStyle::plain());
}

#[test]
fn text_properties_become_cell_attributes() {
    let st = inline_text_style(300, true, &vec![DecoLine::Underline, DecoLine::Highlight, DecoLine::Strikethrough], Some(TermColor::Rgb { r: 1, g: 2, b: 3 }));
    assert_eq!(st.attributes, ATTR_BOLD + ATTR_ITALIC + ATTR_UNDERLINED + ATTR_CROSSED_OUT);
    assert!(st.has(ATTR_BOLD) && st.has(ATTR_ITALIC) && st.has(ATTR_UNDERLINED) && st.has(ATTR_CROSSED_OUT));
    assert_eq!(st.background_color, Some(TermColor::Yellow));
    assert_eq!(st.foreground_color, Some(TermColor::Rgb { r: 1, g: 2, b: 3 }));
    assert_eq!(st.underline_color, None);
    let twice = inline_text_style(0, false, &vec![DecoLine::Underline, DecoLine::Underline], None);
    assert_eq!(twice.attributes, ATTR_UNDERLINED);
}
