use lynchpin::config::{RenderMode, TermConfig};
use lynchpin::frame::{TermFrame, TermFrameItem};
use lynchpin::geom::{align_x, align_y, Alignment, Axes, Axis, GenericSize, TermPoint, TermSize};
use lynchpin::grid::{TermCell, TermGrid};
use lynchpin::regions::{TermRegion, TermRegions};
use lynchpin::scalar::TermScalar;
use lynchpin::style::{apply_style, style_code_list, TermColor, TermStyle, ATTR_BOLD, ATTR_ITALIC};
use lynchpin::text::{char_cols, chars_of, string_from_chars, text_cols};

fn s(v: i32) -> TermScalar {
    TermScalar::new(v)
}

fn size(c: i32, r: i32) -> TermSize {
    TermSize::new(s(c), s(r))
}

#[test]
fn sizes_and_points() {
    assert!(size(0, 3).is_empty());
    assert!(!size(2, 3).is_empty());
    assert_eq!(size(2, 5).max(size(4, 1)), size(4, 5));
    assert_eq!(size(2, 5).min(size(4, 1)), size(2, 1));
    assert_eq!(size(2, 5).add(size(4, 1)), size(6, 6));
    assert_eq!(size(2, 5).sub(size(4, 1)), size(-2, 4));
    assert!(size(2, 5).is_finite());
    assert!(!TermSize::new(TermScalar::infinity(), s(1)).is_finite());
    let p = TermPoint::new(s(1), s(2));
    assert_eq!(p.add(TermPoint::new(s(3), s(4))), TermPoint::new(s(4), s(6)));
    assert_eq!(p.sub(TermPoint::new(s(3), s(4))), TermPoint::new(s(-2), s(-2)));
    assert_eq!(p.neg(), TermPoint::new(s(-1), s(-2)));
    assert_eq!(p.with_col(s(9)), TermPoint::new(s(9), s(2)));
    assert_eq!(p.with_row(s(9)), TermPoint::new(s(1), s(9)));
    assert_eq!(TermPoint::zero(), TermPoint::new(s(0), s(0)));
}

#[test]
fn alignment_offsets() {
    assert_eq!(align_x(Alignment::Start, s(10), s(4)), s(0));
    assert_eq!(align_x(Alignment::Center, s(10), s(4)), s(3));
    assert_eq!(align_x(Alignment::End, s(10), s(4)), s(6));
    assert_eq!(align_y(Alignment::Center, s(5), s(2)), s(1));
    assert_eq!(align_y(Alignment::End, s(2), s(5)), s(0));
}

#[test]
fn generic_sizes_follow_the_main_axis() {
    let g = GenericSize::new(s(3), s(7));
    let a = g.into_axes(Axis::Y);
    assert_eq!((a.x, a.y), (s(3), s(7)));
    let b = GenericSize::new(s(3), s(7)).into_axes(Axis::X);
    assert_eq!((b.x, b.y), (s(7), s(3)));
    assert_eq!(GenericSize::new(s(3), s(7)).to_point(Axis::X), TermPoint::new(s(7), s(3)));
    let z = GenericSize::<TermScalar>::zero();
    assert_eq!((z.cross, z.main), (s(0), s(0)));
}

#[test]
fn grid_read_after_write() {
    let mut g = TermGrid::blank(s(3), s(2));
    assert_eq!(g.cell_count(), 6);
    let cell = TermCell { ch: 'x', style: TermStyle::plain() };
    g.set(s(2), s(1), cell);
    assert_eq!(g.get(s(2), s(1)), cell);
    assert_eq!(g.get(s(1), s(1)), TermCell::blank());
    assert_eq!(g.get(s(5), s(0)), TermCell::blank());
    g.set(s(7), s(7), cell);
    assert_eq!(g.cell_count(), 6);
    assert!(g.cell_at(0).is_blank());
    assert_eq!(g.cell_at(5), cell);
}

#[test]
fn grid_text_and_ansi() {
    let mut g = TermGrid::blank(s(4), s(2));
    g.put_text(s(0), s(0), "hi", TermStyle::plain());
    assert_eq!(g.to_ansi(), "hi\n\n");
    let bold_red = TermStyle {
        foreground_color: Some(TermColor::Red),
        background_color: None,
        underline_color: None,
        attributes: ATTR_BOLD,
    };
    let mut h = TermGrid::blank(s(4), s(1));
    h.put_text(s(1), s(0), "ok", bold_red);
    assert_eq!(h.to_ansi(), " \u{1b}[31;1mok\u{1b}[0m\n");
    let mut r = TermGrid::blank(s(5), s(1));
    r.put_rule(s(1), s(0), '-', s(3), TermStyle::plain());
    assert_eq!(r.to_ansi(), " ---\n");
}

#[test]
fn style_codes_and_sequences() {
    let st = TermStyle {
        foreground_color: Some(TermColor::Green),
        background_color: Some(TermColor::Blue),
        underline_color: None,
        attributes: ATTR_BOLD | ATTR_ITALIC,
    };
    assert_eq!(style_code_list(&st), vec![32u8, 44, 1, 3]);
    let mut out: Vec<char> = Vec::new();
    apply_style(&mut out, &st);
    assert_eq!(out.iter().collect::<String>(), "\u{1b}[32;44;1;3m");
    assert!(st.has(ATTR_ITALIC));
    assert_eq!(TermStyle::plain(), TermStyle::default());
}

#[test]
fn frame_render_places_nested_text() {
    let mut inner = TermFrame::new(size(2, 1));
    inner.push_text(TermPoint::zero(), "ab".to_string(), TermStyle::plain());
    let mut outer = TermFrame::new(size(5, 2));
    outer.push_frame(TermPoint::new(s(2), s(1)), inner);
    outer.push_text(TermPoint::new(s(0), s(0)), "z".to_string(), TermStyle::plain());
    let grid = outer.render();
    assert_eq!(grid.to_ansi(), "z\n  ab\n");
}

#[test]
fn frame_translate_and_resize() {
    let mut f = TermFrame::new(size(2, 1));
    f.push_text(TermPoint::new(s(1), s(0)), "a".to_string(), TermStyle::plain());
    f.translate(TermPoint::new(s(2), s(3)));
    assert_eq!(f.items()[0].0, TermPoint::new(s(3), s(3)));
    f.resize(size(6, 5), Axes::new(Alignment::Center, Alignment::End));
    assert_eq!(f.size(), size(6, 5));
    assert_eq!(f.items()[0].0, TermPoint::new(s(5), s(7)));
    let mut g = TermFrame::new(size(1, 1));
    g.translate(TermPoint::zero());
    assert!(g.is_empty_items());
}

#[test]
fn frame_metrics() {
    let mut f = TermFrame::new(size(4, 3));
    f.set_baseline(s(1));
    assert_eq!(f.ascent(), s(1));
    assert_eq!(f.descent(), s(2));
    assert!(f.has_baseline());
    let t = TermFrame::text("abc".to_string(), TermStyle::plain(), s(3), s(1));
    match &t.items()[0].1 {
        TermFrameItem::Text(txt, _) => assert_eq!(txt, "abc"),
        _ => panic!("expected text"),
    }
}

#[test]
fn character_widths() {
    assert_eq!(char_cols('a'), s(1));
    assert_eq!(char_cols('あ'), s(2));
    assert_eq!(char_cols('\u{7}'), s(1));
    assert_eq!(text_cols("aあb"), s(4));
    assert_eq!(chars_of("añb"), vec!['a', 'ñ', 'b']);
    assert_eq!(string_from_chars(&vec!['x', 'y']), "xy");
}

#[test]
fn render_modes_and_config() {
    assert_eq!(RenderMode::default(), RenderMode::Unicode);
    assert!(RenderMode::Unicode.is_unicode());
    assert!(RenderMode::Ascii.is_ascii());
    assert_eq!(RenderMode::Unicode.hbar(), '─');
    assert_eq!(RenderMode::Ascii.hbar(), '-');
    assert_eq!(RenderMode::Unicode.vbar(), '│');
    assert_eq!(RenderMode::Ascii.vbar(), '|');
    assert_eq!(RenderMode::Ascii.left_paren(), '(');
    assert_eq!(RenderMode::Ascii.right_brace(), '}');
    let c = TermConfig::default();
    assert_eq!(c.mode, RenderMode::Unicode);
    assert_eq!(c.indent, s(2));
    assert_eq!(c.block_gap, s(1));
    assert_eq!(c.par_gap, s(1));
}

#[test]
fn regions_advance_through_the_backlog() {
    let mut rs = TermRegions::one(size(10, 5), Axes::new(false, false));
    assert!(!rs.may_break());
    assert_eq!(rs.base(), size(10, 5));
    rs.backlog = vec![s(7), s(3)];
    assert!(rs.may_break());
    assert!(rs.may_progress());
    rs.next();
    assert_eq!(rs.size, size(10, 7));
    assert_eq!(rs.backlog, vec![s(3)]);
    let sizes = rs.iter();
    assert_eq!(sizes, vec![size(10, 7), size(10, 3)]);
    let mapped = rs.map(|sz| TermSize::new(sz.cols, sz.rows.sub(TermScalar::new(1))));
    assert_eq!(mapped.size, size(10, 6));
    assert_eq!(mapped.backlog, vec![s(2)]);
}

#[test]
fn repeating_regions_are_stable() {
    let mut rs = TermRegions::repeat(size(8, 4), Axes::new(true, false));
    assert!(rs.may_break());
    assert!(!rs.may_progress());
    assert!(!rs.is_full());
    rs.next();
    assert_eq!(rs.size, size(8, 4));
    assert_eq!(rs.full, s(4));
    let r = TermRegion::new(size(3, 3), Axes::new(false, true));
    assert_eq!(r.base(), size(3, 3));
    let from = TermRegions::from_region(r);
    assert_eq!(from.size, size(3, 3));
    assert_eq!(from.last, None);
}

#[test]
fn sizes_map_and_fragments() {
    use_fragments();
    let m = size(2, 3).map(|x: TermScalar| x.add(TermScalar::new(1)));
    assert_eq!(m, size(3, 4));
}

fn use_fragments() {
    let f = lynchpin::frame::fragment_from_frame(TermFrame::new(size(1, 1)));
    assert_eq!(f.len(), 1);
    let g = lynchpin::frame::fragment_from_frames(vec![TermFrame::new(size(1, 1)), TermFrame::new(size(2, 2))]);
    let frames = lynchpin::frame::fragment_into_frames(g);
    assert_eq!(frames[1].size(), size(2, 2));
}
