use lynchpin::text::text_width_fits;
use lynchpin::config::RenderMode;
use lynchpin::frame::{TermFrame, TermFrameItem};
use lynchpin::geom::{TermPoint, TermSize};
use lynchpin::math::attach::{
    assemble_with_pre_post, attach_slots, build_inline_script_frame, build_post_scripts, build_pre_scripts, build_script_frame, layout_limits_mode,
    layout_scripts_mode, limits_for, prime_chars,
};
use lynchpin::math::frac::{build_vertical_frac, stretch_delim};
use lynchpin::math::fragment::{make_text_frame, MathClass, TermLimits, TermMathFragment, TermMathFrameFragment};
use lynchpin::math::mat::{build_matrix_body, cases_frame, mat_frame, vec_frame};
use lynchpin::math::operators::{build_integral_operator, build_prod_operator, build_sum_operator, integral_chars, prod_chars, sum_chars};
use lynchpin::math::root::{build_radical, build_root_frame, sqrt_chars};
use lynchpin::math::scripts::{collect_chars, frame_to_subscript, frame_to_superscript, to_subscript, to_superscript};
use lynchpin::math::text::{
    large_op_fragment, op_fragment, single_text_fragment, symbol_fragments, text_frag, text_fragments, try_text_frag, try_text_fragments,
};
use lynchpin::scalar::TermScalar;
use lynchpin::style::TermStyle;

fn s(v: i32) -> TermScalar {
    TermScalar::new(v)
}

fn boxed(cols: i32, rows: i32, baseline: i32) -> TermFrame {
    let mut f = TermFrame::new(TermSize::new(s(cols), s(rows)));
    f.set_baseline(s(baseline));
    f
}

fn text_of(item: &TermFrameItem) -> String {
    match item {
        TermFrameItem::Text(t, _) => t.clone(),
        _ => String::new(),
    }
}

fn rendered(f: &TermFrame) -> String {
    f.render().to_ansi()
}

#[test]
fn composed_sum_product_and_integral() {
    let sum = build_sum_operator(RenderMode::Unicode, s(1));
    assert_eq!(rendered(&sum), "___\n╲\n╱\n‾‾‾\n");
    assert_eq!(sum.baseline(), s(2));
    let prod = build_prod_operator(RenderMode::Ascii);
    assert_eq!(rendered(&prod), "___\n| |\n| |\n");
    let int_u = build_integral_operator(RenderMode::Unicode, s(2));
    assert_eq!(rendered(&int_u), "⌠\n│\n⌡\n");
    assert_eq!(int_u.baseline(), s(2));
    let int_a = build_integral_operator(RenderMode::Ascii, s(4));
    assert_eq!(int_a.size(), TermSize::new(s(3), s(4)));
    assert_eq!(rendered(&int_a), " .-\n |\n |\n-'\n");
    assert_eq!(sum_chars(RenderMode::Ascii).diag_top, '\\');
    assert_eq!(prod_chars(RenderMode::Unicode).connect, '┳');
    assert_eq!(integral_chars(RenderMode::Unicode).mid, '│');
}

#[test]
fn vertical_fractions() {
    let f = build_vertical_frac(RenderMode::Unicode, make_text_frame("ab"), make_text_frame("c"), false);
    assert_eq!(f.frame.size(), TermSize::new(s(4), s(3)));
    assert_eq!(f.frame.baseline(), s(1));
    assert_eq!(rendered(&f.frame), " ab\n\n c\n");
    match &f.frame.items()[1].1 {
        TermFrameItem::Rule { ch, width, .. } => {
            assert_eq!(*ch, '─');
            assert_eq!(*width, s(2));
        }
        _ => panic!("expected the fraction bar"),
    }
    assert_eq!(f.frame.items()[1].0, TermPoint::new(s(1), s(1)));
    assert_eq!(f.class, MathClass::Normal);
}

#[test]
fn binomials_are_wrapped_in_parentheses() {
    let f = build_vertical_frac(RenderMode::Unicode, make_text_frame("n"), make_text_frame("k"), true);
    assert_eq!(f.frame.size(), TermSize::new(s(5), s(3)));
    assert_eq!(rendered(&f.frame), "⎛ n ⎞\n⎜   ⎟\n⎝ k ⎠\n");
    assert_eq!(String::from_iter(stretch_delim(RenderMode::Ascii, ')', s(2))), "))");
    assert_eq!(String::from_iter(stretch_delim(RenderMode::Unicode, '|', s(2))), "││");
}

#[test]
fn square_roots() {
    let r = build_radical(RenderMode::Unicode, make_text_frame("x"));
    assert_eq!(r.size(), TermSize::new(s(3), s(2)));
    assert_eq!(r.baseline(), s(1));
    assert_eq!(rendered(&r), "  _\n╲╱x\n");
    let tall = build_radical(RenderMode::Ascii, boxed(1, 2, 1));
    assert_eq!(rendered(&tall), "   _\n  /\n\\/\n");
    let with_index = build_root_frame(RenderMode::Unicode, make_text_frame("x"), Some(make_text_frame("3")));
    assert_eq!(with_index.frame.size(), TermSize::new(s(3), s(3)));
    assert_eq!(with_index.frame.baseline(), s(2));
    assert_eq!(rendered(&with_index.frame), " 3\n  _\n╲╱x\n");
    assert_eq!(sqrt_chars(RenderMode::Ascii).diag_tl, '\\');
}

#[test]
fn superscript_and_subscript_forms() {
    assert_eq!(to_superscript('2'), Some('²'));
    assert_eq!(to_superscript('n'), Some('ⁿ'));
    assert_eq!(to_superscript('q'), None);
    assert_eq!(to_subscript('0'), Some('₀'));
    assert_eq!(to_subscript('b'), None);
    let mut f = TermFrame::new(TermSize::new(s(3), s(1)));
    f.push_text(TermPoint::new(s(2), s(0)), "1".to_string(), TermStyle::plain());
    f.push_text(TermPoint::new(s(0), s(0)), "n+".to_string(), TermStyle::plain());
    assert_eq!(frame_to_superscript(&f), Some("ⁿ⁺¹".to_string()));
    assert_eq!(frame_to_subscript(&f), Some("ₙ₊₁".to_string()));
    let mut g = TermFrame::new(TermSize::new(s(3), s(1)));
    g.push_text(TermPoint::zero(), "b".to_string(), TermStyle::plain());
    assert_eq!(frame_to_subscript(&g), None);
    let mut h = TermFrame::new(TermSize::new(s(3), s(1)));
    h.push_rule(TermPoint::zero(), '-', s(2), TermStyle::plain());
    assert_eq!(frame_to_superscript(&h), None);
    let cs = collect_chars(&f, s(10)).unwrap();
    assert_eq!(cs, vec![(s(10), 'n'), (s(11), '+'), (s(12), '1')]);
}

#[test]
fn scripts_set_inline_in_unicode_mode() {
    let base_rows = s(1);
    let sup = build_script_frame(RenderMode::Unicode, base_rows, s(0), Some(make_text_frame("2")), None).unwrap();
    assert_eq!(sup.size(), TermSize::new(s(1), s(1)));
    assert_eq!(text_of(&sup.items()[0].1), "²");
    let both = build_script_frame(RenderMode::Unicode, base_rows, s(0), Some(make_text_frame("2")), Some(make_text_frame("i")));
    let both = both.unwrap();
    assert_eq!(both.size(), TermSize::new(s(1), s(3)));
    assert_eq!(both.baseline(), s(1));
    assert_eq!(both.items()[1].0, TermPoint::new(s(0), s(2)));
    let ascii = build_script_frame(RenderMode::Ascii, base_rows, s(0), Some(make_text_frame("22")), None).unwrap();
    assert_eq!(ascii.size(), TermSize::new(s(2), s(2)));
    assert!(build_script_frame(RenderMode::Unicode, base_rows, s(0), None, None).is_none());
    assert!(build_pre_scripts(RenderMode::Ascii, s(1), s(1), s(0), None, None).is_none());
    assert!(build_post_scripts(RenderMode::Unicode, s(1), s(1), s(0), Some(make_text_frame("x")), None).is_some());
}

#[test]
fn inline_script_frames() {
    let f = build_inline_script_frame(Some("²"), Some("₁"), s(3), s(1));
    assert_eq!(f.size(), TermSize::new(s(1), s(3)));
    assert_eq!(f.items()[0].0, TermPoint::new(s(0), s(0)));
    assert_eq!(f.items()[1].0, TermPoint::new(s(0), s(2)));
    let one = build_inline_script_frame(None, Some("ᵢ"), s(1), s(0));
    assert_eq!(one.items()[0].0, TermPoint::new(s(0), s(0)));
}

#[test]
fn assembling_scripts_around_a_base() {
    let pre = boxed(1, 3, 2);
    let base = boxed(2, 1, 0);
    let post = boxed(1, 2, 1);
    let f = assemble_with_pre_post(Some(pre), base, Some(post));
    assert_eq!(f.size(), TermSize::new(s(4), s(3)));
    assert_eq!(f.baseline(), s(2));
    assert_eq!(f.items()[1].0, TermPoint::new(s(1), s(0)));
    let lone = assemble_with_pre_post(None, boxed(2, 1, 0), None);
    assert_eq!(lone.size(), TermSize::new(s(2), s(1)));
}

#[test]
fn scripts_and_limits_layouts() {
    let base = TermMathFragment::Frame(TermMathFrameFragment::new(make_text_frame("x")));
    let r = layout_scripts_mode(RenderMode::Unicode, base, Some(make_text_frame("2")), None, None, None);
    assert_eq!(rendered(&r.frame), "x²\n");
    let sum = TermMathFragment::Frame(large_op_fragment('∑', RenderMode::Ascii));
    let l = layout_limits_mode(RenderMode::Ascii, sum, Some(make_text_frame("n")), Some(make_text_frame("i=0")), None, None, None, None);
    assert_eq!(l.frame.size(), TermSize::new(s(3), s(6)));
    assert_eq!(l.frame.baseline(), s(3));
    assert_eq!(rendered(&l.frame), " n\n___\n\\\n/\n---\ni=0\n");
}

#[test]
fn primes_and_limits_markers() {
    assert_eq!(prime_chars(1), vec!['′']);
    assert_eq!(prime_chars(3), vec!['‴']);
    assert_eq!(prime_chars(4), vec!['′'; 4]);
    assert_eq!(prime_chars(0), Vec::<char>::new());
    assert_eq!(limits_for(true), TermLimits::Always);
    assert_eq!(limits_for(false), TermLimits::Display);
}

#[test]
fn matrices_vectors_and_cases() {
    let body = build_matrix_body(vec![vec![make_text_frame("1"), make_text_frame("22")], vec![make_text_frame("333")]]);
    assert_eq!(body.size(), TermSize::new(s(6), s(3)));
    assert_eq!(body.baseline(), s(1));
    assert_eq!(rendered(&body), " 1  22\n\n333\n");
    let m = mat_frame(RenderMode::Ascii, vec![vec![make_text_frame("a")], vec![make_text_frame("b")]], Some('['), Some(']'));
    assert_eq!(rendered(&m.frame), "[a]\n| |\n[b]\n");
    let empty = mat_frame(RenderMode::Ascii, vec![vec![]], Some('('), Some(')'));
    assert_eq!(empty.frame.size(), TermSize::new(s(3), s(1)));
    let v = vec_frame(RenderMode::Unicode, vec![make_text_frame("x"), make_text_frame("y")], Some('('), Some(')'));
    assert_eq!(rendered(&v.frame), "⎛x⎞\n⎝y⎠\n");
    assert_eq!(v.frame.baseline(), s(1));
    let c = cases_frame(RenderMode::Ascii, vec![make_text_frame("a"), make_text_frame("b"), make_text_frame("c")], Some('{'), false);
    assert_eq!(rendered(&c.frame), "/a\n|b\n\\c\n");
    let r = cases_frame(RenderMode::Ascii, vec![make_text_frame("a")], Some('}'), true);
    assert_eq!(rendered(&r.frame), "a}\n");
}

#[test]
fn math_text_fragments() {
    let frags = text_fragments("ab\n\nc");
    assert_eq!(frags.len(), 4);
    assert!(matches!(frags[1], TermMathFragment::Linebreak));
    assert!(matches!(frags[2], TermMathFragment::Linebreak));
    assert!(frags[0].is_spaced());
    assert!(!frags[3].is_spaced());
    assert_eq!(frags[0].class(), MathClass::Alphabetic);
    assert!(text_fragments("").is_empty());
    assert_eq!(text_fragments("x\n").len(), 2);
    let single = single_text_fragment("sin");
    assert!(single.spaced && single.text_like);
    let t = text_frag("/", MathClass::Normal);
    assert!(t.text_like);
    assert_eq!(t.class, MathClass::Normal);
}

#[test]
fn symbols_and_large_operators() {
    let frags = symbol_fragments("a+∑", true, RenderMode::Unicode);
    assert_eq!(frags.len(), 3);
    assert_eq!(frags[0].class, MathClass::Alphabetic);
    assert_eq!(frags[1].class, MathClass::Binary);
    assert_eq!(frags[2].class, MathClass::Large);
    assert_eq!(frags[2].limits, TermLimits::Display);
    assert_eq!(frags[2].frame.size(), TermSize::new(s(3), s(4)));
    let inline = symbol_fragments("∑", false, RenderMode::Unicode);
    assert_eq!(inline[0].frame.size(), TermSize::new(s(1), s(1)));
    let other = large_op_fragment('⋃', RenderMode::Unicode);
    assert_eq!(other.limits, TermLimits::Never);
    assert_eq!(other.class, MathClass::Large);
    let op = op_fragment(TermMathFragment::Frame(TermMathFrameFragment::new(make_text_frame("lim")).with_text_like(true)), true);
    assert_eq!(op.class, MathClass::Large);
    assert_eq!(op.limits, TermLimits::Display);
    assert!(op.text_like);
}

#[test]
fn attachments_go_above_and_below_with_limits() {
    let r = attach_slots(TermLimits::Always, false, Some("t"), Some("b"), Some("tr"), None);
    assert_eq!(r.above, Some("t"));
    assert_eq!(r.below, Some("b"));
    assert_eq!(r.top_right, vec!["tr"]);
    assert!(r.bottom_right.is_empty());
}

#[test]
fn attachments_join_the_corner_scripts_without_limits() {
    let r = attach_slots(TermLimits::Display, false, Some("t"), Some("b"), Some("tr"), None);
    assert_eq!(r.above, None);
    assert_eq!(r.below, None);
    assert_eq!(r.top_right, vec!["tr", "t"]);
    assert_eq!(r.bottom_right, vec!["b"]);
    let shown = attach_slots(TermLimits::Display, true, Some(1), None, None, Some(2));
    assert_eq!(shown.above, Some(1));
    assert_eq!(shown.bottom_right, vec![2]);
    let never = attach_slots(TermLimits::Never, true, None, Some(3), None, None);
    assert_eq!(never.bottom_right, vec![3]);
    assert_eq!(never.below, None);
}

#[test]
fn checked_text_fragments() {
    let v = try_text_fragments("ab\nc").expect("narrow text");
    assert_eq!(v.len(), 3);
    assert!(matches!(v[1], TermMathFragment::Linebreak));
    assert_eq!(v[0].width(), TermScalar::new(2));
    let f = try_text_frag("xy", MathClass::Relation).expect("narrow text");
    assert_eq!(f.class, MathClass::Relation);
    assert_eq!(f.frame.cols(), TermScalar::new(2));
    assert!(text_width_fits("wide 字"));
}
