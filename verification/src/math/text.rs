//! Math text, symbols and named operators.

use vstd::prelude::*;
use crate::config::RenderMode;
use crate::frame::TermFrame;
use crate::geom::Row;
use crate::scalar::TermScalar;
use crate::text::{
    chars_of, chars_width, lemma_chars_width_prefix, push_char, string_from_chars, text_width_fits, width_fits,
};
use super::fragment::{
    MathClass,
    TermLimits,
    TermMathFragment,
    TermMathFrameFragment,
    is_fragment_frame,
    is_text_frame,
    make_text_frame,
    math_class,
    math_class_spec,
};
use super::operators::{
    build_integral_operator,
    build_prod_operator,
    build_sum_operator,
    is_integral_frame,
    is_prod_frame,
    is_sum_frame,
};

verus! {

/// Whether `ff` is a text fragment of `text` with class `class`: its frame
/// is the one-row text frame, text-like, with the other defaults of
/// [`TermMathFrameFragment::new`].
pub open spec fn is_text_frag(ff: TermMathFrameFragment, text: Seq<char>, class: MathClass) -> bool {
    &&& is_text_frame(ff.frame, text)
    &&& (TermMathFrameFragment { class: MathClass::Normal, text_like: false, ..ff }).is_new_of(
        ff.frame,
    )
    &&& ff.class == class
    &&& ff.text_like
}

/// Whether `ff` is the fragment of a run of math text: an alphabetic text
/// fragment, spaced where it has more than one character (so that a soft
/// space next to a multi-letter word such as `sin` is kept).
pub open spec fn is_math_text_frag(ff: TermMathFrameFragment, text: Seq<char>) -> bool {
    &&& is_text_frame(ff.frame, text)
    &&& (TermMathFrameFragment {
        class: MathClass::Normal,
        text_like: false,
        spaced: false,
        ..ff
    }).is_new_of(ff.frame)
    &&& ff.class == MathClass::Alphabetic
    &&& ff.text_like
    &&& ff.spaced == (text.len() > 1)
}

/// A plain text fragment for `s` with the given class.
pub fn text_frag(s: &str, class: MathClass) -> (r: TermMathFrameFragment)
    requires
        width_fits(s@),
    ensures
        is_text_frag(r, s@, class),
{
    let frame = make_text_frame(s);
    TermMathFrameFragment::new(frame).with_class(class).with_text_like(true)
}

/// The fragment of a run of math text (see [`is_math_text_frag`]).
pub fn single_text_fragment(text: &str) -> (r: TermMathFrameFragment)
    requires
        width_fits(text@),
    ensures
        is_math_text_frag(r, text@),
{
    let frame = make_text_frame(text);
    let is_multi_letter = text.unicode_len() > 1;
    TermMathFrameFragment::new(frame).with_class(MathClass::Alphabetic).with_text_like(
        true,
    ).with_spaced(is_multi_letter)
}

/// The tokens of math text: the lines finished so far (each as a text
/// token where it is not empty, followed by a line break, written `None`)
/// and the line under way.
pub open spec fn line_tokens(s: Seq<char>) -> (Seq<Option<Seq<char>>>, Seq<char>)
    decreases s.len(),
{
    if s.len() == 0 {
        (Seq::empty(), Seq::empty())
    } else {
        let st = line_tokens(s.drop_last());
        if s.last() == '\n' {
            (
                st.0 + (if st.1.len() > 0 {
                    seq![Some(st.1)]
                } else {
                    Seq::empty()
                }) + seq![None],
                Seq::empty(),
            )
        } else {
            (st.0, st.1.push(s.last()))
        }
    }
}

/// The tokens of math text: its lines, each a text token where it is not
/// empty, with a line break (`None`) between each two.
pub open spec fn text_tokens(s: Seq<char>) -> Seq<Option<Seq<char>>> {
    let st = line_tokens(s);
    st.0 + if st.1.len() > 0 {
        seq![Some(st.1)]
    } else {
        Seq::empty()
    }
}

/// The fragments of math text: for each token of [`text_tokens`], a line
/// break or the text fragment of a line (see [`is_math_text_frag`]).
pub fn text_fragments(text: &str) -> (r: Vec<TermMathFragment>)
    requires
        width_fits(text@),
    ensures
        r@.len() == text_tokens(text@).len(),
        forall|i: int|
            0 <= i < r@.len() ==> match text_tokens(text@)[i] {
                None => r@[i] is Linebreak,
                Some(line) => #[trigger] r@[i] matches TermMathFragment::Frame(ff) && is_math_text_frag(
                    ff,
                    line,
                ),
            },
{
    let cs = chars_of(text);
    let mut out: Vec<TermMathFragment> = Vec::new();
    let mut cur: Vec<char> = Vec::new();
    let mut i: usize = 0;
    while i < cs.len()
        invariant
            i <= cs@.len(),
            cs@ == text@,
            width_fits(cs@),
            cur@ == line_tokens(cs@.subrange(0, i as int)).1,
            cur@.len() <= i,
            chars_width(cur@) <= chars_width(cs@.subrange(0, i as int)),
            out@.len() == line_tokens(cs@.subrange(0, i as int)).0.len(),
            forall|j: int|
                0 <= j < out@.len() ==> match line_tokens(cs@.subrange(0, i as int)).0[j] {
                    None => out@[j] is Linebreak,
                    Some(line) => #[trigger] out@[j] matches TermMathFragment::Frame(ff)
                        && is_math_text_frag(ff, line),
                },
        decreases cs@.len() - i,
    {
        let ghost p = cs@.subrange(0, i as int);
        let ghost st = line_tokens(p);
        proof {
            assert(cs@.subrange(0, i + 1).drop_last() =~= p);
            lemma_chars_width_prefix(cs@, i as int);
        }
        let c = cs[i];
        if c == '\n' {
            let ghost out0 = out@;
            if cur.len() > 0 {
                let line = string_from_chars(&cur);
                out.push(TermMathFragment::Frame(single_text_fragment(line.as_str())));
            }
            out.push(TermMathFragment::Linebreak);
            cur = Vec::new();
            proof {
                let toks = line_tokens(cs@.subrange(0, i + 1)).0;
                assert(toks == st.0 + (if st.1.len() > 0 {
                    seq![Some(st.1)]
                } else {
                    Seq::empty()
                }) + seq![None]);
                assert forall|j: int| 0 <= j < out@.len() implies match toks[j] {
                    None => out@[j] is Linebreak,
                    Some(line) => #[trigger] out@[j] matches TermMathFragment::Frame(ff)
                        && is_math_text_frag(ff, line),
                } by {
                    if j < out0.len() {
                        assert(out@[j] == out0[j]);
                        assert(toks[j] == st.0[j]);
                    }
                }
            }
        } else {
            cur.push(c);
            proof {
                assert(cur@.drop_last() =~= st.1);
            }
        }
        proof {
            lemma_chars_width_prefix(cs@, i as int);
        }
        i = i + 1;
    }
    proof {
        assert(cs@.subrange(0, cs@.len() as int) =~= cs@);
    }
    let ghost st = line_tokens(cs@);
    let ghost out0 = out@;
    if cur.len() > 0 {
        let line = string_from_chars(&cur);
        out.push(TermMathFragment::Frame(single_text_fragment(line.as_str())));
        proof {
            assert forall|j: int| 0 <= j < out@.len() implies match text_tokens(text@)[j] {
                None => out@[j] is Linebreak,
                Some(line) => #[trigger] out@[j] matches TermMathFragment::Frame(ff)
                    && is_math_text_frag(ff, line),
            } by {
                if j < out0.len() {
                    assert(out@[j] == out0[j]);
                    assert(text_tokens(text@)[j] == st.0[j]);
                }
            }
        }
    } else {
        assert(text_tokens(text@) =~= st.0);
    }
    out
}

/// Whether `ff` is the display-mode fragment of the large operator `ch`:
/// composed sum, integral (over two rows) and product frames of class
/// `Large` with limits in display mode; any other character a text
/// fragment of class `Large`.
pub open spec fn is_large_op_frag(ff: TermMathFrameFragment, ch: char, mode: RenderMode) -> bool {
    if ch == '\u{2211}' || ch == '\u{222B}' || ch == '\u{220F}' || ch == '\u{2210}' {
        &&& (TermMathFrameFragment {
            class: MathClass::Normal,
            limits: TermLimits::Never,
            ..ff
        }).is_new_of(ff.frame)
        &&& ff.class == MathClass::Large
        &&& ff.limits == TermLimits::Display
        &&& (ch == '\u{2211}' ==> is_sum_frame(ff.frame, mode))
        &&& (ch == '\u{222B}' ==> is_integral_frame(ff.frame, mode, TermScalar::Finite(2)))
        &&& ((ch == '\u{220F}' || ch == '\u{2210}') ==> is_prod_frame(ff.frame, mode))
    } else {
        &&& is_text_frame(ff.frame, seq![ch])
        &&& (TermMathFrameFragment { class: MathClass::Normal, ..ff }).is_new_of(ff.frame)
        &&& ff.class == MathClass::Large
    }
}

/// A one-char string.
fn char_string(ch: char) -> (r: String)
    ensures
        r@ == seq![ch],
{
    let mut s = String::new();
    push_char(&mut s, ch);
    assert(s@ =~= seq![ch]);
    s
}

/// The display-mode fragment of a large operator (see
/// [`is_large_op_frag`]).
pub fn large_op_fragment(ch: char, mode: RenderMode) -> (r: TermMathFrameFragment)
    ensures
        is_large_op_frag(r, ch, mode),
{
    let frame = if ch == '\u{2211}' {
        build_sum_operator(mode, TermScalar::new(1))
    } else if ch == '\u{222B}' {
        build_integral_operator(mode, TermScalar::new(2))
    } else if ch == '\u{220F}' || ch == '\u{2210}' {
        build_prod_operator(mode)
    } else {
        let s = char_string(ch);
        return TermMathFrameFragment::new(make_text_frame(s.as_str())).with_class(MathClass::Large);
    };
    TermMathFrameFragment::new(frame).with_class(MathClass::Large).with_limits(TermLimits::Display)
}

/// Whether `ff` is the fragment of the symbol character `ch`: in display
/// mode a large operator gets its composed form; any other character is a
/// one-char text fragment of its math class (`Normal` where it has none).
pub open spec fn is_symbol_frag(ff: TermMathFrameFragment, ch: char, is_display: bool, mode: RenderMode) -> bool {
    let class = match math_class_spec(ch) {
        Some(c) => c,
        None => MathClass::Normal,
    };
    if class == MathClass::Large && is_display {
        is_large_op_frag(ff, ch, mode)
    } else {
        &&& is_text_frame(ff.frame, seq![ch])
        &&& (TermMathFrameFragment { class: MathClass::Normal, ..ff }).is_new_of(ff.frame)
        &&& ff.class == class
    }
}

/// The fragments of a symbol's text, one per character (see
/// [`is_symbol_frag`]).
pub fn symbol_fragments(text: &str, is_display: bool, mode: RenderMode) -> (r: Vec<TermMathFrameFragment>)
    ensures
        r@.len() == text@.len(),
        forall|i: int| 0 <= i < r@.len() ==> is_symbol_frag(#[trigger] r@[i], text@[i], is_display, mode),
{
    let cs = chars_of(text);
    let mut out: Vec<TermMathFrameFragment> = Vec::new();
    let mut i: usize = 0;
    while i < cs.len()
        invariant
            i <= cs@.len(),
            cs@ == text@,
            out@.len() == i,
            forall|j: int| 0 <= j < i ==> is_symbol_frag(#[trigger] out@[j], text@[j], is_display, mode),
        decreases cs@.len() - i,
    {
        let ch = cs[i];
        let class = match math_class(ch) {
            Some(c) => c,
            None => MathClass::Normal,
        };
        let frag = if class == MathClass::Large && is_display {
            large_op_fragment(ch, mode)
        } else {
            let s = char_string(ch);
            TermMathFrameFragment::new(make_text_frame(s.as_str())).with_class(class)
        };
        out.push(frag);
        proof {
            assert forall|j: int| 0 <= j < i + 1 implies is_symbol_frag(
                #[trigger] out@[j],
                text@[j],
                is_display,
                mode,
            ) by {
                if j < i {
                    assert(out@[j] == out@.subrange(0, i as int)[j]);
                }
            }
        }
        i = i + 1;
    }
    out
}

/// The fragment of a named operator (such as `lim` or `sin`) laid out as
/// `frag`: its frame, of class `Large`, with limits in display mode where
/// `limits` is set, keeping the italics correction, accent attachment and
/// text-likeness of `frag`.
pub fn op_fragment(frag: TermMathFragment, limits: bool) -> (r: TermMathFrameFragment)
    ensures
        is_fragment_frame(r.frame, frag),
        r.class == MathClass::Large,
        r.limits == (if limits {
            TermLimits::Display
        } else {
            TermLimits::Never
        }),
        !r.spaced,
        r.italics_correction == (match frag {
            TermMathFragment::Frame(f) => f.italics_correction,
            _ => TermScalar::Finite(0),
        }),
        r.accent_attach == (match frag {
            TermMathFragment::Frame(f) => f.accent_attach,
            _ => TermScalar::Finite(0),
        }),
        r.text_like == frag.is_text_like_spec(),
{
    let italics = frag.italics_correction();
    let accent = frag.accent_attach();
    let text_like = frag.is_text_like();
    let lim = if limits {
        TermLimits::Display
    } else {
        TermLimits::Never
    };
    TermMathFrameFragment::new(frag.into_frame()).with_class(MathClass::Large).with_limits(
        lim,
    ).with_italics_correction(italics).with_accent_attach(accent).with_text_like(text_like)
}


/// A plain text fragment for `s` with the given class (see [`text_frag`]),
/// where the text's width fits an `i32`; `None` otherwise.
pub fn try_text_frag(s: &str, class: MathClass) -> (r: Option<TermMathFrameFragment>)
    ensures
        r is Some <==> chars_width(s@) <= i32::MAX,
        r matches Some(ff) ==> is_text_frag(ff, s@, class),
{
    if text_width_fits(s) {
        Some(text_frag(s, class))
    } else {
        None
    }
}

/// The fragments of math text (see [`text_fragments`]), where the text's
/// width fits an `i32`; `None` otherwise.
pub fn try_text_fragments(text: &str) -> (r: Option<Vec<TermMathFragment>>)
    ensures
        r is Some <==> chars_width(text@) <= i32::MAX,
        r matches Some(v) ==> {
            &&& v@.len() == text_tokens(text@).len()
            &&& forall|i: int|
                0 <= i < v@.len() ==> match text_tokens(text@)[i] {
                    None => v@[i] is Linebreak,
                    Some(line) => #[trigger] v@[i] matches TermMathFragment::Frame(ff) && is_math_text_frag(
                        ff,
                        line,
                    ),
                }
        },
{
    if text_width_fits(text) {
        Some(text_fragments(text))
    } else {
        None
    }
}

} // verus!
