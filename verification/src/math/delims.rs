//! Stretched delimiters and horizontally stretched glyphs.
//!
//! A terminal cannot scale glyphs, so a delimiter of height `h` is drawn as
//! a column of `h` characters (box-drawing pieces in Unicode mode, plain
//! ASCII otherwise), and a stretched arrow or line as a row of characters.

use vstd::prelude::*;
use crate::config::RenderMode;
use crate::frame::{TermFrame, TermFrameItem};
use crate::geom::{Col, Row, TermPoint};
use crate::scalar::{TermScalar, seq_max};
use crate::style::TermStyle;
use crate::text::{chars_of, push_char};
use super::fragment::{MathClass, TermLimits, TermMathFragment, TermMathFrameFragment, is_text_frame, make_text_frame};
use super::run::{
    TermMathRun,
    build_delimiter_frame,
    compose_horizontal,
    is_delimiter_frame,
    is_hcomposition,
    is_row_frame,
    run_spec,
};

verus! {

// ── Column shapes ────────────────────────────────────────────────────────

/// `n` copies of `c` (none for `n <= 0`).
pub open spec fn rep_seq(c: char, n: int) -> Seq<char> {
    Seq::new(if n < 0 {
        0
    } else {
        n as nat
    }, |_i: int| c)
}

/// `top`, then `n - 2` copies of `mid`, then `bot`.
pub open spec fn column(top: char, mid: char, bot: char, n: int) -> Seq<char> {
    seq![top] + rep_seq(mid, n - 2) + seq![bot]
}

/// A single char for `n == 1`, otherwise [`column`].
pub open spec fn sym_column(n: int, single: char, top: char, mid: char, bot: char) -> Seq<char> {
    if n == 1 {
        seq![single]
    } else {
        column(top, mid, bot, n)
    }
}

/// A brace of `n` rows: a single char for one row, top and bottom for two,
/// and otherwise top, middle and bottom pieces with the extension pieces
/// split around the middle (the extra one below).
pub open spec fn brace_column(
    n: int,
    single: char,
    top: char,
    center: char,
    mid: char,
    bot: char,
) -> Seq<char> {
    if n == 1 {
        seq![single]
    } else if n == 2 {
        seq![top, bot]
    } else {
        let m = n - 3;
        let t = m / 2;
        seq![top] + rep_seq(mid, t) + seq![center] + rep_seq(mid, m - t) + seq![bot]
    }
}

/// The number of rows a delimiter of height `height` spans: the height
/// read as an `i32`, at least one.
pub open spec fn stretch_rows_spec(height: Row) -> int {
    height.max_spec(TermScalar::Finite(1)).get_spec() as int
}

/// The number of rows a delimiter of height `height` spans.
pub fn stretch_rows(height: Row) -> (h: usize)
    ensures
        h == stretch_rows_spec(height),
        1 <= h <= i32::MAX,
{
    let g = height.max(TermScalar::new(1)).get();
    assert(g >= 1);
    g as usize
}

/// Append `n` copies of `c`.
fn push_n(v: &mut Vec<char>, c: char, n: usize)
    ensures
        final(v)@ == old(v)@ + rep_seq(c, n as int),
{
    let ghost start = v@;
    let mut i: usize = 0;
    while i < n
        invariant
            i <= n,
            v@ == start + rep_seq(c, i as int),
        decreases n - i,
    {
        v.push(c);
        i = i + 1;
        assert(v@ =~= start + rep_seq(c, i as int));
    }
}

/// `n` copies of `c`.
fn rep_vec(c: char, n: usize) -> (r: Vec<char>)
    ensures
        r@ == rep_seq(c, n as int),
{
    let mut v: Vec<char> = Vec::new();
    push_n(&mut v, c, n);
    assert(v@ =~= rep_seq(c, n as int));
    v
}

/// [`sym_column`] as a vector (`n >= 1`).
fn sym_vec(n: usize, single: char, top: char, mid: char, bot: char) -> (r: Vec<char>)
    requires
        n >= 1,
    ensures
        r@ == sym_column(n as int, single, top, mid, bot),
{
    let mut v: Vec<char> = Vec::new();
    if n == 1 {
        v.push(single);
        assert(v@ =~= seq![single]);
    } else {
        v.push(top);
        push_n(&mut v, mid, n - 2);
        v.push(bot);
        assert(v@ =~= column(top, mid, bot, n as int));
    }
    v
}

/// [`brace_column`] as a vector (`n >= 1`).
fn brace_vec(n: usize, single: char, top: char, center: char, mid: char, bot: char) -> (r: Vec<
    char,
>)
    requires
        n >= 1,
    ensures
        r@ == brace_column(n as int, single, top, center, mid, bot),
{
    let mut v: Vec<char> = Vec::new();
    if n == 1 {
        v.push(single);
        assert(v@ =~= seq![single]);
    } else if n == 2 {
        v.push(top);
        v.push(bot);
        assert(v@ =~= seq![top, bot]);
    } else {
        let mid_rows = n - 3;
        let top_mids = mid_rows / 2;
        let bot_mids = mid_rows - top_mids;
        v.push(top);
        push_n(&mut v, mid, top_mids);
        v.push(center);
        push_n(&mut v, mid, bot_mids);
        v.push(bot);
        assert(v@ =~= brace_column(n as int, single, top, center, mid, bot));
    }
    v
}

/// A Unicode brace of `height` rows (left or right).
pub open spec fn unicode_brace_spec(height: int, left: bool) -> Seq<char> {
    if left {
        brace_column(height, '{', '⎧', '⎨', '⎪', '⎩')
    } else {
        brace_column(height, '}', '⎫', '⎬', '⎪', '⎭')
    }
}

/// A Unicode brace of `height` rows, built from the brace pieces; the
/// middle piece sits at the centre with the extension pieces split around
/// it.
pub fn unicode_brace(height: usize, left: bool) -> (r: Vec<char>)
    requires
        height >= 1,
    ensures
        r@ == unicode_brace_spec(height as int, left),
        r@.len() == height,
{
    if left {
        brace_vec(height, '{', '⎧', '⎨', '⎪', '⎩')
    } else {
        brace_vec(height, '}', '⎫', '⎬', '⎪', '⎭')
    }
}

// ── Matrix and case delimiters ───────────────────────────────────────────

/// The column of characters that stretches `ch` over `h` rows in `mode`:
/// box-drawing pieces for parentheses, brackets, braces, floors and
/// ceilings in Unicode mode, ASCII approximations otherwise; bars, double
/// bars and angle brackets repeat; any other character repeats itself.
pub open spec fn stretched_delimiter_spec(mode: RenderMode, ch: char, h: int) -> Seq<char> {
    let uni = mode is Unicode;
    if ch == '(' {
        if uni {
            sym_column(h, '(', '⎛', '⎜', '⎝')
        } else {
            rep_seq('(', h)
        }
    } else if ch == ')' {
        if uni {
            sym_column(h, ')', '⎞', '⎟', '⎠')
        } else {
            rep_seq(')', h)
        }
    } else if ch == '[' {
        if uni {
            sym_column(h, '[', '⎡', '⎢', '⎣')
        } else {
            sym_column(h, '[', '[', '|', '[')
        }
    } else if ch == ']' {
        if uni {
            sym_column(h, ']', '⎤', '⎥', '⎦')
        } else {
            sym_column(h, ']', ']', '|', ']')
        }
    } else if ch == '{' {
        if uni {
            unicode_brace_spec(h, true)
        } else {
            sym_column(h, '{', '/', '|', '\\')
        }
    } else if ch == '}' {
        if uni {
            unicode_brace_spec(h, false)
        } else {
            sym_column(h, '}', '\\', '|', '/')
        }
    } else if ch == '|' {
        rep_seq(mode.vbar_spec(), h)
    } else if ch == '‖' || ch == '∥' {
        rep_seq(if uni { '║' } else { '|' }, h)
    } else if ch == '⌊' {
        if uni {
            rep_seq('⎢', h - 1) + seq!['⌊']
        } else {
            rep_seq('|', h - 1) + seq!['[']
        }
    } else if ch == '⌋' {
        if uni {
            rep_seq('⎥', h - 1) + seq!['⌋']
        } else {
            rep_seq('|', h - 1) + seq![']']
        }
    } else if ch == '⌈' {
        if uni {
            seq!['⌈'] + rep_seq('⎢', h - 1)
        } else {
            seq!['['] + rep_seq('|', h - 1)
        }
    } else if ch == '⌉' {
        if uni {
            seq!['⌉'] + rep_seq('⎥', h - 1)
        } else {
            seq![']'] + rep_seq('|', h - 1)
        }
    } else if ch == '⟨' || ch == '〈' {
        rep_seq(if uni { '⟨' } else { '<' }, h)
    } else if ch == '⟩' || ch == '〉' {
        rep_seq(if uni { '⟩' } else { '>' }, h)
    } else {
        rep_seq(ch, h)
    }
}

/// Map a delimiter character to a vertically stretched column of
/// characters spanning `height` rows (at least one) in `mode`.  The column
/// always has exactly that many characters.
pub fn stretched_delimiter(mode: RenderMode, ch: char, height: Row) -> (r: Vec<char>)
    ensures
        r@ == stretched_delimiter_spec(mode, ch, stretch_rows_spec(height)),
        r@.len() == stretch_rows_spec(height),
{
    let h = stretch_rows(height);
    let uni = mode.is_unicode();
    let v = if ch == '(' {
        if uni {
            sym_vec(h, '(', '⎛', '⎜', '⎝')
        } else {
            rep_vec('(', h)
        }
    } else if ch == ')' {
        if uni {
            sym_vec(h, ')', '⎞', '⎟', '⎠')
        } else {
            rep_vec(')', h)
        }
    } else if ch == '[' {
        if uni {
            sym_vec(h, '[', '⎡', '⎢', '⎣')
        } else {
            sym_vec(h, '[', '[', '|', '[')
        }
    } else if ch == ']' {
        if uni {
            sym_vec(h, ']', '⎤', '⎥', '⎦')
        } else {
            sym_vec(h, ']', ']', '|', ']')
        }
    } else if ch == '{' {
        if uni {
            unicode_brace(h, true)
        } else {
            sym_vec(h, '{', '/', '|', '\\')
        }
    } else if ch == '}' {
        if uni {
            unicode_brace(h, false)
        } else {
            sym_vec(h, '}', '\\', '|', '/')
        }
    } else if ch == '|' {
        rep_vec(mode.vbar(), h)
    } else if ch == '‖' || ch == '∥' {
        rep_vec(if uni { '║' } else { '|' }, h)
    } else if ch == '⌊' {
        let mut v = if uni {
            rep_vec('⎢', h - 1)
        } else {
            rep_vec('|', h - 1)
        };
        v.push(if uni { '⌊' } else { '[' });
        v
    } else if ch == '⌋' {
        let mut v = if uni {
            rep_vec('⎥', h - 1)
        } else {
            rep_vec('|', h - 1)
        };
        v.push(if uni { '⌋' } else { ']' });
        v
    } else if ch == '⌈' {
        let mut v: Vec<char> = Vec::new();
        v.push(if uni { '⌈' } else { '[' });
        push_n(&mut v, if uni { '⎢' } else { '|' }, h - 1);
        v
    } else if ch == '⌉' {
        let mut v: Vec<char> = Vec::new();
        v.push(if uni { '⌉' } else { ']' });
        push_n(&mut v, if uni { '⎥' } else { '|' }, h - 1);
        v
    } else if ch == '⟨' || ch == '〈' {
        rep_vec(if uni { '⟨' } else { '<' }, h)
    } else if ch == '⟩' || ch == '〉' {
        rep_vec(if uni { '⟩' } else { '>' }, h)
    } else {
        rep_vec(ch, h)
    };
    assert(v@ =~= stretched_delimiter_spec(mode, ch, h as int));
    v
}

/// Which side of a `cases` block gets the delimiter: the closing side when
/// reversed, the opening side otherwise.
pub fn cases_delimiters(delim_open: Option<char>, reverse: bool) -> (r: (Option<char>, Option<char>))
    ensures
        r == (if reverse {
            (None, delim_open)
        } else {
            (delim_open, None)
        }),
{
    if reverse {
        (None, delim_open)
    } else {
        (delim_open, None)
    }
}

/// Whether `r` is `body` wrapped with the optional delimiters `open` and
/// `close`, each stretched to the body's height (at least one row) in
/// `mode`, composed side by side on the baselines with no gap, as a
/// fragment of class `Normal` with the other defaults of
/// [`TermMathFrameFragment::new`].
pub open spec fn is_wrapped(
    r: TermMathFrameFragment,
    mode: RenderMode,
    body: TermFrame,
    open: Option<char>,
    close: Option<char>,
) -> bool {
    let h = stretch_rows_spec(body.size.rows);
    let n: int = 1 + (if open is Some {
        1int
    } else {
        0int
    }) + (if close is Some {
        1int
    } else {
        0int
    });
    let bi: int = if open is Some {
        1
    } else {
        0
    };
    &&& r.is_new_of(r.frame)
    &&& exists|parts: Seq<TermFrame>|
        {
            &&& parts.len() == n
            &&& parts[bi] == body
            &&& (open matches Some(c) ==> is_delimiter_frame(
                parts[0],
                stretched_delimiter_spec(mode, c, h),
                TermStyle::default_spec(),
            ))
            &&& (close matches Some(c) ==> is_delimiter_frame(
                parts[n - 1],
                stretched_delimiter_spec(mode, c, h),
                TermStyle::default_spec(),
            ))
            &&& is_hcomposition(r.frame, parts, TermScalar::Finite(0))
        }
}

/// Wrap `body` with optional left and right delimiters, each stretched to
/// the body's height (at least one row), composed side by side on the
/// baselines with no gap, as a fragment of class `Normal` (see
/// [`is_wrapped`]).
pub fn wrap_with_delimiters(
    mode: RenderMode,
    body: TermFrame,
    open: Option<char>,
    close: Option<char>,
) -> (r: TermMathFrameFragment)
    ensures
        is_wrapped(r, mode, body, open, close),
{
    let height = body.rows().max(TermScalar::new(1));
    proof {
        assert(stretch_rows_spec(height) == stretch_rows_spec(body.size.rows));
    }
    let mut parts: Vec<TermFrame> = Vec::new();
    match open {
        Some(ch) => {
            let chars = stretched_delimiter(mode, ch, height);
            parts.push(build_delimiter_frame(chars, TermStyle::plain()));
        },
        None => {},
    }
    parts.push(body);
    match close {
        Some(ch) => {
            let chars = stretched_delimiter(mode, ch, height);
            parts.push(build_delimiter_frame(chars, TermStyle::plain()));
        },
        None => {},
    }
    let ghost ps = parts@;
    let composed = compose_horizontal(parts, TermScalar::zero());
    let r = TermMathFrameFragment::new(composed).with_class(MathClass::Normal);
    proof {
        let h = stretch_rows_spec(body.size.rows);
        let n: int = ps.len() as int;
        assert(ps.len() == n);
    }
    r
}

// ── Left–right groups ────────────────────────────────────────────────────

/// Whether a fragment of this class might be a delimiter: opening, closing
/// and fence classes.
pub fn is_delimiter_class(class: MathClass) -> (r: bool)
    ensures
        r == (class == MathClass::Opening || class == MathClass::Closing || class
            == MathClass::Fence),
{
    match class {
        MathClass::Opening | MathClass::Closing | MathClass::Fence => true,
        _ => false,
    }
}

/// The ascents of fragments.
pub open spec fn frag_ascents(s: Seq<TermMathFragment>) -> Seq<Row> {
    s.map_values(|f: TermMathFragment| f.ascent_spec())
}

/// The descents of fragments.
pub open spec fn frag_descents(s: Seq<TermMathFragment>) -> Seq<Row> {
    s.map_values(|f: TermMathFragment| f.descent_spec())
}

/// The height and baseline that the delimiters of a group of `frags` are
/// stretched to: the largest ascent plus the largest descent of the inner
/// fragments (all but the first and last; at least 1), and that ascent (at
/// least 0).  A group of two fragments or fewer gives one row at 0.
pub open spec fn inner_metrics_spec(frags: Seq<TermMathFragment>) -> (Row, Row) {
    if frags.len() <= 2 {
        (TermScalar::Finite(1), TermScalar::Finite(0))
    } else {
        let inner = frags.subrange(1, frags.len() - 1);
        let a = seq_max(frag_ascents(inner));
        let d = seq_max(frag_descents(inner));
        (a.add_spec(d).max_spec(TermScalar::Finite(1)), a.max_spec(TermScalar::Finite(0)))
    }
}

/// Measure the inner content of a left–right group (see
/// [`inner_metrics_spec`]).
pub fn inner_content_metrics(frags: &[TermMathFragment]) -> (r: (Row, Row))
    ensures
        r == inner_metrics_spec(frags@),
{
    let n = frags.len();
    if n <= 2 {
        return (TermScalar::new(1), TermScalar::zero());
    }
    let ghost inner = frags@.subrange(1, n - 1);
    let ghost sa = frag_ascents(inner);
    let ghost sd = frag_descents(inner);
    let mut a = frags[1].ascent();
    let mut d = frags[1].descent();
    let mut i: usize = 2;
    proof {
        assert(sa.subrange(0, 1).drop_last() =~= Seq::<Row>::empty());
        assert(sd.subrange(0, 1).drop_last() =~= Seq::<Row>::empty());
    }
    while i < n - 1
        invariant
            2 <= i <= n - 1,
            n == frags@.len(),
            inner == frags@.subrange(1, n - 1),
            sa == frag_ascents(inner),
            sd == frag_descents(inner),
            a == seq_max(sa.subrange(0, i - 1)),
            d == seq_max(sd.subrange(0, i - 1)),
        decreases n - 1 - i,
    {
        proof {
            assert(sa.subrange(0, i as int).drop_last() =~= sa.subrange(0, i - 1));
            assert(sd.subrange(0, i as int).drop_last() =~= sd.subrange(0, i - 1));
        }
        a = a.max(frags[i].ascent());
        d = d.max(frags[i].descent());
        i = i + 1;
    }
    proof {
        assert(sa.subrange(0, sa.len() as int) =~= sa);
        assert(sd.subrange(0, sd.len() as int) =~= sd);
    }
    (a.add(d).max(TermScalar::new(1)), a.max(TermScalar::zero()))
}

/// One step of reading the single character of a frame's items: `None`
/// when the items cannot be a single character, otherwise the character
/// found so far.
pub open spec fn single_char_step(found: Option<char>, item: TermFrameItem) -> Option<Option<char>> {
    match item {
        TermFrameItem::Text(t, _) => if t@.len() != 1 || found is Some {
            None
        } else {
            Some(Some(t@[0]))
        },
        TermFrameItem::Frame(_) => None,
        _ => Some(found),
    }
}

/// Reading the single character of a sequence of items, front to back.
pub open spec fn single_char_scan(items: Seq<(TermPoint, TermFrameItem)>) -> Option<Option<char>>
    decreases items.len(),
{
    if items.len() == 0 {
        Some(None)
    } else {
        match single_char_scan(items.drop_last()) {
            Some(found) => single_char_step(found, items.last().1),
            None => None,
        }
    }
}

/// The single character a fragment shows: a frame whose only text item is
/// one character and that holds no nested frame.
pub open spec fn single_char_spec(frag: TermMathFragment) -> Option<char> {
    match frag {
        TermMathFragment::Frame(ff) => match single_char_scan(ff.frame.items@) {
            Some(found) => found,
            None => None,
        },
        _ => None,
    }
}

/// The single character of a fragment's text, or `None` where the fragment
/// is not a frame, holds more than one character or text item, holds an
/// empty text, or holds a nested frame.
pub fn extract_single_char(frag: &TermMathFragment) -> (r: Option<char>)
    ensures
        r == single_char_spec(*frag),
{
    match frag {
        TermMathFragment::Frame(ff) => scan_single_char(ff.frame.items()),
        _ => None,
    }
}

/// Read the single character of a sequence of items, front to back.
fn scan_single_char(items: &Vec<(TermPoint, TermFrameItem)>) -> (r: Option<char>)
    ensures
        r == (match single_char_scan(items@) {
            Some(found) => found,
            None => None,
        }),
{
    let mut found: Option<char> = None;
    let mut i: usize = 0;
    while i < items.len()
        invariant
            i <= items@.len(),
            single_char_scan(items@.subrange(0, i as int)) == Some(found),
        decreases items@.len() - i,
    {
        proof {
            assert(items@.subrange(0, i + 1).drop_last() =~= items@.subrange(0, i as int));
            assert(items@.subrange(0, i + 1).last() == items@[i as int]);
        }
        match &items[i].1 {
            TermFrameItem::Text(text, _) => {
                let cs = chars_of(text.as_str());
                if cs.len() != 1 || found.is_some() {
                    proof {
                        assert(single_char_scan(items@.subrange(0, i + 1)) is None);
                        lemma_scan_stays_none(items@, i as int + 1);
                    }
                    return None;
                }
                found = Some(cs[0]);
            },
            TermFrameItem::Frame(_) => {
                proof {
                    assert(single_char_scan(items@.subrange(0, i + 1)) is None);
                    lemma_scan_stays_none(items@, i as int + 1);
                }
                return None;
            },
            _ => {},
        }
        i = i + 1;
    }
    proof {
        assert(items@.subrange(0, items@.len() as int) =~= items@);
    }
    found
}

/// Once the scan fails on a prefix, it fails on the whole.
proof fn lemma_scan_stays_none(items: Seq<(TermPoint, TermFrameItem)>, k: int)
    requires
        0 <= k <= items.len(),
        single_char_scan(items.subrange(0, k)) is None,
    ensures
        single_char_scan(items) is None,
    decreases items.len() - k,
{
    if k < items.len() {
        assert(items.subrange(0, k + 1).drop_last() =~= items.subrange(0, k));
        lemma_scan_stays_none(items, k + 1);
    } else {
        assert(items.subrange(0, k) =~= items);
    }
}

/// The column of characters that stretches `ch` over `h` rows inside a
/// left–right group, or nothing for a character that does not stretch.
pub open spec fn stretch_chars_spec(mode: RenderMode, ch: char, h: int) -> Seq<char> {
    let uni = mode is Unicode;
    if ch == '(' || ch == '⟮' {
        left_paren_spec(mode, h)
    } else if ch == ')' || ch == '⟯' {
        right_paren_spec(mode, h)
    } else if ch == '[' {
        left_bracket_spec(mode, h)
    } else if ch == ']' {
        right_bracket_spec(mode, h)
    } else if ch == '{' {
        left_brace_spec(mode, h)
    } else if ch == '}' {
        right_brace_spec(mode, h)
    } else if ch == '|' {
        rep_seq(mode.vbar_spec(), h)
    } else if ch == '‖' {
        rep_seq(if uni { '║' } else { '|' }, h)
    } else if ch == '⌊' {
        floor_left_spec(mode, h)
    } else if ch == '⌋' {
        floor_right_spec(mode, h)
    } else if ch == '⌈' {
        ceil_left_spec(mode, h)
    } else if ch == '⌉' {
        ceil_right_spec(mode, h)
    } else if ch == '⟨' || ch == '<' {
        rep_seq(if uni { '⟨' } else { '<' }, h)
    } else if ch == '⟩' || ch == '>' {
        rep_seq(if uni { '⟩' } else { '>' }, h)
    } else {
        Seq::empty()
    }
}

/// Stretch `ch` over `height` rows (at least one) inside a left–right
/// group; an empty vector for a character that does not stretch.
pub fn stretch_chars_for(ch: char, height: Row, mode: RenderMode) -> (r: Vec<char>)
    ensures
        r@ == stretch_chars_spec(mode, ch, stretch_rows_spec(height)),
{
    let uni = mode.is_unicode();
    if ch == '(' || ch == '⟮' {
        left_paren(mode, height)
    } else if ch == ')' || ch == '⟯' {
        right_paren(mode, height)
    } else if ch == '[' {
        left_bracket(mode, height)
    } else if ch == ']' {
        right_bracket(mode, height)
    } else if ch == '{' {
        left_brace(mode, height)
    } else if ch == '}' {
        right_brace(mode, height)
    } else if ch == '|' {
        rep_vec(mode.vbar(), stretch_rows(height))
    } else if ch == '‖' {
        rep_vec(if uni { '║' } else { '|' }, stretch_rows(height))
    } else if ch == '⌊' {
        floor_left(mode, height)
    } else if ch == '⌋' {
        floor_right(mode, height)
    } else if ch == '⌈' {
        ceil_left(mode, height)
    } else if ch == '⌉' {
        ceil_right(mode, height)
    } else if ch == '⟨' || ch == '<' {
        rep_vec(if uni { '⟨' } else { '<' }, stretch_rows(height))
    } else if ch == '⟩' || ch == '>' {
        rep_vec(if uni { '⟩' } else { '>' }, stretch_rows(height))
    } else {
        Vec::new()
    }
}

/// Whether `ff` is the delimiter fragment of class `class` that
/// [`try_stretch_delimiter`] builds from `chars`, with its baseline moved to
/// `baseline`.
pub open spec fn is_stretched_fragment(
    ff: TermMathFrameFragment,
    chars: Seq<char>,
    class: MathClass,
    baseline: Row,
) -> bool {
    &&& is_delimiter_frame(
        TermFrame { baseline: TermScalar::Finite((chars.len() / 2) as i64), ..ff.frame },
        chars,
        TermStyle::default_spec(),
    )
    &&& ff.frame.baseline == baseline
    &&& ff.class == class
    &&& ff.limits == TermLimits::Never
    &&& !ff.spaced
    &&& !ff.text_like
    &&& ff.italics_correction == TermScalar::Finite(0)
    &&& ff.accent_attach == TermMathFrameFragment::default_attach(ff.frame)
}

/// Whether `new` is `old` stretched as a delimiter over `height` rows: a
/// single-character fragment of an opening, closing or fence class whose
/// character stretches becomes that stretched column, with its baseline at
/// `baseline` and its class kept; anything else stays as it is.
pub open spec fn delimiter_stretched(
    old: TermMathFragment,
    new: TermMathFragment,
    height: Row,
    baseline: Row,
    mode: RenderMode,
) -> bool {
    let class = old.class_spec();
    let stretches = (class == MathClass::Opening || class == MathClass::Closing || class
        == MathClass::Fence) && single_char_spec(old) is Some && stretch_chars_spec(
        mode,
        single_char_spec(old)->0,
        stretch_rows_spec(height),
    ).len() > 0;
    &&& !stretches ==> new == old
    &&& stretches ==> (new matches TermMathFragment::Frame(ff) && is_stretched_fragment(
        ff,
        stretch_chars_spec(mode, single_char_spec(old)->0, stretch_rows_spec(height)),
        class,
        baseline,
    ))
}

/// If `frag` is a single-character delimiter (of an opening, closing or
/// fence class), replace it with a stretched version over `height` rows,
/// with its baseline at `baseline_hint` and its class kept.  Any other
/// fragment, or a character that does not stretch, is left as it is.
pub fn try_stretch_delimiter(
    frag: &mut TermMathFragment,
    height: Row,
    baseline_hint: Row,
    mode: RenderMode,
    is_opening: bool,
)
    requires
        stretch_rows_spec(height) < i32::MAX,
    ensures
        delimiter_stretched(*old(frag), *final(frag), height, baseline_hint, mode),
{
    let class = frag.class();
    if !is_delimiter_class(class) {
        return;
    }
    let ch = match extract_single_char(frag) {
        Some(c) => c,
        None => return,
    };
    let chars = stretch_chars_for(ch, height, mode);
    if chars.len() == 0 {
        return;
    }
    proof {
        lemma_stretch_chars_len(mode, ch, stretch_rows_spec(height));
    }
    let ghost cs = chars@;
    let new_frame = build_delimiter_frame(chars, TermStyle::plain());
    let mut frame_frag = TermMathFrameFragment::new(new_frame).with_class(class);
    frame_frag.frame.set_baseline(baseline_hint);
    proof {
        assert(TermFrame { baseline: TermScalar::Finite((cs.len() / 2) as i64), ..frame_frag.frame }
            == new_frame);
    }
    *frag = TermMathFragment::Frame(frame_frag);
}

/// A stretched column is at most one row longer than the rows asked for.
proof fn lemma_stretch_chars_len(mode: RenderMode, ch: char, h: int)
    requires
        h >= 1,
    ensures
        stretch_chars_spec(mode, ch, h).len() <= h + 1,
{
}

/// Whether `r` is a left–right group of `frags`: the first fragment, and
/// the last if there are two or more, stretched as delimiters over the
/// inner content's height with its baseline, the fragments then resolved
/// into a run, and the run's frame made a fragment.
pub open spec fn is_lr_fragment(r: TermMathFrameFragment, frags: Seq<TermMathFragment>, mode: RenderMode) -> bool {
    let h = inner_metrics_spec(frags).0;
    let b = inner_metrics_spec(frags).1;
    &&& r.is_new_of(r.frame)
    &&& exists|s: Seq<TermMathFragment>|
        #[trigger] is_row_frame(r.frame, run_spec(s)) && s.len() == frags.len() && delimiter_stretched(
            frags[0],
            s[0],
            h,
            b,
            mode,
        ) && (frags.len() > 1 ==> delimiter_stretched(frags.last(), s.last(), h, b, mode)) && forall|i: int|
            0 < i < frags.len() - 1 ==> #[trigger] s[i] == frags[i]
}

/// Lay out a left–right group from its body's fragments: the opening and
/// closing delimiters stretch to the inner content (see
/// [`is_lr_fragment`]); an empty body gives nothing.
pub fn layout_lr(frags: Vec<TermMathFragment>, mode: RenderMode) -> (r: Option<TermMathFrameFragment>)
    requires
        stretch_rows_spec(inner_metrics_spec(frags@).0) < i32::MAX,
    ensures
        frags@.len() == 0 ==> r is None,
        frags@.len() > 0 ==> (r matches Some(ff) && is_lr_fragment(ff, frags@, mode)),
{
    let n = frags.len();
    if n == 0 {
        return None;
    }
    let ghost orig = frags@;
    let (inner_height, inner_baseline) = inner_content_metrics(frags.as_slice());
    let mut out: Vec<TermMathFragment> = Vec::new();
    let mut idx: usize = 0;
    for frag in it: frags.into_iter()
        invariant
            it.seq() == orig,
            n == orig.len(),
            n > 0,
            idx == it.index(),
            out@.len() == it.index(),
            stretch_rows_spec(inner_height) < i32::MAX,
            forall|j: int|
                0 <= j < it.index() ==> if j == 0 {
                    delimiter_stretched(orig[0], #[trigger] out@[j], inner_height, inner_baseline, mode)
                } else if j == n - 1 {
                    delimiter_stretched(orig[j], out@[j], inner_height, inner_baseline, mode)
                } else {
                    out@[j] == orig[j]
                },
    {
        let mut f = frag;
        if idx == 0 {
            try_stretch_delimiter(&mut f, inner_height, inner_baseline, mode, true);
        } else if idx == n - 1 {
            try_stretch_delimiter(&mut f, inner_height, inner_baseline, mode, false);
        }
        out.push(f);
        idx = idx + 1;
    }
    let ghost s = out@;
    let frame = TermMathRun::new(out).into_frame();
    let r = TermMathFrameFragment::new(frame);
    proof {
        assert(is_row_frame(r.frame, run_spec(s)));
        assert(s[0] == s[0]);
        if n > 1 {
            assert(s.last() == s[n - 1]);
        }
        assert forall|i: int| 0 < i < orig.len() - 1 implies #[trigger] s[i] == orig[i] by {
            assert(s[i] == out@[i]);
        }
    }
    Some(r)
}

// ── Left–right stretching helpers ────────────────────────────────────────

/// A left parenthesis of `h` rows.
pub open spec fn left_paren_spec(mode: RenderMode, h: int) -> Seq<char> {
    if mode is Unicode {
        sym_column(h, '(', '⎛', '⎜', '⎝')
    } else {
        rep_seq('(', h)
    }
}

/// A right parenthesis of `h` rows.
pub open spec fn right_paren_spec(mode: RenderMode, h: int) -> Seq<char> {
    if mode is Unicode {
        sym_column(h, ')', '⎞', '⎟', '⎠')
    } else {
        rep_seq(')', h)
    }
}

/// A left bracket of `h` rows.
pub open spec fn left_bracket_spec(mode: RenderMode, h: int) -> Seq<char> {
    if mode is Unicode {
        sym_column(h, '[', '⎡', '⎢', '⎣')
    } else {
        sym_column(h, '[', '[', '|', '[')
    }
}

/// A right bracket of `h` rows.
pub open spec fn right_bracket_spec(mode: RenderMode, h: int) -> Seq<char> {
    if mode is Unicode {
        sym_column(h, ']', '⎤', '⎥', '⎦')
    } else {
        sym_column(h, ']', ']', '|', ']')
    }
}

/// A left brace of `h` rows.
pub open spec fn left_brace_spec(mode: RenderMode, h: int) -> Seq<char> {
    if mode is Unicode {
        unicode_brace_spec(h, true)
    } else {
        sym_column(h, '{', '/', '|', '\\')
    }
}

/// A right brace of `h` rows.
pub open spec fn right_brace_spec(mode: RenderMode, h: int) -> Seq<char> {
    if mode is Unicode {
        unicode_brace_spec(h, false)
    } else {
        sym_column(h, '}', '\\', '|', '/')
    }
}

/// A left floor of `h` rows.
pub open spec fn floor_left_spec(mode: RenderMode, h: int) -> Seq<char> {
    if mode is Unicode {
        if h == 1 {
            seq!['⌊']
        } else if h == 2 {
            seq!['│', '└']
        } else {
            column('╷', '⎢', '└', h)
        }
    } else {
        rep_seq('|', h - 1) + seq!['[']
    }
}

/// A right floor of `h` rows.
pub open spec fn floor_right_spec(mode: RenderMode, h: int) -> Seq<char> {
    if mode is Unicode {
        if h == 1 {
            seq!['⌋']
        } else if h == 2 {
            seq!['│', '┘']
        } else {
            column('╷', '│', '┘', h)
        }
    } else {
        rep_seq('|', h - 1) + seq![']']
    }
}

/// A left ceiling of `h` rows.
pub open spec fn ceil_left_spec(mode: RenderMode, h: int) -> Seq<char> {
    if mode is Unicode {
        if h == 1 {
            seq!['⌈']
        } else if h == 2 {
            seq!['┌', '│']
        } else {
            column('┌', '│', '╵', h)
        }
    } else {
        seq!['['] + rep_seq('|', h - 1)
    }
}

/// A right ceiling of `h` rows.
pub open spec fn ceil_right_spec(mode: RenderMode, h: int) -> Seq<char> {
    if mode is Unicode {
        if h == 1 {
            seq!['⌉']
        } else if h == 2 {
            seq!['┐', '│']
        } else {
            column('┐', '│', '╵', h)
        }
    } else {
        seq![']'] + rep_seq('|', h - 1)
    }
}

/// A left parenthesis spanning `height` rows (at least one).
pub fn left_paren(mode: RenderMode, height: Row) -> (r: Vec<char>)
    ensures
        r@ == left_paren_spec(mode, stretch_rows_spec(height)),
{
    let h = stretch_rows(height);
    if mode.is_unicode() {
        sym_vec(h, '(', '⎛', '⎜', '⎝')
    } else {
        rep_vec('(', h)
    }
}

/// A right parenthesis spanning `height` rows (at least one).
pub fn right_paren(mode: RenderMode, height: Row) -> (r: Vec<char>)
    ensures
        r@ == right_paren_spec(mode, stretch_rows_spec(height)),
{
    let h = stretch_rows(height);
    if mode.is_unicode() {
        sym_vec(h, ')', '⎞', '⎟', '⎠')
    } else {
        rep_vec(')', h)
    }
}

/// A left bracket spanning `height` rows (at least one).
pub fn left_bracket(mode: RenderMode, height: Row) -> (r: Vec<char>)
    ensures
        r@ == left_bracket_spec(mode, stretch_rows_spec(height)),
{
    let h = stretch_rows(height);
    if mode.is_unicode() {
        sym_vec(h, '[', '⎡', '⎢', '⎣')
    } else {
        sym_vec(h, '[', '[', '|', '[')
    }
}

/// A right bracket spanning `height` rows (at least one).
pub fn right_bracket(mode: RenderMode, height: Row) -> (r: Vec<char>)
    ensures
        r@ == right_bracket_spec(mode, stretch_rows_spec(height)),
{
    let h = stretch_rows(height);
    if mode.is_unicode() {
        sym_vec(h, ']', '⎤', '⎥', '⎦')
    } else {
        sym_vec(h, ']', ']', '|', ']')
    }
}

/// A left brace spanning `height` rows (at least one).
pub fn left_brace(mode: RenderMode, height: Row) -> (r: Vec<char>)
    ensures
        r@ == left_brace_spec(mode, stretch_rows_spec(height)),
{
    let h = stretch_rows(height);
    if mode.is_unicode() {
        unicode_brace(h, true)
    } else {
        sym_vec(h, '{', '/', '|', '\\')
    }
}

/// A right brace spanning `height` rows (at least one).
pub fn right_brace(mode: RenderMode, height: Row) -> (r: Vec<char>)
    ensures
        r@ == right_brace_spec(mode, stretch_rows_spec(height)),
{
    let h = stretch_rows(height);
    if mode.is_unicode() {
        unicode_brace(h, false)
    } else {
        sym_vec(h, '}', '\\', '|', '/')
    }
}

/// A left floor spanning `height` rows (at least one).
pub fn floor_left(mode: RenderMode, height: Row) -> (r: Vec<char>)
    ensures
        r@ == floor_left_spec(mode, stretch_rows_spec(height)),
{
    let h = stretch_rows(height);
    if mode.is_unicode() {
        if h == 1 {
            let mut v: Vec<char> = Vec::new();
            v.push('⌊');
            assert(v@ =~= seq!['⌊']);
            v
        } else if h == 2 {
            let mut v: Vec<char> = Vec::new();
            v.push('│');
            v.push('└');
            assert(v@ =~= seq!['│', '└']);
            v
        } else {
            sym_vec(h, '╷', '╷', '⎢', '└')
        }
    } else {
        let mut v = rep_vec('|', h - 1);
        v.push('[');
        assert(v@ =~= rep_seq('|', h - 1) + seq!['[']);
        v
    }
}

/// A right floor spanning `height` rows (at least one); in Unicode mode,
/// from three rows on, one row longer.
pub fn floor_right(mode: RenderMode, height: Row) -> (r: Vec<char>)
    ensures
        r@ == floor_right_spec(mode, stretch_rows_spec(height)),
{
    let h = stretch_rows(height);
    if mode.is_unicode() {
        if h == 1 {
            let mut v: Vec<char> = Vec::new();
            v.push('⌋');
            assert(v@ =~= seq!['⌋']);
            v
        } else if h == 2 {
            let mut v: Vec<char> = Vec::new();
            v.push('│');
            v.push('┘');
            assert(v@ =~= seq!['│', '┘']);
            v
        } else {
            let mut v: Vec<char> = Vec::new();
            v.push('╷');
            push_n(&mut v, '│', h - 2);
            v.push('┘');
            assert(v@ =~= column('╷', '│', '┘', h as int));
            v
        }
    } else {
        let mut v = rep_vec('|', h - 1);
        v.push(']');
        assert(v@ =~= rep_seq('|', h - 1) + seq![']']);
        v
    }
}

/// A left ceiling spanning `height` rows (at least one).
pub fn ceil_left(mode: RenderMode, height: Row) -> (r: Vec<char>)
    ensures
        r@ == ceil_left_spec(mode, stretch_rows_spec(height)),
{
    let h = stretch_rows(height);
    if mode.is_unicode() {
        if h == 1 {
            let mut v: Vec<char> = Vec::new();
            v.push('⌈');
            assert(v@ =~= seq!['⌈']);
            v
        } else if h == 2 {
            let mut v: Vec<char> = Vec::new();
            v.push('┌');
            v.push('│');
            assert(v@ =~= seq!['┌', '│']);
            v
        } else {
            sym_vec(h, '┌', '┌', '│', '╵')
        }
    } else {
        let mut v: Vec<char> = Vec::new();
        v.push('[');
        push_n(&mut v, '|', h - 1);
        assert(v@ =~= seq!['['] + rep_seq('|', h - 1));
        v
    }
}

/// A right ceiling spanning `height` rows (at least one).
pub fn ceil_right(mode: RenderMode, height: Row) -> (r: Vec<char>)
    ensures
        r@ == ceil_right_spec(mode, stretch_rows_spec(height)),
{
    let h = stretch_rows(height);
    if mode.is_unicode() {
        if h == 1 {
            let mut v: Vec<char> = Vec::new();
            v.push('⌉');
            assert(v@ =~= seq!['⌉']);
            v
        } else if h == 2 {
            let mut v: Vec<char> = Vec::new();
            v.push('┐');
            v.push('│');
            assert(v@ =~= seq!['┐', '│']);
            v
        } else {
            sym_vec(h, '┐', '┐', '│', '╵')
        }
    } else {
        let mut v: Vec<char> = Vec::new();
        v.push(']');
        push_n(&mut v, '|', h - 1);
        assert(v@ =~= seq![']'] + rep_seq('|', h - 1));
        v
    }
}

// ── Horizontal stretching ────────────────────────────────────────────────

/// `n` copies of `ch` as a string.
pub fn rep(ch: char, n: usize) -> (r: String)
    ensures
        r@ == rep_seq(ch, n as int),
{
    let mut s = String::new();
    let mut i: usize = 0;
    while i < n
        invariant
            i <= n,
            s@ == rep_seq(ch, i as int),
        decreases n - i,
    {
        push_char(&mut s, ch);
        i = i + 1;
        assert(s@ =~= rep_seq(ch, i as int));
    }
    s
}

/// `w - 1` (at least 0).
pub open spec fn less_one(w: int) -> int {
    if w >= 1 {
        w - 1
    } else {
        0
    }
}

/// `w - 2` (at least 0).
pub open spec fn less_two(w: int) -> int {
    if w >= 2 {
        w - 2
    } else {
        0
    }
}

/// A right arrow `w` columns wide: body pieces, then the head.
pub fn arrow_r(
    w: usize,
    uni_body: char,
    uni_head: char,
    ascii_body: char,
    ascii_head: char,
    mode: RenderMode,
) -> (r: String)
    ensures
        r@ == (if mode is Unicode {
            rep_seq(uni_body, less_one(w as int)).push(uni_head)
        } else {
            rep_seq(ascii_body, less_one(w as int)).push(ascii_head)
        }),
{
    let n = w.saturating_sub(1);
    let uni = mode.is_unicode();
    let mut s = rep(if uni { uni_body } else { ascii_body }, n);
    push_char(&mut s, if uni { uni_head } else { ascii_head });
    s
}

/// A left arrow `w` columns wide: the head, then body pieces.
pub fn arrow_l(
    w: usize,
    uni_head: char,
    uni_body: char,
    ascii_head: char,
    ascii_body: char,
    mode: RenderMode,
) -> (r: String)
    ensures
        r@ == (if mode is Unicode {
            seq![uni_head] + rep_seq(uni_body, less_one(w as int))
        } else {
            seq![ascii_head] + rep_seq(ascii_body, less_one(w as int))
        }),
{
    let n = w.saturating_sub(1);
    let uni = mode.is_unicode();
    let head = if uni { uni_head } else { ascii_head };
    let body = if uni { uni_body } else { ascii_body };
    let mut s = String::new();
    push_char(&mut s, head);
    let mut i: usize = 0;
    while i < n
        invariant
            i <= n,
            s@ == seq![head] + rep_seq(body, i as int),
        decreases n - i,
    {
        push_char(&mut s, body);
        i = i + 1;
        assert(s@ =~= seq![head] + rep_seq(body, i as int));
    }
    s
}

/// A two-headed arrow `w` columns wide: left head, body pieces, right head.
pub fn arrow_lr(
    w: usize,
    uni_l: char,
    uni_body: char,
    uni_r: char,
    ascii_l: char,
    ascii_body: char,
    ascii_r: char,
    mode: RenderMode,
) -> (r: String)
    ensures
        r@ == (if mode is Unicode {
            (seq![uni_l] + rep_seq(uni_body, less_two(w as int))).push(uni_r)
        } else {
            (seq![ascii_l] + rep_seq(ascii_body, less_two(w as int))).push(ascii_r)
        }),
{
    let n = w.saturating_sub(2);
    let uni = mode.is_unicode();
    let left = if uni { uni_l } else { ascii_l };
    let body = if uni { uni_body } else { ascii_body };
    let mut s = String::new();
    push_char(&mut s, left);
    let mut i: usize = 0;
    while i < n
        invariant
            i <= n,
            s@ == seq![left] + rep_seq(body, i as int),
        decreases n - i,
    {
        push_char(&mut s, body);
        i = i + 1;
        assert(s@ =~= seq![left] + rep_seq(body, i as int));
    }
    push_char(&mut s, if uni { uni_r } else { ascii_r });
    s
}

/// The width in columns a stretched glyph spans: the width read as an
/// `i32`, at least one.
pub open spec fn stretch_cols_spec(width: Col) -> int {
    width.max_spec(TermScalar::Finite(1)).get_spec() as int
}

/// The row of characters that stretches `ch` over `w` columns: arrows
/// (single and double, right, left and both ways) keep their heads and
/// extend their bodies, horizontal lines become rules, and any other
/// character repeats itself.  A two-headed arrow one column wide, too
/// narrow for both heads, is the arrow itself in Unicode mode and its
/// body piece in ASCII mode.
pub open spec fn hstretch_spec(ch: char, w: int, mode: RenderMode) -> Seq<char> {
    let uni = mode is Unicode;
    if (ch == '\u{2194}' || ch == '\u{21D4}') && w < 2 {
        seq![
            if uni {
                ch
            } else if ch == '\u{2194}' {
                '-'
            } else {
                '='
            },
        ]
    } else if ch == '→' {
        rep_seq(if uni { '─' } else { '-' }, less_one(w)).push(if uni { '→' } else { '>' })
    } else if ch == '⇒' {
        rep_seq(if uni { '═' } else { '=' }, less_one(w)).push(if uni { '⇒' } else { '>' })
    } else if ch == '←' {
        seq![if uni { '←' } else { '<' }] + rep_seq(if uni { '─' } else { '-' }, less_one(w))
    } else if ch == '⇐' {
        seq!['<'] + rep_seq('=', less_one(w))
    } else if ch == '\u{2194}' {
        (seq![if uni { '←' } else { '<' }] + rep_seq(if uni { '─' } else { '-' }, less_two(w))).push(
            if uni { '⟶' } else { '>' },
        )
    } else if ch == '\u{21D4}' {
        (seq!['<'] + rep_seq('=', less_two(w))).push('>')
    } else if ch == '\u{2500}' || ch == '\u{2015}' {
        rep_seq(mode.hbar_spec(), w)
    } else {
        rep_seq(ch, w)
    }
}

/// Horizontally stretch a character to exactly `width` columns (at least
/// one; see [`hstretch_spec`]).
pub fn hstretch_char(ch: char, width: Col, mode: RenderMode) -> (r: String)
    ensures
        r@ == hstretch_spec(ch, stretch_cols_spec(width), mode),
{
    let g = width.max(TermScalar::new(1)).get();
    assert(g >= 1);
    let w = g as usize;
    if (ch == '\u{2194}' || ch == '\u{21D4}') && w < 2 {
        let piece = if mode.is_unicode() {
            ch
        } else if ch == '\u{2194}' {
            '-'
        } else {
            '='
        };
        rep(piece, 1)
    } else if ch == '→' {
        arrow_r(w, '─', '→', '-', '>', mode)
    } else if ch == '⇒' {
        arrow_r(w, '═', '⇒', '=', '>', mode)
    } else if ch == '←' {
        arrow_l(w, '←', '─', '<', '-', mode)
    } else if ch == '⇐' {
        arrow_l(w, '<', '=', '<', '=', mode)
    } else if ch == '\u{2194}' {
        arrow_lr(w, '←', '─', '⟶', '<', '-', '>', mode)
    } else if ch == '\u{21D4}' {
        arrow_lr(w, '<', '=', '>', '<', '=', '>', mode)
    } else if ch == '\u{2500}' || ch == '\u{2015}' {
        rep(mode.hbar(), w)
    } else {
        rep(ch, w)
    }
}

// ── Laws ─────────────────────────────────────────────────────────────────

/// A delimiter stretched for a matrix or a case block spans exactly the
/// rows asked for, whatever the character and mode.
pub proof fn law_stretched_delimiter_height(mode: RenderMode, ch: char, h: int)
    requires
        h >= 1,
    ensures
        stretched_delimiter_spec(mode, ch, h).len() == h,
{
}

/// The closing counterpart of an opening delimiter or of one of its
/// pieces: the same shape mirrored left to right.  Pieces that are their
/// own mirror image (the straight extensions) map to themselves.
pub open spec fn closing_mirror(c: char) -> char {
    if c == '(' {
        ')'
    } else if c == '[' {
        ']'
    } else if c == '{' {
        '}'
    } else if c == '⎛' {
        '⎞'
    } else if c == '⎜' {
        '⎟'
    } else if c == '⎝' {
        '⎠'
    } else if c == '⎡' {
        '⎤'
    } else if c == '⎢' {
        '⎥'
    } else if c == '⎣' {
        '⎦'
    } else if c == '⎧' {
        '⎫'
    } else if c == '⎨' {
        '⎬'
    } else if c == '⎩' {
        '⎭'
    } else if c == '⌊' {
        '⌋'
    } else if c == '⌈' {
        '⌉'
    } else if c == '⟨' {
        '⟩'
    } else if c == '<' {
        '>'
    } else if c == '/' {
        '\\'
    } else if c == '\\' {
        '/'
    } else {
        c
    }
}

/// The opening delimiters and their closing counterparts.
pub open spec fn delimiter_pair(open: char, close: char) -> bool {
    ||| open == '(' && close == ')'
    ||| open == '[' && close == ']'
    ||| open == '{' && close == '}'
    ||| open == '⌊' && close == '⌋'
    ||| open == '⌈' && close == '⌉'
    ||| open == '⟨' && close == '⟩'
}

/// A closing delimiter stretched for a matrix or a case block is the
/// mirror image of its opening delimiter stretched to the same height, in
/// either mode: the same number of rows, and on each row the mirror of the
/// opening piece (so a closing bracket is made of right-bracket pieces).
pub proof fn law_stretched_delimiter_mirror(mode: RenderMode, open: char, close: char, h: int)
    requires
        delimiter_pair(open, close),
        h >= 1,
    ensures
        stretched_delimiter_spec(mode, close, h).len() == stretched_delimiter_spec(mode, open, h).len(),
        forall|i: int|
            0 <= i < stretched_delimiter_spec(mode, open, h).len() ==> #[trigger] stretched_delimiter_spec(
                mode,
                close,
                h,
            )[i] == closing_mirror(stretched_delimiter_spec(mode, open, h)[i]),
{
    let o = stretched_delimiter_spec(mode, open, h);
    let c = stretched_delimiter_spec(mode, close, h);
    assert(c =~= o.map_values(|x: char| closing_mirror(x)));
}

/// Inside a left–right group, every stretchable delimiter spans exactly the
/// rows asked for.
pub proof fn law_stretch_chars_height(mode: RenderMode, ch: char, h: int)
    requires
        h >= 1,
        stretch_chars_spec(mode, ch, h).len() > 0,
    ensures
        stretch_chars_spec(mode, ch, h).len() == h,
{
}

/// A horizontally stretched glyph spans exactly the columns asked for.
pub proof fn law_hstretch_width(ch: char, w: int, mode: RenderMode)
    requires
        w >= 1,
    ensures
        hstretch_spec(ch, w, mode).len() == w,
{
}


/// Lay out a stretched character: a known character stretches over
/// `width` columns (at least one) as [`hstretch_char`] does, in a text
/// fragment; with no character, the body's fragment is kept.
pub fn layout_stretch(ch: Option<char>, width: Col, mode: RenderMode, body: TermMathFragment) -> (r:
    TermMathFragment)
    requires
        ch is Some ==> stretch_cols_spec(width) < 0x0FFF_FFF0,
    ensures
        ch is None ==> r == body,
        ch matches Some(c) ==> (r matches TermMathFragment::Frame(ff) && ff.is_new_of(ff.frame)
            && is_text_frame(ff.frame, hstretch_spec(c, stretch_cols_spec(width), mode))),
{
    match ch {
        Some(c) => {
            let s = hstretch_char(c, width, mode);
            proof {
                law_hstretch_width(c, stretch_cols_spec(width), mode);
            }
            let frame = make_text_frame(s.as_str());
            TermMathFragment::Frame(TermMathFrameFragment::new(frame))
        },
        None => body,
    }
}

/// Lay out a mid delimiter: its body's fragment as a relation.
pub fn layout_mid(body: TermMathFragment) -> (r: TermMathFragment)
    ensures
        r == body.with_class_spec(MathClass::Relation),
{
    let mut frag = body;
    frag.set_class(MathClass::Relation);
    frag
}

} // verus!
