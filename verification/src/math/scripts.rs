//! Unicode superscript and subscript conversion.
//!
//! Single-row scripts are set inline when every character of the script
//! has a Unicode superscript (or subscript) form.

use vstd::prelude::*;
use crate::frame::{TermFrame, TermFrameItem};
use crate::geom::{Col, TermPoint};
use crate::scalar::TermScalar;
use crate::text::{char_cols, char_width, chars_of, push_char};

verus! {

// ── Single-character converters ──────────────────────────────────────────

/// The Unicode superscript form of a character, if it has one.
pub open spec fn superscript_of(ch: char) -> Option<char> {
    match ch {
        '0' => Some('⁰'),
        '1' => Some('¹'),
        '2' => Some('²'),
        '3' => Some('³'),
        '4' => Some('⁴'),
        '5' => Some('⁵'),
        '6' => Some('⁶'),
        '7' => Some('⁷'),
        '8' => Some('⁸'),
        '9' => Some('⁹'),
        '+' => Some('⁺'),
        '-'|'−' => Some('⁻'),
        '=' => Some('⁼'),
        '(' => Some('⁽'),
        ')' => Some('⁾'),
        'a' => Some('ᵃ'),
        'b' => Some('ᵇ'),
        'c' => Some('ᶜ'),
        'd' => Some('ᵈ'),
        'e' => Some('ᵉ'),
        'f' => Some('ᶠ'),
        'g' => Some('ᵍ'),
        'h' => Some('ʰ'),
        'i' => Some('ⁱ'),
        'j' => Some('ʲ'),
        'k' => Some('ᵏ'),
        'l' => Some('ˡ'),
        'm' => Some('ᵐ'),
        'n' => Some('ⁿ'),
        'o' => Some('ᵒ'),
        'p' => Some('ᵖ'),
        'r' => Some('ʳ'),
        's' => Some('ˢ'),
        't' => Some('ᵗ'),
        'u' => Some('ᵘ'),
        'v' => Some('ᵛ'),
        'w' => Some('ʷ'),
        'x' => Some('ˣ'),
        'y' => Some('ʸ'),
        'z' => Some('ᶻ'),
        'A' => Some('ᴬ'),
        'B' => Some('ᴮ'),
        'C' => Some('ᶜ'),
        'D' => Some('ᴰ'),
        'E' => Some('ᴱ'),
        'F' => Some('ꟳ'),
        'G' => Some('ᴳ'),
        'H' => Some('ᴴ'),
        'I' => Some('ᴵ'),
        'J' => Some('ᴶ'),
        'K' => Some('ᴷ'),
        'L' => Some('ᴸ'),
        'M' => Some('ᴹ'),
        'N' => Some('ᴺ'),
        'O' => Some('ᴼ'),
        'P' => Some('ᴾ'),
        'Q' => Some('ꟴ'),
        'R' => Some('ᴿ'),
        'S' => Some('꟱'),
        'T' => Some('ᵀ'),
        'U' => Some('ᵁ'),
        'W' => Some('ᵂ'),
        'β' => Some('ᵝ'),
        'γ' => Some('ᵞ'),
        'δ' => Some('ᵟ'),
        'φ' => Some('ᵠ'),
        'χ' => Some('ᵡ'),
        'θ' => Some('ᶿ'),
        _ => None,
    }
}

/// The Unicode subscript form of a character, if it has one.
pub open spec fn subscript_of(ch: char) -> Option<char> {
    match ch {
        '0' => Some('₀'),
        '1' => Some('₁'),
        '2' => Some('₂'),
        '3' => Some('₃'),
        '4' => Some('₄'),
        '5' => Some('₅'),
        '6' => Some('₆'),
        '7' => Some('₇'),
        '8' => Some('₈'),
        '9' => Some('₉'),
        '+' => Some('₊'),
        '-'|'−' => Some('₋'),
        '=' => Some('₌'),
        '(' => Some('₍'),
        ')' => Some('₎'),
        'a' => Some('ₐ'),
        'e' => Some('ₑ'),
        'h' => Some('ₕ'),
        'i' => Some('ᵢ'),
        'j' => Some('ⱼ'),
        'k' => Some('ₖ'),
        'l' => Some('ₗ'),
        'm' => Some('ₘ'),
        'n' => Some('ₙ'),
        'o' => Some('ₒ'),
        'p' => Some('ₚ'),
        'r' => Some('ᵣ'),
        's' => Some('ₛ'),
        't' => Some('ₜ'),
        'u' => Some('ᵤ'),
        'v' => Some('ᵥ'),
        'x' => Some('ₓ'),
        'β' => Some('ᵦ'),
        'γ' => Some('ᵧ'),
        'ρ' => Some('ᵨ'),
        'φ' => Some('ᵩ'),
        'χ' => Some('ᵪ'),
        _ => None,
    }
}

/// Convert a character to its Unicode superscript form, if one exists.
pub fn to_superscript(ch: char) -> (r: Option<char>)
    ensures
        r == superscript_of(ch),
{
    match ch {
        '0' => Some('⁰'),
        '1' => Some('¹'),
        '2' => Some('²'),
        '3' => Some('³'),
        '4' => Some('⁴'),
        '5' => Some('⁵'),
        '6' => Some('⁶'),
        '7' => Some('⁷'),
        '8' => Some('⁸'),
        '9' => Some('⁹'),
        '+' => Some('⁺'),
        '-'|'−' => Some('⁻'),
        '=' => Some('⁼'),
        '(' => Some('⁽'),
        ')' => Some('⁾'),
        'a' => Some('ᵃ'),
        'b' => Some('ᵇ'),
        'c' => Some('ᶜ'),
        'd' => Some('ᵈ'),
        'e' => Some('ᵉ'),
        'f' => Some('ᶠ'),
        'g' => Some('ᵍ'),
        'h' => Some('ʰ'),
        'i' => Some('ⁱ'),
        'j' => Some('ʲ'),
        'k' => Some('ᵏ'),
        'l' => Some('ˡ'),
        'm' => Some('ᵐ'),
        'n' => Some('ⁿ'),
        'o' => Some('ᵒ'),
        'p' => Some('ᵖ'),
        'r' => Some('ʳ'),
        's' => Some('ˢ'),
        't' => Some('ᵗ'),
        'u' => Some('ᵘ'),
        'v' => Some('ᵛ'),
        'w' => Some('ʷ'),
        'x' => Some('ˣ'),
        'y' => Some('ʸ'),
        'z' => Some('ᶻ'),
        'A' => Some('ᴬ'),
        'B' => Some('ᴮ'),
        'C' => Some('ᶜ'),
        'D' => Some('ᴰ'),
        'E' => Some('ᴱ'),
        'F' => Some('ꟳ'),
        'G' => Some('ᴳ'),
        'H' => Some('ᴴ'),
        'I' => Some('ᴵ'),
        'J' => Some('ᴶ'),
        'K' => Some('ᴷ'),
        'L' => Some('ᴸ'),
        'M' => Some('ᴹ'),
        'N' => Some('ᴺ'),
        'O' => Some('ᴼ'),
        'P' => Some('ᴾ'),
        'Q' => Some('ꟴ'),
        'R' => Some('ᴿ'),
        'S' => Some('꟱'),
        'T' => Some('ᵀ'),
        'U' => Some('ᵁ'),
        'W' => Some('ᵂ'),
        'β' => Some('ᵝ'),
        'γ' => Some('ᵞ'),
        'δ' => Some('ᵟ'),
        'φ' => Some('ᵠ'),
        'χ' => Some('ᵡ'),
        'θ' => Some('ᶿ'),
        _ => None,
    }
}

/// Convert a character to its Unicode subscript form, if one exists.
pub fn to_subscript(ch: char) -> (r: Option<char>)
    ensures
        r == subscript_of(ch),
{
    match ch {
        '0' => Some('₀'),
        '1' => Some('₁'),
        '2' => Some('₂'),
        '3' => Some('₃'),
        '4' => Some('₄'),
        '5' => Some('₅'),
        '6' => Some('₆'),
        '7' => Some('₇'),
        '8' => Some('₈'),
        '9' => Some('₉'),
        '+' => Some('₊'),
        '-'|'−' => Some('₋'),
        '=' => Some('₌'),
        '(' => Some('₍'),
        ')' => Some('₎'),
        'a' => Some('ₐ'),
        'e' => Some('ₑ'),
        'h' => Some('ₕ'),
        'i' => Some('ᵢ'),
        'j' => Some('ⱼ'),
        'k' => Some('ₖ'),
        'l' => Some('ₗ'),
        'm' => Some('ₘ'),
        'n' => Some('ₙ'),
        'o' => Some('ₒ'),
        'p' => Some('ₚ'),
        'r' => Some('ᵣ'),
        's' => Some('ₛ'),
        't' => Some('ₜ'),
        'u' => Some('ᵤ'),
        'v' => Some('ᵥ'),
        'x' => Some('ₓ'),
        'β' => Some('ᵦ'),
        'γ' => Some('ᵧ'),
        'ρ' => Some('ᵨ'),
        'φ' => Some('ᵩ'),
        'χ' => Some('ᵪ'),
        _ => None,
    }
}

// ── Collecting characters ────────────────────────────────────────────────

/// The column after the characters of `s`, starting at `col`.
pub open spec fn advance(col: Col, s: Seq<char>) -> Col
    decreases s.len(),
{
    if s.len() == 0 {
        col
    } else {
        advance(col, s.drop_last()).add_spec(TermScalar::Finite(char_width(s.last()) as i64))
    }
}

/// The characters of a text run starting at `col`, each with its column.
pub open spec fn text_chars(s: Seq<char>, col: Col) -> Seq<(Col, char)>
    decreases s.len(),
{
    if s.len() == 0 {
        Seq::empty()
    } else {
        text_chars(s.drop_last(), col).push((advance(col, s.drop_last()), s.last()))
    }
}

/// `sorted` with `x` inserted after every element whose column is not
/// greater than `x`'s.
pub open spec fn insert_by_col(sorted: Seq<(Col, char)>, x: (Col, char)) -> Seq<(Col, char)>
    decreases sorted.len(),
{
    if sorted.len() == 0 {
        seq![x]
    } else if sorted.last().0.le_spec(x.0) {
        sorted.push(x)
    } else {
        insert_by_col(sorted.drop_last(), x).push(sorted.last())
    }
}

/// `s` sorted by column, keeping the order of equal columns (a stable
/// sort).
pub open spec fn sort_by_col(s: Seq<(Col, char)>) -> Seq<(Col, char)>
    decreases s.len(),
{
    if s.len() == 0 {
        Seq::empty()
    } else {
        insert_by_col(sort_by_col(s.drop_last()), s.last())
    }
}

/// The characters of a frame at column offset `off`, sorted by column, or
/// `None` where it holds a rule, shape or image (at any depth).
pub open spec fn collect_frame(f: TermFrame, off: Col) -> Option<Seq<(Col, char)>>
    decreases f, 1nat,
{
    match collect_items(f.items@, off) {
        Some(s) => Some(sort_by_col(s)),
        None => None,
    }
}

/// The characters of a sequence of items at column offset `off`, in item
/// order: text runs give their characters, nested frames their sorted
/// characters, tags nothing; any other item gives `None`.
pub open spec fn collect_items(items: Seq<(TermPoint, TermFrameItem)>, off: Col) -> Option<
    Seq<(Col, char)>,
>
    decreases items, 0nat,
{
    if items.len() == 0 {
        Some(Seq::empty())
    } else {
        match collect_items(items.drop_last(), off) {
            None => None,
            Some(prev) => {
                let abs = items.last().0.col.add_spec(off);
                match items.last().1 {
                    TermFrameItem::Text(t, _) => Some(prev + text_chars(t@, abs)),
                    TermFrameItem::Frame(sub) => match collect_frame(sub, abs) {
                        Some(sc) => Some(prev + sc),
                        None => None,
                    },
                    TermFrameItem::Tag(_) => Some(prev),
                    _ => None,
                }
            },
        }
    }
}

/// Whether `a` comes no later than `b` in column order.
fn col_le(a: Col, b: Col) -> (r: bool)
    ensures
        r == a.le_spec(b),
{
    let ra: i8 = match a {
        TermScalar::NegInfinity => -1,
        TermScalar::Infinity => 1,
        _ => 0,
    };
    let rb: i8 = match b {
        TermScalar::NegInfinity => -1,
        TermScalar::Infinity => 1,
        _ => 0,
    };
    let va: i64 = match a {
        TermScalar::Finite(v) => v,
        _ => 0,
    };
    let vb: i64 = match b {
        TermScalar::Finite(v) => v,
        _ => 0,
    };
    ra < rb || (ra == rb && va <= vb)
}

/// Insert `x` into `sorted` after every element whose column is not
/// greater than its own.
fn insert_sorted(sorted: &mut Vec<(Col, char)>, x: (Col, char))
    ensures
        final(sorted)@ == insert_by_col(old(sorted)@, x),
    decreases old(sorted)@.len(),
{
    let n = sorted.len();
    if n == 0 || col_le(sorted[n - 1].0, x.0) {
        sorted.push(x);
    } else {
        let y = sorted.pop().unwrap();
        insert_sorted(sorted, x);
        sorted.push(y);
    }
}

/// Sort by column, keeping the order of equal columns.
fn sort_chars(v: Vec<(Col, char)>) -> (r: Vec<(Col, char)>)
    ensures
        r@ == sort_by_col(v@),
{
    let ghost orig = v@;
    let mut out: Vec<(Col, char)> = Vec::new();
    assert(orig.subrange(0, 0) =~= Seq::<(Col, char)>::empty());
    for x in it: v.into_iter()
        invariant
            it.seq() == orig,
            out@ == sort_by_col(orig.subrange(0, it.index() as int)),
    {
        proof {
            let k = it.index() as int;
            assert(orig.subrange(0, k + 1).drop_last() =~= orig.subrange(0, k));
        }
        insert_sorted(&mut out, x);
    }
    assert(orig.subrange(0, orig.len() as int) =~= orig);
    out
}

/// Recursively collect `(column, char)` pairs from a frame at column
/// offset `col_offset`, sorted by column (see [`collect_frame`]); `None`
/// where the frame holds a rule, shape or image.
pub fn collect_chars(frame: &TermFrame, col_offset: Col) -> (r: Option<Vec<(Col, char)>>)
    ensures
        match r {
            Some(v) => collect_frame(*frame, col_offset) == Some(v@),
            None => collect_frame(*frame, col_offset) is None,
        },
    decreases *frame,
{
    let mut out: Vec<(Col, char)> = Vec::new();
    let mut i: usize = 0;
    while i < frame.items.len()
        invariant
            i <= frame.items@.len(),
            collect_items(frame.items@.subrange(0, i as int), col_offset) == Some(out@),
        decreases frame.items@.len() - i,
    {
        let ghost sub = frame.items@.subrange(0, i + 1);
        proof {
            assert(sub.drop_last() =~= frame.items@.subrange(0, i as int));
            assert(sub.last() == frame.items@[i as int]);
        }
        let abs_col = frame.items[i].0.col.add(col_offset);
        match &frame.items[i].1 {
            TermFrameItem::Text(s, _) => {
                let cs = chars_of(s.as_str());
                let mut c = abs_col;
                let mut j: usize = 0;
                let ghost prev = out@;
                while j < cs.len()
                    invariant
                        j <= cs@.len(),
                        out@ == prev + text_chars(cs@.subrange(0, j as int), abs_col),
                        c == advance(abs_col, cs@.subrange(0, j as int)),
                    decreases cs@.len() - j,
                {
                    proof {
                        assert(cs@.subrange(0, j + 1).drop_last() =~= cs@.subrange(0, j as int));
                    }
                    let ch = cs[j];
                    out.push((c, ch));
                    c = c.add(char_cols(ch));
                    j = j + 1;
                    proof {
                        assert(out@ =~= prev + text_chars(cs@.subrange(0, j as int), abs_col));
                    }
                }
                proof {
                    assert(cs@.subrange(0, cs@.len() as int) =~= cs@);
                }
            },
            TermFrameItem::Frame(f) => {
                proof {
                    assert(decreases_to!(*frame => frame.items));
                    assert(decreases_to!(frame.items => frame.items@));
                    assert(decreases_to!(frame.items@ => frame.items@[i as int]));
                }
                match collect_chars(f, abs_col) {
                    Some(sub_chars) => {
                        let ghost prev = out@;
                        let mut sc = sub_chars;
                        out.append(&mut sc);
                        proof {
                            assert(out@ =~= prev + sub_chars@);
                        }
                    },
                    None => {
                        proof {
                            lemma_collect_stays_none(frame.items@, i as int + 1, col_offset);
                        }
                        return None;
                    },
                }
            },
            TermFrameItem::Tag(_) => {},
            _ => {
                proof {
                    lemma_collect_stays_none(frame.items@, i as int + 1, col_offset);
                }
                return None;
            },
        }
        i = i + 1;
    }
    proof {
        assert(frame.items@.subrange(0, frame.items@.len() as int) =~= frame.items@);
    }
    Some(sort_chars(out))
}

/// Once collecting fails on a prefix of the items, it fails on all of them.
proof fn lemma_collect_stays_none(items: Seq<(TermPoint, TermFrameItem)>, k: int, off: Col)
    requires
        0 <= k <= items.len(),
        collect_items(items.subrange(0, k), off) is None,
    ensures
        collect_items(items, off) is None,
    decreases items.len() - k,
{
    if k < items.len() {
        assert(items.subrange(0, k + 1).drop_last() =~= items.subrange(0, k));
        lemma_collect_stays_none(items, k + 1, off);
    } else {
        assert(items.subrange(0, k) =~= items);
    }
}

// ── Frame-level converters ───────────────────────────────────────────────

/// The characters of `s` each converted by `sup` (superscript when true,
/// subscript otherwise), or `None` when one has no such form.
pub open spec fn convert_all(s: Seq<(Col, char)>, sup: bool) -> Option<Seq<char>>
    decreases s.len(),
{
    if s.len() == 0 {
        Some(Seq::empty())
    } else {
        match (convert_all(s.drop_last(), sup), if sup {
            superscript_of(s.last().1)
        } else {
            subscript_of(s.last().1)
        }) {
            (Some(prev), Some(c)) => Some(prev.push(c)),
            _ => None,
        }
    }
}

/// The script form of a frame: its characters in column order, each
/// converted, or `None` where the frame holds a rule, shape or image or a
/// character without such a form.
pub open spec fn frame_script_spec(frame: TermFrame, sup: bool) -> Option<Seq<char>> {
    match collect_frame(frame, TermScalar::Finite(0)) {
        Some(s) => convert_all(s, sup),
        None => None,
    }
}

/// Convert every collected character (superscript when `sup`).
fn convert_chars(chars: &Vec<(Col, char)>, sup: bool) -> (r: Option<String>)
    ensures
        match r {
            Some(s) => convert_all(chars@, sup) == Some(s@),
            None => convert_all(chars@, sup) is None,
        },
{
    let mut out = String::new();
    let mut i: usize = 0;
    while i < chars.len()
        invariant
            i <= chars@.len(),
            convert_all(chars@.subrange(0, i as int), sup) == Some(out@),
        decreases chars@.len() - i,
    {
        proof {
            assert(chars@.subrange(0, i + 1).drop_last() =~= chars@.subrange(0, i as int));
        }
        let c = if sup {
            to_superscript(chars[i].1)
        } else {
            to_subscript(chars[i].1)
        };
        match c {
            Some(c) => {
                push_char(&mut out, c);
            },
            None => {
                proof {
                    lemma_convert_stays_none(chars@, i as int + 1, sup);
                }
                return None;
            },
        }
        i = i + 1;
    }
    proof {
        assert(chars@.subrange(0, chars@.len() as int) =~= chars@);
    }
    Some(out)
}

/// Once converting fails on a prefix, it fails on the whole.
proof fn lemma_convert_stays_none(s: Seq<(Col, char)>, k: int, sup: bool)
    requires
        0 <= k <= s.len(),
        convert_all(s.subrange(0, k), sup) is None,
    ensures
        convert_all(s, sup) is None,
    decreases s.len() - k,
{
    if k < s.len() {
        assert(s.subrange(0, k + 1).drop_last() =~= s.subrange(0, k));
        lemma_convert_stays_none(s, k + 1, sup);
    } else {
        assert(s.subrange(0, k) =~= s);
    }
}

/// Convert every character of `frame` to its Unicode superscript form, in
/// column order; `None` unless the frame holds only text, nested frames and
/// tags and every character has a superscript form.
pub fn frame_to_superscript(frame: &TermFrame) -> (r: Option<String>)
    ensures
        match r {
            Some(s) => frame_script_spec(*frame, true) == Some(s@),
            None => frame_script_spec(*frame, true) is None,
        },
{
    match collect_chars(frame, TermScalar::zero()) {
        Some(chars) => convert_chars(&chars, true),
        None => None,
    }
}

/// Convert every character of `frame` to its Unicode subscript form, in
/// column order; `None` unless the frame holds only text, nested frames and
/// tags and every character has a subscript form.
pub fn frame_to_subscript(frame: &TermFrame) -> (r: Option<String>)
    ensures
        match r {
            Some(s) => frame_script_spec(*frame, false) == Some(s@),
            None => frame_script_spec(*frame, false) is None,
        },
{
    match collect_chars(frame, TermScalar::zero()) {
        Some(chars) => convert_chars(&chars, false),
        None => None,
    }
}

// ── Laws ─────────────────────────────────────────────────────────────────

/// Whether the columns of `s` never decrease.
pub open spec fn col_sorted(s: Seq<(Col, char)>) -> bool {
    forall|i: int, j: int| 0 <= i < j < s.len() ==> (#[trigger] s[i]).0.le_spec((#[trigger] s[j]).0)
}

proof fn lemma_insert_by_col(sorted: Seq<(Col, char)>, x: (Col, char))
    requires
        col_sorted(sorted),
    ensures
        col_sorted(insert_by_col(sorted, x)),
        insert_by_col(sorted, x).len() == sorted.len() + 1,
        insert_by_col(sorted, x).to_multiset() == sorted.to_multiset().insert(x),
        forall|i: int|
            0 <= i < insert_by_col(sorted, x).len() ==> (#[trigger] insert_by_col(sorted, x)[i] == x
                || sorted.contains(insert_by_col(sorted, x)[i])),
    decreases sorted.len(),
{
    broadcast use vstd::seq_lib::group_to_multiset_ensures;
    let r = insert_by_col(sorted, x);
    if sorted.len() == 0 {
        assert(r =~= seq![x]);
        assert(r.to_multiset() =~= Seq::<(Col, char)>::empty().to_multiset().insert(x)) by {
            assert(seq![x] =~= Seq::<(Col, char)>::empty().push(x));
        }
    } else if sorted.last().0.le_spec(x.0) {
        assert forall|i: int, j: int| 0 <= i < j < r.len() implies (#[trigger] r[i]).0.le_spec(
            (#[trigger] r[j]).0,
        ) by {
            if j == r.len() - 1 && i < sorted.len() - 1 {
                assert(sorted[i].0.le_spec(sorted.last().0));
            }
        }
        assert forall|i: int| 0 <= i < r.len() implies (#[trigger] r[i] == x || sorted.contains(r[i])) by {
            if i < sorted.len() {
                assert(sorted.contains(sorted[i]));
            }
        }
    } else {
        let p = sorted.drop_last();
        let y = sorted.last();
        assert(col_sorted(p)) by {
            assert forall|i: int, j: int| 0 <= i < j < p.len() implies (#[trigger] p[i]).0.le_spec(
                (#[trigger] p[j]).0,
            ) by {
                assert(p[i] == sorted[i] && p[j] == sorted[j]);
            }
        }
        lemma_insert_by_col(p, x);
        let q = insert_by_col(p, x);
        assert forall|i: int| 0 <= i < q.len() implies (#[trigger] q[i]).0.le_spec(y.0) by {
            if q[i] == x {
            } else {
                assert(p.contains(q[i]));
                let k = choose|k: int| 0 <= k < p.len() && p[k] == q[i];
                assert(sorted[k] == p[k]);
                assert(sorted[k].0.le_spec(sorted[sorted.len() - 1].0));
            }
        }
        assert forall|i: int, j: int| 0 <= i < j < r.len() implies (#[trigger] r[i]).0.le_spec(
            (#[trigger] r[j]).0,
        ) by {
            if j == r.len() - 1 {
                assert(r[i] == q[i]);
            } else {
                assert(r[i] == q[i] && r[j] == q[j]);
            }
        }
        assert(sorted =~= p.push(y));
        assert(r.to_multiset() =~= sorted.to_multiset().insert(x));
        assert forall|i: int| 0 <= i < r.len() implies (#[trigger] r[i] == x || sorted.contains(r[i])) by {
            if i < q.len() {
                assert(r[i] == q[i]);
                if q[i] != x {
                    assert(p.contains(q[i]));
                    let k = choose|k: int| 0 <= k < p.len() && p[k] == q[i];
                    assert(sorted[k] == q[i]);
                }
            } else {
                assert(sorted[sorted.len() - 1] == y);
            }
        }
    }
}

/// Sorting by column puts the columns in order and keeps every element
/// exactly as often as it occurs.
pub proof fn law_sort_by_col(s: Seq<(Col, char)>)
    ensures
        col_sorted(sort_by_col(s)),
        sort_by_col(s).to_multiset() == s.to_multiset(),
    decreases s.len(),
{
    broadcast use vstd::seq_lib::group_to_multiset_ensures;
    if s.len() > 0 {
        law_sort_by_col(s.drop_last());
        lemma_insert_by_col(sort_by_col(s.drop_last()), s.last());
        assert(s =~= s.drop_last().push(s.last()));
    }
}

/// The characters collected from a frame come in column order.
pub proof fn law_collected_chars_in_column_order(f: TermFrame, off: Col)
    ensures
        collect_frame(f, off) matches Some(s) ==> col_sorted(s),
{
    if let Some(s) = collect_items(f.items@, off) {
        law_sort_by_col(s);
    }
}

} // verus!
