//! Bullet lists, numbered lists and term lists, and stacking the frames
//! of list items and of block sequences.
//!
//! A list item is laid out from its body's frame: a marker at the left
//! (`• `, or the item's number followed by `. `) and the body indented
//! after it; a term item is the term, a `:` separator and the description
//! side by side.  Items are stacked top to bottom.

use vstd::prelude::*;
use crate::config::TermConfig;
use crate::frame::{TermFrame, TermFrameItem, is_text_item};
use crate::geom::{Col, Row, TermPoint, TermSize};
use crate::scalar::{TermScalar, seq_max, seq_sum};
use crate::math::run::{count_scalar, frame_heights, frame_widths, offsets};
use crate::style::TermStyle;
use crate::text::push_char;

verus! {

/// Whether `r` is `frames` stacked top to bottom, left-aligned, each given
/// at least one row, with `gap` rows between each two: as wide as the
/// widest, as tall as the rows and gaps (at least one).  No frames give an
/// empty frame.
pub open spec fn is_list_stack(r: TermFrame, frames: Seq<TermFrame>, gap: Row) -> bool {
    &&& frames.len() == 0 ==> r.is_empty_of(
        TermSize { cols: TermScalar::Finite(0), rows: TermScalar::Finite(0) },
    )
    &&& frames.len() > 0 ==> {
        &&& r.size == (TermSize {
            cols: seq_max(frame_widths(frames)),
            rows: seq_sum(frame_heights(frames)).add_spec(
                gap.mul_spec(TermScalar::fin(frames.len() - 1)),
            ).max_spec(TermScalar::Finite(1)),
        })
        &&& r.baseline == TermScalar::Finite(0)
        &&& r.content_height == TermScalar::Finite(0)
        &&& r.items@.len() == frames.len()
        &&& forall|i: int|
            0 <= i < frames.len() ==> #[trigger] r.items@[i] == (
                TermPoint { col: TermScalar::Finite(0), row: offsets(frame_heights(frames), gap, i) },
                TermFrameItem::Frame(frames[i]),
            )
    }
}

/// The widest of frames.
fn widest(frames: &Vec<TermFrame>) -> (r: TermScalar)
    requires
        frames@.len() > 0,
    ensures
        r == seq_max(frame_widths(frames@)),
{
    let ghost s = frame_widths(frames@);
    let mut m = frames[0].cols();
    let mut i: usize = 1;
    assert(s.subrange(0, 1).drop_last() =~= Seq::<TermScalar>::empty());
    while i < frames.len()
        invariant
            1 <= i <= frames@.len(),
            s == frame_widths(frames@),
            m == seq_max(s.subrange(0, i as int)),
        decreases frames@.len() - i,
    {
        proof {
            assert(s.subrange(0, i + 1).drop_last() =~= s.subrange(0, i as int));
        }
        m = m.max(frames[i].cols());
        i = i + 1;
    }
    assert(s.subrange(0, s.len() as int) =~= s);
    m
}

/// The sum of the heights of frames, each at least one row.
fn total_height(frames: &Vec<TermFrame>) -> (r: TermScalar)
    ensures
        r == seq_sum(frame_heights(frames@)),
{
    let ghost s = frame_heights(frames@);
    let mut t = TermScalar::zero();
    let mut i: usize = 0;
    while i < frames.len()
        invariant
            i <= frames@.len(),
            s == frame_heights(frames@),
            t == seq_sum(s.subrange(0, i as int)),
        decreases frames@.len() - i,
    {
        proof {
            assert(s.subrange(0, i + 1).drop_last() =~= s.subrange(0, i as int));
        }
        t = t.add(frames[i].rows().max(TermScalar::new(1)));
        i = i + 1;
    }
    assert(s.subrange(0, s.len() as int) =~= s);
    t
}

/// Stack the frames of list items top to bottom, left-aligned, with `gap`
/// rows between each two (see [`is_list_stack`]).
pub fn compose_list_vertical(frames: Vec<TermFrame>, gap: Row, baseline_idx: usize) -> (r: TermFrame)
    ensures
        is_list_stack(r, frames@, gap),
{
    let n = frames.len();
    if n == 0 {
        return TermFrame::new(TermSize::zero());
    }
    let ghost fs = frames@;
    let ghost hs = frame_heights(fs);
    let max_cols = widest(&frames);
    let total_rows = total_height(&frames).add(gap.mul(count_scalar(n - 1)));
    let mut out = TermFrame::new(TermSize::new(max_cols, total_rows.max(TermScalar::new(1))));
    let mut y = TermScalar::zero();
    let mut idx: usize = 0;
    for frame in it: frames.into_iter()
        invariant
            it.seq() == fs,
            n == fs.len(),
            hs == frame_heights(fs),
            idx == it.index(),
            it.index() < n ==> y == offsets(hs, gap, it.index() as int),
            out.items@.len() == it.index(),
            forall|j: int|
                0 <= j < it.index() ==> #[trigger] out.items@[j] == (
                    TermPoint { col: TermScalar::Finite(0), row: offsets(hs, gap, j) },
                    TermFrameItem::Frame(fs[j]),
                ),
            out.size == (TermSize { cols: max_cols, rows: total_rows.max_spec(TermScalar::Finite(1)) }),
            out.baseline == TermScalar::Finite(0),
            out.content_height == TermScalar::Finite(0),
    {
        let h = frame.rows().max(TermScalar::new(1));
        out.push_frame(TermPoint::new(TermScalar::zero(), y), frame);
        y = y.add(h);
        if idx + 1 < n {
            y = y.add(gap);
        }
        idx = idx + 1;
    }
    out
}

/// Stack block frames top to bottom with no gap (see [`is_list_stack`]);
/// a single frame is kept as it is.
pub fn compose_frames(frames: Vec<TermFrame>) -> (r: TermFrame)
    ensures
        frames@.len() == 1 ==> r == frames@[0],
        frames@.len() != 1 ==> is_list_stack(r, frames@, TermScalar::Finite(0)),
{
    let ghost fs = frames@;
    if frames.len() == 1 {
        let mut v = frames;
        return v.pop().unwrap();
    }
    let r = compose_list_vertical(frames, TermScalar::zero(), 0);
    proof {
        if fs.len() > 0 {
            assert(TermScalar::Finite(0).mul_spec(TermScalar::fin(fs.len() - 1)) == TermScalar::Finite(0));
        }
    }
    r
}


// ── List items ───────────────────────────────────────────────────────────

/// The rows between list items: none for a tight list, else the
/// paragraph gap.
pub open spec fn gap_of(tight: bool, config: TermConfig) -> Row {
    if tight {
        TermScalar::Finite(0)
    } else {
        config.par_gap
    }
}

/// The rows between list items (see [`gap_of`]).
pub fn list_gap(tight: bool, config: &TermConfig) -> (r: Row)
    ensures
        r == gap_of(tight, *config),
{
    if tight {
        TermScalar::zero()
    } else {
        config.par_gap
    }
}

/// The indent of list bodies: the given one, or the configured one where
/// the given one is zero.
pub fn list_indent(indent: Col, config: &TermConfig) -> (r: Col)
    ensures
        r == (if indent == TermScalar::Finite(0) { config.indent } else { indent }),
{
    if indent == TermScalar::zero() {
        config.indent
    } else {
        indent
    }
}

/// The width left for a list body: the page's width less the indent.
pub fn body_width(page_cols: Col, indent: Col) -> (r: Col)
    ensures
        r == page_cols.sub_spec(indent),
{
    page_cols.sub(indent)
}

/// The width left for a term's description: the page's width less the
/// term's and two more.
pub fn description_width(page_cols: Col, term_cols: Col) -> (r: Col)
    ensures
        r == page_cols.sub_spec(term_cols).sub_spec(TermScalar::Finite(2)),
{
    page_cols.sub(term_cols).sub(TermScalar::new(2))
}

/// Whether `f` holds just `text`, plainly styled, at its origin, and is
/// `cols` × `rows`.
pub open spec fn is_text_frame(f: TermFrame, text: Seq<char>, cols: Col, rows: Row) -> bool {
    &&& f.size == (TermSize { cols, rows })
    &&& f.baseline == TermScalar::Finite(0)
    &&& f.content_height == TermScalar::Finite(0)
    &&& f.items@.len() == 1
    &&& f.items@[0].0 == TermPoint::zero_spec()
    &&& is_text_item(f.items@[0].1, text, TermStyle::default_spec())
}

/// Whether `f` is a list item: the `marker` text (`marker_cols` wide, one
/// row) at the origin and the body `indent` columns in; as wide as the
/// indent and the body, as tall as the body (at least one row).
pub open spec fn is_marked_item(
    f: TermFrame,
    marker: Seq<char>,
    marker_cols: Col,
    indent: Col,
    body: TermFrame,
) -> bool {
    &&& f.size == (TermSize {
        cols: indent.add_spec(body.size.cols),
        rows: body.size.rows.max_spec(TermScalar::Finite(1)),
    })
    &&& f.baseline == TermScalar::Finite(0)
    &&& f.content_height == TermScalar::Finite(0)
    &&& f.items@.len() == 2
    &&& f.items@[0].0 == TermPoint::zero_spec()
    &&& f.items@[0].1 matches TermFrameItem::Frame(m) && is_text_frame(
        m,
        marker,
        marker_cols,
        TermScalar::Finite(1),
    )
    &&& f.items@[1] == (TermPoint { col: indent, row: TermScalar::Finite(0) }, TermFrameItem::Frame(body))
}

/// The bullet of list items.
pub open spec fn bullet_spec() -> Seq<char> {
    seq!['•', ' ']
}

/// The digit character of `d` (below ten).
pub open spec fn digit_char(d: int) -> char {
    (('0' as u32) + d) as char
}

/// The decimal digits of `n`, most significant first.
pub open spec fn decimal(n: nat) -> Seq<char>
    decreases n,
{
    if n < 10 {
        seq![digit_char(n as int)]
    } else {
        decimal(n / 10).push(digit_char((n % 10) as int))
    }
}

/// The marker of the numbered item `n`: its digits, a dot and a space.
pub open spec fn number_marker(n: u64) -> Seq<char> {
    decimal(n as nat) + seq!['.', ' ']
}

/// The decimal digits of a `u64` number are one to twenty.
proof fn lemma_decimal_len(n: nat)
    requires
        n <= u64::MAX,
    ensures
        1 <= decimal(n).len() <= 20,
{
    assert(pow10(20) == 100000000000000000000nat) by {
        reveal_with_fuel(pow10, 21);
    }
    lemma_digits_below(n, 20);
}

/// Numbers below ten to the `k` have at most `k` digits.
proof fn lemma_digits_below(n: nat, k: nat)
    requires
        k >= 1,
    ensures
        n < pow10(k) ==> decimal(n).len() <= k,
        decimal(n).len() >= 1,
    decreases n,
{
    reveal_with_fuel(pow10, 2);
    if n >= 10 {
        let k1: nat = if k >= 2 { (k - 1) as nat } else { 1 };
        lemma_digits_below(n / 10, k1);
        if n < pow10(k) {
            assert(k >= 2);
            assert(pow10(k) == 10 * pow10(k1));
            assert(n / 10 < pow10(k1));
        }
    }
}

/// Ten to the `k`.
pub open spec fn pow10(k: nat) -> nat
    decreases k,
{
    if k == 0 {
        1
    } else {
        10 * pow10((k - 1) as nat)
    }
}


/// The digit character of `d`.
fn digit(d: u64) -> (r: char)
    requires
        d < 10,
    ensures
        r == digit_char(d as int),
{
    ((d as u8) + 48u8) as char
}

/// The decimal digits of `n`.
fn decimal_chars(n: u64) -> (r: Vec<char>)
    ensures
        r@ == decimal(n as nat),
    decreases n,
{
    if n < 10 {
        let mut v: Vec<char> = Vec::new();
        v.push(digit(n));
        assert(v@ =~= decimal(n as nat));
        v
    } else {
        let mut v = decimal_chars(n / 10);
        v.push(digit(n % 10));
        v
    }
}

/// A plainly styled one-row frame holding `chars`, as wide as they are
/// many.
fn marker_frame(chars: &Vec<char>) -> (r: TermFrame)
    requires
        chars@.len() <= 100,
    ensures
        is_text_frame(r, chars@, TermScalar::Finite(chars@.len() as i64), TermScalar::Finite(1)),
{
    let mut text = String::new();
    let mut i: usize = 0;
    while i < chars.len()
        invariant
            i <= chars@.len(),
            text@ == chars@.subrange(0, i as int),
        decreases chars@.len() - i,
    {
        push_char(&mut text, chars[i]);
        i = i + 1;
        assert(text@ =~= chars@.subrange(0, i as int));
    }
    assert(text@ =~= chars@);
    TermFrame::text(text, TermStyle::plain(), TermScalar::new(chars.len() as i32), TermScalar::one())
}

/// A list item: the marker frame at the origin and the body `indent`
/// columns in.
fn marked_item_frame(marker: TermFrame, indent: Col, body: TermFrame) -> (r: TermFrame)
    ensures
        r.size == (TermSize {
            cols: indent.add_spec(body.size.cols),
            rows: body.size.rows.max_spec(TermScalar::Finite(1)),
        }),
        r.baseline == TermScalar::Finite(0),
        r.content_height == TermScalar::Finite(0),
        r.items@ == seq![
            (TermPoint::zero_spec(), TermFrameItem::Frame(marker)),
            (TermPoint { col: indent, row: TermScalar::Finite(0) }, TermFrameItem::Frame(body)),
        ],
{
    let mut item = TermFrame::new(TermSize::new(indent.add(body.cols()), body.rows().max(TermScalar::one())));
    item.push_frame(TermPoint::new(TermScalar::zero(), TermScalar::zero()), marker);
    item.push_frame(TermPoint::new(indent, TermScalar::zero()), body);
    assert(item.items@ =~= seq![
        (TermPoint::zero_spec(), TermFrameItem::Frame(marker)),
        (TermPoint { col: indent, row: TermScalar::Finite(0) }, TermFrameItem::Frame(body)),
    ]);
    item
}

/// A bullet list item: `• ` and the body `indent` columns in.
pub fn bullet_item_frame(indent: Col, body: TermFrame) -> (r: TermFrame)
    ensures
        is_marked_item(r, bullet_spec(), TermScalar::Finite(2), indent, body),
{
    let mut chars: Vec<char> = Vec::new();
    chars.push('•');
    chars.push(' ');
    assert(chars@ =~= bullet_spec());
    let marker = marker_frame(&chars);
    marked_item_frame(marker, indent, body)
}

/// A numbered list item: the number, `. ` and the body `indent` columns
/// in.
pub fn numbered_item_frame(number: u64, indent: Col, body: TermFrame) -> (r: TermFrame)
    ensures
        is_marked_item(
            r,
            number_marker(number),
            TermScalar::Finite(number_marker(number).len() as i64),
            indent,
            body,
        ),
{
    let mut chars = decimal_chars(number);
    proof {
        lemma_decimal_len(number as nat);
    }
    chars.push('.');
    chars.push(' ');
    assert(chars@ =~= number_marker(number));
    let marker = marker_frame(&chars);
    marked_item_frame(marker, indent, body)
}

/// The separator between a term and its description.
pub open spec fn term_separator() -> Seq<char> {
    seq![':', ' ', ' ']
}

/// Whether `f` is a term item: the term at the origin, the separator
/// (three columns) after it, and the description after that; as wide as
/// the three, as tall as the tallest (at least one row).
pub open spec fn is_term_item(f: TermFrame, term: TermFrame, desc: TermFrame) -> bool {
    let x1 = TermScalar::Finite(0).add_spec(term.size.cols);
    let x2 = x1.add_spec(TermScalar::Finite(3));
    &&& f.size == (TermSize {
        cols: term.size.cols.add_spec(TermScalar::Finite(3)).add_spec(desc.size.cols),
        rows: term.size.rows.max_spec(TermScalar::Finite(1)).max_spec(desc.size.rows).max_spec(
            TermScalar::Finite(1),
        ),
    })
    &&& f.baseline == TermScalar::Finite(0)
    &&& f.content_height == TermScalar::Finite(0)
    &&& f.items@.len() == 3
    &&& f.items@[0] == (TermPoint::zero_spec(), TermFrameItem::Frame(term))
    &&& f.items@[1].0 == (TermPoint { col: x1, row: TermScalar::Finite(0) })
    &&& f.items@[1].1 matches TermFrameItem::Frame(m) && is_text_frame(
        m,
        term_separator(),
        TermScalar::Finite(3),
        TermScalar::Finite(1),
    )
    &&& f.items@[2] == (TermPoint { col: x2, row: TermScalar::Finite(0) }, TermFrameItem::Frame(desc))
}

/// A term item: the term, `:  ` and the description side by side.
pub fn term_item_frame(term: TermFrame, desc: TermFrame) -> (r: TermFrame)
    ensures
        is_term_item(r, term, desc),
{
    let mut chars: Vec<char> = Vec::new();
    chars.push(':');
    chars.push(' ');
    chars.push(' ');
    assert(chars@ =~= term_separator());
    let sep = marker_frame(&chars);
    let term_cols = term.cols();
    let sep_cols = sep.cols();
    let total_cols = term_cols.add(sep_cols).add(desc.cols());
    let total_rows = term.rows().max(sep.rows()).max(desc.rows()).max(TermScalar::one());
    let mut item = TermFrame::new(TermSize::new(total_cols, total_rows));
    let mut x = TermScalar::zero();
    item.push_frame(TermPoint::new(x, TermScalar::zero()), term);
    x = x.add(term_cols);
    item.push_frame(TermPoint::new(x, TermScalar::zero()), sep);
    x = x.add(sep_cols);
    item.push_frame(TermPoint::new(x, TermScalar::zero()), desc);
    proof {
        assert(sep.size.rows == TermScalar::Finite(1));
    }
    item
}

/// The size of a marked list item for `body`.
pub open spec fn marked_item_size(indent: Col, body: TermFrame) -> TermSize {
    TermSize { cols: indent.add_spec(body.size.cols), rows: body.size.rows.max_spec(TermScalar::Finite(1)) }
}

/// The indices of the sizes that are not empty, in order.
pub open spec fn kept_indices(sizes: Seq<TermSize>) -> Seq<int>
    decreases sizes.len(),
{
    if sizes.len() == 0 {
        Seq::empty()
    } else {
        kept_indices(sizes.drop_last()) + if !sizes.last().is_empty_spec() {
            seq![sizes.len() - 1]
        } else {
            Seq::empty()
        }
    }
}

/// The kept indices lie within the sizes, in increasing order.
proof fn lemma_kept_indices(sizes: Seq<TermSize>)
    ensures
        forall|j: int|
            0 <= j < kept_indices(sizes).len() ==> 0 <= #[trigger] kept_indices(sizes)[j]
                < sizes.len(),
    decreases sizes.len(),
{
    if sizes.len() > 0 {
        let prev = kept_indices(sizes.drop_last());
        lemma_kept_indices(sizes.drop_last());
        let tail: Seq<int> = if !sizes.last().is_empty_spec() {
            seq![sizes.len() - 1]
        } else {
            Seq::empty()
        };
        assert(kept_indices(sizes) == prev + tail);
        assert forall|j: int| 0 <= j < kept_indices(sizes).len() implies 0 <= #[trigger] kept_indices(
            sizes,
        )[j] < sizes.len() by {
            if j < prev.len() {
                assert((prev + tail)[j] == prev[j]);
            } else {
                assert((prev + tail)[j] == tail[j - prev.len()]);
            }
        }
    }
}


/// The kept indices of a prefix one longer.
proof fn lemma_kept_take(sizes: Seq<TermSize>, k: int)
    requires
        0 <= k < sizes.len(),
    ensures
        kept_indices(sizes.take(k + 1)) == kept_indices(sizes.take(k)) + if !sizes[k].is_empty_spec() {
            seq![k]
        } else {
            Seq::empty()
        },
{
    assert(sizes.take(k + 1).drop_last() =~= sizes.take(k));
    assert(sizes.take(k + 1).last() == sizes[k]);
}

/// The indent that list bodies get (see [`list_indent`]).
pub open spec fn resolved_indent(indent: Col, config: TermConfig) -> Col {
    if indent == TermScalar::Finite(0) {
        config.indent
    } else {
        indent
    }
}

/// The sizes of the marked items for the bodies.
pub open spec fn marked_sizes(indent: Col, bodies: Seq<TermFrame>) -> Seq<TermSize> {
    bodies.map_values(|b: TermFrame| marked_item_size(indent, b))
}

/// Whether the items with the given indent can be told empty or not: their
/// widths are numbers.
pub open spec fn marked_ok(indent: Col, bodies: Seq<TermFrame>) -> bool {
    forall|i: int| 0 <= i < bodies.len() ==> indent.add_spec((#[trigger] bodies[i]).size.cols).is_num()
}

/// Lay out a bullet list from the frames of its item bodies: each item is
/// `• ` and the body; items that come out empty are left out, and the
/// others are stacked with the list's gap between them.
pub fn layout_list(bodies: Vec<TermFrame>, indent: Col, tight: bool, config: &TermConfig) -> (r:
    TermFrame)
    requires
        marked_ok(resolved_indent(indent, *config), bodies@),
    ensures
        ({
            let ind = resolved_indent(indent, *config);
            let ks = kept_indices(marked_sizes(ind, bodies@));
            exists|fs: Seq<TermFrame>|
                #[trigger] is_list_stack(r, fs, gap_of(tight, *config))
                    && fs.len() == ks.len() && forall|j: int|
                    0 <= j < fs.len() ==> is_marked_item(
                        #[trigger] fs[j],
                        bullet_spec(),
                        TermScalar::Finite(2),
                        ind,
                        bodies@[ks[j]],
                    )
        }),
{
    let gap = list_gap(tight, config);
    let ind = list_indent(indent, config);
    let ghost bs = bodies@;
    let ghost sizes = marked_sizes(ind, bs);
    let mut frames: Vec<TermFrame> = Vec::new();
    for body in it: bodies.into_iter()
        invariant
            it.seq() == bs,
            sizes == marked_sizes(ind, bs),
            marked_ok(ind, bs),
            frames@.len() == kept_indices(sizes.take(it.index() as int)).len(),
            forall|j: int|
                0 <= j < frames@.len() ==> is_marked_item(
                    #[trigger] frames@[j],
                    bullet_spec(),
                    TermScalar::Finite(2),
                    ind,
                    bs[kept_indices(sizes.take(it.index() as int))[j]],
                ),
    {
        let ghost k = it.index() as int;
        proof {
            lemma_kept_take(sizes, k);
        }
        let item = bullet_item_frame(ind, body);
        assert(item.size == sizes[k]);
        if !item.size().is_empty() {
            frames.push(item);
        }
    }
    proof {
        assert(sizes.take(bs.len() as int) =~= sizes);
    }
    let ghost fs = frames@;
    let r = compose_list_vertical(frames, gap, 0);
    assert(is_list_stack(r, fs, gap));
    r
}

/// The number after `n`: one less in a reversed list (never below zero),
/// one more otherwise (never past the largest).
pub open spec fn step_number(n: u64, reversed: bool) -> u64 {
    if reversed {
        if n == 0 {
            0
        } else {
            (n - 1) as u64
        }
    } else {
        if n == u64::MAX {
            n
        } else {
            (n + 1) as u64
        }
    }
}

/// The number of the first item: the given start, else the item count in
/// a reversed list and one otherwise.
pub open spec fn first_number(start: Option<u64>, reversed: bool, count: nat) -> u64 {
    match start {
        Some(s) => s,
        None => if reversed {
            count as u64
        } else {
            1
        },
    }
}

/// The number of item `i`: its own if it has one, else the one after the
/// previous item's (the first number for the first item).
pub open spec fn item_number(first: u64, reversed: bool, own: Seq<Option<u64>>, i: int) -> u64
    decreases i,
{
    let carried = if i <= 0 {
        first
    } else {
        step_number(item_number(first, reversed, own, i - 1), reversed)
    };
    match own[i] {
        Some(n) => n,
        None => carried,
    }
}

/// The numbers of the items of a numbered list (see [`item_number`]).
pub fn enum_numbers(start: Option<u64>, reversed: bool, own: &Vec<Option<u64>>) -> (r: Vec<u64>)
    ensures
        r@.len() == own@.len(),
        forall|i: int|
            0 <= i < own@.len() ==> #[trigger] r@[i] == item_number(
                first_number(start, reversed, own@.len()),
                reversed,
                own@,
                i,
            ),
{
    let ghost first = first_number(start, reversed, own@.len());
    let mut number: u64 = match start {
        Some(s) => s,
        None => if reversed {
            own.len() as u64
        } else {
            1
        },
    };
    let mut out: Vec<u64> = Vec::new();
    let mut i: usize = 0;
    while i < own.len()
        invariant
            i <= own@.len(),
            out@.len() == i,
            forall|j: int| 0 <= j < i ==> #[trigger] out@[j] == item_number(first, reversed, own@, j),
            number == (if i == 0 {
                first
            } else {
                step_number(item_number(first, reversed, own@, i - 1), reversed)
            }),
        decreases own@.len() - i,
    {
        number = match own[i] {
            Some(n) => n,
            None => number,
        };
        out.push(number);
        number = if reversed {
            if number == 0 {
                0
            } else {
                number - 1
            }
        } else {
            if number == u64::MAX {
                number
            } else {
                number + 1
            }
        };
        i = i + 1;
    }
    out
}

/// Lay out a numbered list from its items' own numbers (if any) and the
/// frames of their bodies: each item is its number, `. ` and the body;
/// items that come out empty are left out (their numbers still count),
/// and the others are stacked with the list's gap between them.
pub fn layout_enum(
    items: Vec<(Option<u64>, TermFrame)>,
    start: Option<u64>,
    reversed: bool,
    indent: Col,
    tight: bool,
    config: &TermConfig,
) -> (r: TermFrame)
    requires
        marked_ok(resolved_indent(indent, *config), items@.map_values(|p: (Option<u64>, TermFrame)| p.1)),
    ensures
        ({
            let ind = resolved_indent(indent, *config);
            let bs = items@.map_values(|p: (Option<u64>, TermFrame)| p.1);
            let own = items@.map_values(|p: (Option<u64>, TermFrame)| p.0);
            let first = first_number(start, reversed, items@.len());
            let ks = kept_indices(marked_sizes(ind, bs));
            exists|fs: Seq<TermFrame>|
                #[trigger] is_list_stack(r, fs, gap_of(tight, *config))
                    && fs.len() == ks.len() && forall|j: int|
                    0 <= j < fs.len() ==> is_marked_item(
                        #[trigger] fs[j],
                        number_marker(item_number(first, reversed, own, ks[j])),
                        TermScalar::Finite(
                            number_marker(item_number(first, reversed, own, ks[j])).len() as i64,
                        ),
                        ind,
                        bs[ks[j]],
                    )
        }),
{
    let gap = list_gap(tight, config);
    let ind = list_indent(indent, config);
    let ghost bs = items@.map_values(|p: (Option<u64>, TermFrame)| p.1);
    let ghost own = items@.map_values(|p: (Option<u64>, TermFrame)| p.0);
    let ghost first = first_number(start, reversed, items@.len());
    let ghost sizes = marked_sizes(ind, bs);
    let ghost all = items@;
    let mut number: u64 = match start {
        Some(s) => s,
        None => if reversed {
            items.len() as u64
        } else {
            1
        },
    };
    let mut frames: Vec<TermFrame> = Vec::new();
    for item in it: items.into_iter()
        invariant
            it.seq() == all,
            bs == all.map_values(|p: (Option<u64>, TermFrame)| p.1),
            own == all.map_values(|p: (Option<u64>, TermFrame)| p.0),
            sizes == marked_sizes(ind, bs),
            marked_ok(ind, bs),
            number == (if it.index() == 0 {
                first
            } else {
                step_number(item_number(first, reversed, own, it.index() - 1), reversed)
            }),
            frames@.len() == kept_indices(sizes.take(it.index() as int)).len(),
            forall|j: int|
                0 <= j < frames@.len() ==> is_marked_item(
                    #[trigger] frames@[j],
                    number_marker(
                        item_number(first, reversed, own, kept_indices(sizes.take(it.index() as int))[j]),
                    ),
                    TermScalar::Finite(
                        number_marker(
                            item_number(
                                first,
                                reversed,
                                own,
                                kept_indices(sizes.take(it.index() as int))[j],
                            ),
                        ).len() as i64,
                    ),
                    ind,
                    bs[kept_indices(sizes.take(it.index() as int))[j]],
                ),
    {
        let ghost k = it.index() as int;
        proof {
            lemma_kept_take(sizes, k);
        }
        let (own_number, body) = item;
        number = match own_number {
            Some(n) => n,
            None => number,
        };
        assert(number == item_number(first, reversed, own, k));
        let frame = numbered_item_frame(number, ind, body);
        assert(frame.size == sizes[k]);
        if !frame.size().is_empty() {
            frames.push(frame);
        }
        number = if reversed {
            if number == 0 {
                0
            } else {
                number - 1
            }
        } else {
            if number == u64::MAX {
                number
            } else {
                number + 1
            }
        };
    }
    proof {
        assert(sizes.take(bs.len() as int) =~= sizes);
    }
    let ghost fs = frames@;
    let r = compose_list_vertical(frames, gap, 0);
    assert(is_list_stack(r, fs, gap));
    r
}

/// The size of a term item.
pub open spec fn term_item_size(term: TermFrame, desc: TermFrame) -> TermSize {
    TermSize {
        cols: term.size.cols.add_spec(TermScalar::Finite(3)).add_spec(desc.size.cols),
        rows: term.size.rows.max_spec(TermScalar::Finite(1)).max_spec(desc.size.rows).max_spec(
            TermScalar::Finite(1),
        ),
    }
}

/// The sizes of the term items.
pub open spec fn term_sizes(items: Seq<(TermFrame, TermFrame)>) -> Seq<TermSize> {
    items.map_values(|p: (TermFrame, TermFrame)| term_item_size(p.0, p.1))
}

/// Lay out a term list from the frames of its terms and descriptions: each
/// item is the term, `:  ` and the description; items that come out empty
/// are left out, and the others are stacked with the list's gap between
/// them.
pub fn layout_terms(items: Vec<(TermFrame, TermFrame)>, tight: bool, config: &TermConfig) -> (r:
    TermFrame)
    requires
        forall|i: int|
            0 <= i < items@.len() ==> (#[trigger] term_sizes(items@)[i]).cols.is_num()
                && term_sizes(items@)[i].rows.is_num(),
    ensures
        ({
            let ks = kept_indices(term_sizes(items@));
            exists|fs: Seq<TermFrame>|
                #[trigger] is_list_stack(r, fs, gap_of(tight, *config))
                    && fs.len() == ks.len() && forall|j: int|
                    0 <= j < fs.len() ==> is_term_item(
                        #[trigger] fs[j],
                        items@[ks[j]].0,
                        items@[ks[j]].1,
                    )
        }),
{
    let gap = list_gap(tight, config);
    let ghost all = items@;
    let ghost sizes = term_sizes(all);
    let mut frames: Vec<TermFrame> = Vec::new();
    for item in it: items.into_iter()
        invariant
            it.seq() == all,
            sizes == term_sizes(all),
            forall|i: int|
                0 <= i < all.len() ==> (#[trigger] sizes[i]).cols.is_num() && sizes[i].rows.is_num(),
            frames@.len() == kept_indices(sizes.take(it.index() as int)).len(),
            forall|j: int|
                0 <= j < frames@.len() ==> is_term_item(
                    #[trigger] frames@[j],
                    all[kept_indices(sizes.take(it.index() as int))[j]].0,
                    all[kept_indices(sizes.take(it.index() as int))[j]].1,
                ),
    {
        let ghost k = it.index() as int;
        proof {
            lemma_kept_take(sizes, k);
        }
        let (term, desc) = item;
        let frame = term_item_frame(term, desc);
        assert(frame.size == sizes[k]);
        if !frame.size().is_empty() {
            frames.push(frame);
        }
    }
    proof {
        assert(sizes.take(all.len() as int) =~= sizes);
    }
    let ghost fs = frames@;
    let r = compose_list_vertical(frames, gap, 0);
    assert(is_list_stack(r, fs, gap));
    r
}


/// Items without numbers of their own count by one from the first number:
/// up in a plain list (as long as no number passes the largest), down in a
/// reversed one (never below zero).
pub proof fn law_enum_counts_by_one(first: u64, reversed: bool, own: Seq<Option<u64>>, i: int)
    requires
        0 <= i < own.len(),
        forall|j: int| 0 <= j <= i ==> (#[trigger] own[j]) is None,
    ensures
        !reversed && first + i <= u64::MAX ==> item_number(first, reversed, own, i) == first + i,
        reversed ==> item_number(first, reversed, own, i) == (if first >= i {
            first - i
        } else {
            0
        }),
    decreases i,
{
    if i > 0 {
        law_enum_counts_by_one(first, reversed, own, i - 1);
    }
}

/// A reversed list without a start numbers its items down to one.
pub proof fn law_reversed_enum_ends_at_one(own: Seq<Option<u64>>)
    requires
        0 < own.len() <= u64::MAX,
        forall|j: int| 0 <= j < own.len() ==> (#[trigger] own[j]) is None,
    ensures
        item_number(first_number(None, true, own.len()), true, own, 0) == own.len(),
        item_number(first_number(None, true, own.len()), true, own, own.len() - 1) == 1,
{
    law_enum_counts_by_one(own.len() as u64, true, own, own.len() - 1);
    law_enum_counts_by_one(own.len() as u64, true, own, 0);
}

} // verus!
