//! Math runs: linear sequences of fragments with automatic spacing, and the
//! frame compositions built from them.

use vstd::prelude::*;
use crate::frame::{TermFrame, TermFrameItem, is_text_item};
use crate::geom::{Col, Row, TermPoint, TermSize};
use crate::scalar::{TermScalar, seq_max, seq_sum};
use crate::style::TermStyle;
use crate::text::push_char;
use super::fragment::{MathClass, TermLimits, TermMathFragment, TermMathFrameFragment};

verus! {

// ── Spacing rules ────────────────────────────────────────────────────────

/// Whether one column of automatic space goes between a fragment of class
/// `l` and one of class `r`.  `pending` tells whether a soft space stood
/// between them; it only counts where one side is spaced.
pub open spec fn spacing_between(
    l: MathClass,
    r: MathClass,
    pending: bool,
    l_spaced: bool,
    r_spaced: bool,
) -> bool {
    if r == MathClass::Punctuation {
        false
    } else if l == MathClass::Punctuation {
        true
    } else if l == MathClass::Opening || r == MathClass::Closing || l == MathClass::Fence || r
        == MathClass::Fence {
        false
    } else if l == MathClass::Relation && r == MathClass::Relation {
        false
    } else if l == MathClass::Relation || r == MathClass::Relation {
        true
    } else if l == MathClass::Binary || r == MathClass::Binary {
        true
    } else if l == MathClass::Large && r == MathClass::Opening {
        false
    } else if l == MathClass::Large || r == MathClass::Large {
        true
    } else {
        pending && (l_spaced || r_spaced)
    }
}

/// The automatic spacing between two fragments: one column, or none.
pub open spec fn auto_spacing_spec(l: TermMathFragment, pending: bool, r: TermMathFragment) -> Option<
    Col,
> {
    if spacing_between(l.class_spec(), r.class_spec(), pending, l.is_spaced_spec(), r.is_spaced_spec()) {
        Some(TermScalar::Finite(1))
    } else {
        None
    }
}

/// The automatic inter-fragment spacing in columns, or `None` for none.
///
/// A simplified form of the TeXbook math spacing table: nothing before
/// punctuation, one column after it; nothing inside delimiters and fences;
/// one column around relations (but not between two), binary operators and
/// large operators (but not between a large operator and an opening
/// delimiter); and otherwise one column only for a soft space next to a
/// spaced fragment.
pub fn auto_spacing(l: &TermMathFragment, pending_space: bool, r: &TermMathFragment) -> (g: Option<
    Col,
>)
    ensures
        g == auto_spacing_spec(*l, pending_space, *r),
{
    let lc = l.class();
    let rc = r.class();
    let yes = if rc == MathClass::Punctuation {
        false
    } else if lc == MathClass::Punctuation {
        true
    } else if lc == MathClass::Opening || rc == MathClass::Closing || lc == MathClass::Fence || rc
        == MathClass::Fence {
        false
    } else if lc == MathClass::Relation && rc == MathClass::Relation {
        false
    } else if lc == MathClass::Relation || rc == MathClass::Relation {
        true
    } else if lc == MathClass::Binary || rc == MathClass::Binary {
        true
    } else if lc == MathClass::Large && rc == MathClass::Opening {
        false
    } else if lc == MathClass::Large || rc == MathClass::Large {
        true
    } else {
        pending_space && (l.is_spaced() || r.is_spaced())
    };
    if yes {
        Some(TermScalar::new(1))
    } else {
        None
    }
}

/// The automatic spacing table, case by case, over the classes of the two
/// fragments: it is always none or one column; nothing before punctuation
/// and one column after it; nothing after an opening delimiter or a fence
/// and nothing before a closing delimiter or a fence; otherwise one column
/// where exactly one side is a relation (after a closing delimiter too) and
/// none between two relations; then one column next to a binary operator,
/// none between a large operator and an opening delimiter, one column next
/// to a large operator; and for the other classes one column only for a
/// soft space next to a spaced fragment.
pub proof fn law_auto_spacing_table(l: TermMathFragment, pending: bool, r: TermMathFragment)
    ensures
        ({
            let g = auto_spacing_spec(l, pending, r);
            let lc = l.class_spec();
            let rc = r.class_spec();
            let punct = lc == MathClass::Punctuation || rc == MathClass::Punctuation;
            let delim = lc == MathClass::Opening || lc == MathClass::Fence || rc == MathClass::Closing
                || rc == MathClass::Fence;
            let rel = lc == MathClass::Relation || rc == MathClass::Relation;
            let bin = lc == MathClass::Binary || rc == MathClass::Binary;
            let large = lc == MathClass::Large || rc == MathClass::Large;
            &&& g is None || g == Some(TermScalar::Finite(1))
            &&& rc == MathClass::Punctuation ==> g is None
            &&& (lc == MathClass::Punctuation && rc != MathClass::Punctuation) ==> g == Some(
                TermScalar::Finite(1),
            )
            &&& (!punct && delim) ==> g is None
            &&& (!punct && !delim && lc == MathClass::Relation && rc == MathClass::Relation) ==> g is None
            &&& (!punct && !delim && (lc == MathClass::Relation) != (rc == MathClass::Relation)) ==> g
                == Some(TermScalar::Finite(1))
            &&& (!punct && !delim && !rel && bin) ==> g == Some(TermScalar::Finite(1))
            &&& (!punct && !delim && !rel && !bin && lc == MathClass::Large && rc == MathClass::Opening)
                ==> g is None
            &&& (!punct && !delim && !rel && !bin && large && !(lc == MathClass::Large && rc
                == MathClass::Opening)) ==> g == Some(TermScalar::Finite(1))
            &&& (!punct && !delim && !rel && !bin && !large) ==> (g is Some <==> (pending && (
            l.is_spaced_spec() || r.is_spaced_spec())))
        }),
{
}

// ── Run construction model ───────────────────────────────────────────────

/// Classes after which a varying operator (such as `+` or `-`) acts as an
/// infix binary operator rather than a prefix.
pub open spec fn makes_binary(c: MathClass) -> bool {
    c == MathClass::Normal || c == MathClass::Alphabetic || c == MathClass::Closing || c
        == MathClass::Fence
}

/// Whether a fragment is weak spacing.
pub open spec fn is_weak(f: TermMathFragment) -> bool {
    f matches TermMathFragment::Spacing(_, true)
}

/// The state of run construction: the fragments resolved so far, the index
/// of the last rendered fragment that automatic spacing follows, and
/// whether a soft space is pending since it.
pub type RunState = (Seq<TermMathFragment>, Option<int>, bool);

/// One step of run construction: the state after `frag`.
///
/// * A soft space is not kept; it becomes pending where a rendered fragment
///   came before it.
/// * Explicit spacing resets the automatic-spacing context.  Weak spacing
///   at the start is dropped, and weak spacing after weak spacing merges
///   into it, keeping the larger width.
/// * An alignment point is kept and changes nothing else; a line break
///   resets the context.
/// * A rendered fragment of class `Varying` after a `Normal`,
///   `Alphabetic`, `Closing` or `Fence` fragment becomes `Binary`; the
///   automatic spacing between the last rendered fragment and it is
///   inserted right after the former; then it is appended.
pub open spec fn run_step(st: RunState, frag: TermMathFragment) -> RunState {
    let res = st.0;
    let last = st.1;
    let pending = st.2;
    match frag {
        TermMathFragment::Space => (res, last, pending || last is Some),
        TermMathFragment::Spacing(c, weak) => {
            if weak && res.len() == 0 {
                (res, None, false)
            } else if weak && is_weak(res.last()) {
                (
                    res.update(
                        res.len() - 1,
                        TermMathFragment::Spacing(res.last()->Spacing_0.max_spec(c), true),
                    ),
                    None,
                    false,
                )
            } else {
                (res.push(frag), None, false)
            }
        },
        TermMathFragment::Align => (res.push(frag), last, pending),
        TermMathFragment::Linebreak => (res.push(frag), None, false),
        TermMathFragment::Frame(f) => {
            let g = if f.class == MathClass::Varying && last is Some && makes_binary(
                res[last->0].class_spec(),
            ) {
                TermMathFragment::Frame(TermMathFrameFragment { class: MathClass::Binary, ..f })
            } else {
                frag
            };
            let res2 = match last {
                Some(i) => match auto_spacing_spec(res[i], pending, g) {
                    Some(gap) => res.insert(i + 1, TermMathFragment::Spacing(gap, false)),
                    None => res,
                },
                None => res,
            };
            (res2.push(g), Some(res2.len() as int), false)
        },
    }
}

/// The state after all of `frags`, from the empty state.
pub open spec fn run_fold(frags: Seq<TermMathFragment>) -> RunState
    decreases frags.len(),
{
    if frags.len() == 0 {
        (Seq::empty(), None, false)
    } else {
        run_step(run_fold(frags.drop_last()), frags.last())
    }
}

/// `s` without a trailing weak spacing.
pub open spec fn drop_trailing_weak(s: Seq<TermMathFragment>) -> Seq<TermMathFragment> {
    if s.len() > 0 && is_weak(s.last()) {
        s.drop_last()
    } else {
        s
    }
}

/// The fragments of the run built from `frags`.
pub open spec fn run_spec(frags: Seq<TermMathFragment>) -> Seq<TermMathFragment> {
    drop_trailing_weak(run_fold(frags).0)
}

/// Whether the state's last index points at a rendered fragment.
pub open spec fn state_ok(st: RunState) -> bool {
    st.1 matches Some(i) ==> 0 <= i < st.0.len() && st.0[i] is Frame
}

/// The shape every resolved sequence has: no soft spaces, no weak spacing
/// at the start, and no two weak spacings side by side.
pub open spec fn resolved_shape(s: Seq<TermMathFragment>) -> bool {
    &&& forall|i: int| 0 <= i < s.len() ==> !(#[trigger] s[i] is Space)
    &&& s.len() > 0 ==> !is_weak(s[0])
    &&& forall|i: int, j: int|
        #![trigger s[i], s[j]]
        0 <= i && j == i + 1 && j < s.len() ==> !(is_weak(s[i]) && is_weak(s[j]))
}

/// The shape of a finished run: the resolved shape, and no weak spacing at
/// the end either.
pub open spec fn run_shape(s: Seq<TermMathFragment>) -> bool {
    &&& resolved_shape(s)
    &&& s.len() > 0 ==> !is_weak(s.last())
}

/// One step keeps the state well-formed and the resolved shape.
proof fn lemma_run_step_keeps(st: RunState, frag: TermMathFragment)
    requires
        state_ok(st),
        resolved_shape(st.0),
    ensures
        state_ok(run_step(st, frag)),
        resolved_shape(run_step(st, frag).0),
{
    let res = st.0;
    let next = run_step(st, frag).0;
    match frag {
        TermMathFragment::Spacing(c, weak) => {
            if weak && res.len() == 0 {
            } else if weak && is_weak(res.last()) {
                assert(res.len() > 1);
                assert forall|i: int, j: int|
                    0 <= i && j == i + 1 && j < next.len() implies !(is_weak(next[i]) && is_weak(
                        next[j],
                    )) by {
                    if j == next.len() - 1 {
                        assert(is_weak(res[i]) && is_weak(res[j]) ==> false);
                        assert(is_weak(res[j]));
                    }
                }
            } else {
                assert forall|i: int, j: int|
                    0 <= i && j == i + 1 && j < next.len() implies !(is_weak(next[i]) && is_weak(
                        next[j],
                    )) by {
                    if j == next.len() - 1 {
                        assert(next[i] == res.last());
                    } else {
                        assert(next[i] == res[i] && next[j] == res[j]);
                    }
                }
            }
        },
        TermMathFragment::Frame(f) => {
            let last = st.1;
            let pending = st.2;
            let g = if f.class == MathClass::Varying && last is Some && makes_binary(
                res[last->0].class_spec(),
            ) {
                TermMathFragment::Frame(TermMathFrameFragment { class: MathClass::Binary, ..f })
            } else {
                frag
            };
            let res2 = match last {
                Some(i) => match auto_spacing_spec(res[i], pending, g) {
                    Some(gap) => res.insert(i + 1, TermMathFragment::Spacing(gap, false)),
                    None => res,
                },
                None => res,
            };
            assert(resolved_shape(res2)) by {
                if last is Some && auto_spacing_spec(res[last->0], pending, g) is Some {
                    let k = last->0 + 1;
                    assert forall|i: int| 0 <= i < res2.len() implies !(#[trigger] res2[i] is Space) by {
                        if i < k {
                            assert(res2[i] == res[i]);
                        } else if i > k {
                            assert(res2[i] == res[i - 1]);
                        }
                    }
                    assert forall|i: int, j: int|
                        0 <= i && j == i + 1 && j < res2.len() implies !(is_weak(res2[i]) && is_weak(
                            res2[j],
                        )) by {
                        if j < k {
                            assert(res2[i] == res[i] && res2[j] == res[j]);
                        } else if i > k {
                            assert(res2[i] == res[i - 1] && res2[j] == res[j - 1]);
                        }
                    }
                    assert(res2[0] == res[0]);
                }
            }
            assert(next == res2.push(g));
            assert forall|i: int, j: int|
                0 <= i && j == i + 1 && j < next.len() implies !(is_weak(next[i]) && is_weak(
                    next[j],
                )) by {
                if j < next.len() - 1 {
                    assert(next[i] == res2[i] && next[j] == res2[j]);
                }
            }
            assert forall|i: int| 0 <= i < next.len() implies !(#[trigger] next[i] is Space) by {
                if i < res2.len() {
                    assert(next[i] == res2[i]);
                }
            }
        },
        _ => {
            assert forall|i: int, j: int|
                0 <= i && j == i + 1 && j < next.len() implies !(is_weak(next[i]) && is_weak(
                    next[j],
                )) by {
                if j < res.len() {
                    assert(next[i] == res[i] && next[j] == res[j]);
                }
            }
            assert forall|i: int| 0 <= i < next.len() implies !(#[trigger] next[i] is Space) by {
                if i < res.len() {
                    assert(next[i] == res[i]);
                }
            }
        },
    }
}

/// The resolved fragments of every prefix have the resolved shape, and the
/// state is well-formed.
proof fn lemma_run_fold_shape(frags: Seq<TermMathFragment>)
    ensures
        state_ok(run_fold(frags)),
        resolved_shape(run_fold(frags).0),
    decreases frags.len(),
{
    if frags.len() > 0 {
        lemma_run_fold_shape(frags.drop_last());
        lemma_run_step_keeps(run_fold(frags.drop_last()), frags.last());
    }
}

/// A run has no soft spaces, no weak spacing at its start or end, and no
/// two weak spacings side by side, whatever fragments it is built from.
pub proof fn law_run_has_no_stray_spacing(frags: Seq<TermMathFragment>)
    ensures
        run_shape(run_spec(frags)),
{
    lemma_run_fold_shape(frags);
    let s = run_fold(frags).0;
    if s.len() > 0 && is_weak(s.last()) {
        let t = s.drop_last();
        assert forall|i: int| 0 <= i < t.len() implies !(#[trigger] t[i] is Space) by {
            assert(t[i] == s[i]);
        }
        assert forall|i: int, j: int|
            0 <= i && j == i + 1 && j < t.len() implies !(is_weak(t[i]) && is_weak(t[j])) by {
            assert(t[i] == s[i] && t[j] == s[j]);
        }
        if t.len() > 0 {
            assert(s[t.len() - 1] == t.last());
            assert(s[t.len() as int] == s.last());
        }
    }
}

/// A linear collection of math fragments with spacing rules applied.
pub struct TermMathRun(pub Vec<TermMathFragment>);

impl TermMathRun {
    /// Build a run from raw fragments, inserting automatic inter-fragment
    /// spacing and collapsing weak spacings (see [`run_step`]); a trailing
    /// weak spacing is dropped.
    pub fn new(frags: Vec<TermMathFragment>) -> (run: TermMathRun)
        ensures
            run.0@ == run_spec(frags@),
            run_shape(run.0@),
    {
        let ghost orig = frags@;
        let mut resolved: Vec<TermMathFragment> = Vec::new();
        let mut last: Option<usize> = None;
        let mut pending_space = false;
        assert(orig.subrange(0, 0) =~= Seq::<TermMathFragment>::empty());
        for frag in it: frags.into_iter()
            invariant
                it.seq() == orig,
                (resolved@, opt_int(last), pending_space) == run_fold(
                    orig.subrange(0, it.index() as int),
                ),
                state_ok((resolved@, opt_int(last), pending_space)),
        {
            let ghost k = it.index() as int;
            let ghost before = (resolved@, opt_int(last), pending_space);
            proof {
                assert(orig.subrange(0, k + 1).drop_last() =~= orig.subrange(0, k));
                assert(orig.subrange(0, k + 1).last() == frag);
            }
            let mut frag = frag;
            match frag {
                TermMathFragment::Space => {
                    if last.is_some() {
                        pending_space = true;
                    }
                },
                TermMathFragment::Spacing(cols, weak) => {
                    last = None;
                    pending_space = false;
                    if weak && resolved.len() == 0 {
                    } else if weak && matches!(resolved[resolved.len() - 1], TermMathFragment::Spacing(_, true)) {
                        let prev = resolved.pop().unwrap();
                        let prev_cols = match prev {
                            TermMathFragment::Spacing(p, _) => p,
                            _ => cols,
                        };
                        resolved.push(TermMathFragment::Spacing(prev_cols.max(cols), true));
                        proof {
                            assert(resolved@ =~= before.0.update(
                                before.0.len() - 1,
                                TermMathFragment::Spacing(before.0.last()->Spacing_0.max_spec(cols), true),
                            ));
                        }
                    } else {
                        resolved.push(frag);
                    }
                },
                TermMathFragment::Align => {
                    resolved.push(frag);
                },
                TermMathFragment::Linebreak => {
                    last = None;
                    pending_space = false;
                    resolved.push(frag);
                },
                TermMathFragment::Frame(_) => {
                    if frag.class() == MathClass::Varying {
                        match last {
                            Some(i) => {
                                if makes_binary_class(resolved[i].class()) {
                                    frag.set_class(MathClass::Binary);
                                }
                            },
                            None => {},
                        }
                    }
                    match last {
                        Some(i) => {
                            match auto_spacing(&resolved[i], pending_space, &frag) {
                                Some(gap) => {
                                    let n = resolved.len();
                                    assert(i < n);
                                    resolved.insert(i + 1, TermMathFragment::Spacing(gap, false));
                                },
                                None => {},
                            }
                        },
                        None => {},
                    }
                    pending_space = false;
                    last = Some(resolved.len());
                    resolved.push(frag);
                },
            }
            proof {
                lemma_run_fold_shape(orig.subrange(0, k + 1));
            }
        }
        proof {
            assert(orig.subrange(0, orig.len() as int) =~= orig);
        }
        if resolved.len() > 0 && matches!(resolved[resolved.len() - 1], TermMathFragment::Spacing(_, true)) {
            resolved.pop();
        }
        proof {
            law_run_has_no_stray_spacing(orig);
        }
        TermMathRun(resolved)
    }
}

// ── Run metrics model ────────────────────────────────────────────────────

/// The sum of the widths of `s` (spacing included), added from the left.
pub open spec fn total_width_spec(s: Seq<TermMathFragment>) -> Col
    decreases s.len(),
{
    if s.len() == 0 {
        TermScalar::Finite(0)
    } else {
        total_width_spec(s.drop_last()).add_spec(s.last().width_spec())
    }
}

/// A running maximum extended by `v`.
pub open spec fn fold_max(acc: Option<TermScalar>, v: TermScalar) -> Option<TermScalar> {
    Some(
        match acc {
            Some(m) => m.max_spec(v),
            None => v,
        },
    )
}

/// The largest ascent of the fragments of `s` that are not alignment
/// points or line breaks, if there is any.
pub open spec fn max_ascent_opt(s: Seq<TermMathFragment>) -> Option<Row>
    decreases s.len(),
{
    if s.len() == 0 {
        None
    } else if s.last().is_ignorant_spec() {
        max_ascent_opt(s.drop_last())
    } else {
        fold_max(max_ascent_opt(s.drop_last()), s.last().ascent_spec())
    }
}

/// The largest descent of the fragments of `s` that are not alignment
/// points or line breaks, if there is any.
pub open spec fn max_descent_opt(s: Seq<TermMathFragment>) -> Option<Row>
    decreases s.len(),
{
    if s.len() == 0 {
        None
    } else if s.last().is_ignorant_spec() {
        max_descent_opt(s.drop_last())
    } else {
        fold_max(max_descent_opt(s.drop_last()), s.last().descent_spec())
    }
}

/// An optional value, or zero.
pub open spec fn or_zero(o: Option<TermScalar>) -> TermScalar {
    match o {
        Some(v) => v,
        None => TermScalar::Finite(0),
    }
}

/// The ascent of a run: the largest ascent of its height-contributing
/// fragments, or zero.
pub open spec fn run_ascent(s: Seq<TermMathFragment>) -> Row {
    or_zero(max_ascent_opt(s))
}

/// The descent of a run: the largest descent of its height-contributing
/// fragments, or zero.
pub open spec fn run_descent(s: Seq<TermMathFragment>) -> Row {
    or_zero(max_descent_opt(s))
}

/// The number of line breaks in `s`.
pub open spec fn count_linebreaks(s: Seq<TermMathFragment>) -> nat
    decreases s.len(),
{
    if s.len() == 0 {
        0
    } else {
        count_linebreaks(s.drop_last()) + if s.last() is Linebreak {
            1nat
        } else {
            0nat
        }
    }
}

/// The rows finished so far and the row under way, splitting `s` at its
/// line breaks.
pub open spec fn split_state(s: Seq<TermMathFragment>) -> (Seq<Seq<TermMathFragment>>, Seq<
    TermMathFragment,
>)
    decreases s.len(),
{
    if s.len() == 0 {
        (Seq::empty(), Seq::empty())
    } else {
        let st = split_state(s.drop_last());
        if s.last() is Linebreak {
            (st.0.push(st.1), Seq::empty())
        } else {
            (st.0, st.1.push(s.last()))
        }
    }
}

/// `s` split at its line breaks, which are dropped: one row per line, the
/// empty rows included (as `slice::split` gives them).
pub open spec fn split_rows(s: Seq<TermMathFragment>) -> Seq<Seq<TermMathFragment>> {
    split_state(s).0.push(split_state(s).1)
}

/// Rows joined back with a line break between each two.
pub open spec fn join_rows(rows: Seq<Seq<TermMathFragment>>) -> Seq<TermMathFragment>
    decreases rows.len(),
{
    if rows.len() == 0 {
        Seq::empty()
    } else if rows.len() == 1 {
        rows[0]
    } else {
        join_rows(rows.drop_last()).push(TermMathFragment::Linebreak) + rows.last()
    }
}

/// The items of the frame of a single-row run: each rendered fragment's
/// frame at the sum of the widths before it, shifted down so that its
/// baseline meets `asc`.
pub open spec fn row_items(s: Seq<TermMathFragment>, asc: Row) -> Seq<(TermPoint, TermFrameItem)>
    decreases s.len(),
{
    if s.len() == 0 {
        Seq::empty()
    } else {
        let prev = row_items(s.drop_last(), asc);
        match s.last() {
            TermMathFragment::Frame(ff) => prev.push(
                (
                    TermPoint {
                        col: total_width_spec(s.drop_last()),
                        row: asc.sub_spec(ff.frame.baseline),
                    },
                    TermFrameItem::Frame(ff.frame),
                ),
            ),
            _ => prev,
        }
    }
}

/// Whether `f` is the frame that a single-row run of `s` composes into:
/// as wide as the run (at least 0), as tall as its ascent plus descent (at
/// least 0), with the baseline at its ascent.
pub open spec fn is_row_frame(f: TermFrame, s: Seq<TermMathFragment>) -> bool {
    &&& f.size == (TermSize {
        cols: total_width_spec(s).max_spec(TermScalar::Finite(0)),
        rows: run_ascent(s).add_spec(run_descent(s)).max_spec(TermScalar::Finite(0)),
    })
    &&& f.baseline == run_ascent(s)
    &&& f.content_height == TermScalar::Finite(0)
    &&& f.items@ == row_items(s, run_ascent(s))
}

/// Whether every rendered fragment of `s` is text-like.
pub open spec fn all_text_like(s: Seq<TermMathFragment>) -> bool {
    forall|i: int| 0 <= i < s.len() && s[i] is Frame ==> (#[trigger] s[i]).is_text_like_spec()
}

proof fn lemma_count_linebreaks_bound(s: Seq<TermMathFragment>)
    ensures
        count_linebreaks(s) <= s.len(),
        s.len() > 0 && count_linebreaks(s) == s.len() ==> s.last() is Linebreak,
    decreases s.len(),
{
    if s.len() > 0 {
        lemma_count_linebreaks_bound(s.drop_last());
    }
}

proof fn lemma_split_state(s: Seq<TermMathFragment>)
    ensures
        split_state(s).0.len() == count_linebreaks(s),
        join_rows(split_state(s).0.push(split_state(s).1)) == s,
        forall|i: int|
            0 <= i < split_state(s).0.len() ==> forall|j: int|
                0 <= j < (#[trigger] split_state(s).0[i]).len() ==> !(split_state(s).0[i][j] is Linebreak),
        forall|j: int| 0 <= j < split_state(s).1.len() ==> !(#[trigger] split_state(s).1[j] is Linebreak),
    decreases s.len(),
{
    if s.len() > 0 {
        let p = s.drop_last();
        lemma_split_state(p);
        let st = split_state(p);
        if s.last() is Linebreak {
            let rows = st.0.push(st.1).push(Seq::<TermMathFragment>::empty());
            assert(rows.drop_last() =~= st.0.push(st.1));
            assert(join_rows(rows) =~= p.push(TermMathFragment::Linebreak) + Seq::<
                TermMathFragment,
            >::empty());
            assert(p.push(TermMathFragment::Linebreak) + Seq::<TermMathFragment>::empty() =~= s);
            let d = st.0.push(st.1);
            assert forall|i: int|
                0 <= i < d.len() implies forall|j: int|
                0 <= j < (#[trigger] d[i]).len() ==> !(d[i][j] is Linebreak) by {
                if i < st.0.len() {
                    assert(d[i] == st.0[i]);
                }
            }
        } else {
            let rows = st.0.push(st.1.push(s.last()));
            if st.0.len() == 0 {
                assert(join_rows(st.0.push(st.1)) == st.1);
                assert(join_rows(rows) == st.1.push(s.last()));
                assert(st.1.push(s.last()) =~= s);
            } else {
                assert(rows.drop_last() =~= st.0);
                assert(st.0.push(st.1).drop_last() =~= st.0);
                assert(join_rows(rows) == join_rows(st.0).push(TermMathFragment::Linebreak) + st.1.push(
                    s.last(),
                ));
                assert(join_rows(st.0.push(st.1)) == join_rows(st.0).push(TermMathFragment::Linebreak)
                    + st.1);
                assert(join_rows(st.0).push(TermMathFragment::Linebreak) + st.1.push(s.last())
                    =~= (join_rows(st.0).push(TermMathFragment::Linebreak) + st.1).push(s.last()));
                assert(p.push(s.last()) =~= s);
            }
            let c = st.1.push(s.last());
            assert forall|j: int| 0 <= j < c.len() implies !(#[trigger] c[j] is Linebreak) by {
                if j < st.1.len() {
                    assert(c[j] == st.1[j]);
                }
            }
        }
    }
}

/// Splitting a run at its line breaks gives one row more than it has line
/// breaks, no row holds a line break, and joining the rows back with line
/// breaks gives the run again.
pub proof fn law_split_rows_join(s: Seq<TermMathFragment>)
    ensures
        split_rows(s).len() == count_linebreaks(s) + 1,
        forall|i: int, j: int|
            0 <= i < split_rows(s).len() && 0 <= j < split_rows(s)[i].len() ==> !(
            #[trigger] split_rows(s)[i][j] is Linebreak),
        join_rows(split_rows(s)) == s,
{
    lemma_split_state(s);
    let st = split_state(s);
    assert forall|i: int, j: int|
        0 <= i < split_rows(s).len() && 0 <= j < split_rows(s)[i].len() implies !(
        #[trigger] split_rows(s)[i][j] is Linebreak) by {
        if i < st.0.len() {
            assert(split_rows(s)[i] == st.0[i]);
            assert(!(st.0[i][j] is Linebreak));
        } else {
            assert(split_rows(s)[i] == st.1);
        }
    }
}

/// Whether the last fragment of `s` is a line break.
pub open spec fn ends_in_linebreak(s: Seq<TermMathFragment>) -> bool {
    s.len() > 0 && s.last() is Linebreak
}

/// The visual rows of `s`: `s` split at its line breaks, where a trailing
/// line break makes no empty row after it.
pub open spec fn visual_rows(s: Seq<TermMathFragment>) -> Seq<Seq<TermMathFragment>> {
    if ends_in_linebreak(s) {
        split_rows(s.drop_last())
    } else {
        split_rows(s)
    }
}

/// A run has one visual row more than it has line breaks, less one where
/// it ends in a line break; no visual row holds a line break; and joining
/// the rows back with line breaks gives the run without its trailing line
/// break.
pub proof fn law_visual_rows(s: Seq<TermMathFragment>)
    ensures
        visual_rows(s).len() == count_linebreaks(s) + 1 - (if ends_in_linebreak(s) {
            1int
        } else {
            0int
        }),
        visual_rows(s).len() >= 1,
        forall|i: int, j: int|
            0 <= i < visual_rows(s).len() && 0 <= j < visual_rows(s)[i].len() ==> !(
            #[trigger] visual_rows(s)[i][j] is Linebreak),
        join_rows(visual_rows(s)) == (if ends_in_linebreak(s) {
            s.drop_last()
        } else {
            s
        }),
{
    if ends_in_linebreak(s) {
        law_split_rows_join(s.drop_last());
    } else {
        law_split_rows_join(s);
    }
}

impl TermMathRun {
    /// A run of a single fragment.
    pub fn from_fragment(frag: TermMathFragment) -> (run: TermMathRun)
        ensures
            run.0@ == seq![frag],
    {
        let mut v: Vec<TermMathFragment> = Vec::new();
        v.push(frag);
        proof {
            assert(v@ =~= seq![frag]);
        }
        TermMathRun(v)
    }

    /// The fragments in order.
    pub fn iter(&self) -> (r: &[TermMathFragment])
        ensures
            r@ == self.0@,
    {
        self.0.as_slice()
    }

    /// Total width: the sum of all fragment widths, spacing included.
    pub fn total_width(&self) -> (r: Col)
        ensures
            r == total_width_spec(self.0@),
    {
        let mut w = TermScalar::zero();
        let mut i: usize = 0;
        while i < self.0.len()
            invariant
                i <= self.0@.len(),
                w == total_width_spec(self.0@.subrange(0, i as int)),
            decreases self.0@.len() - i,
        {
            proof {
                assert(self.0@.subrange(0, i + 1).drop_last() =~= self.0@.subrange(0, i as int));
            }
            w = w.add(self.0[i].width());
            i = i + 1;
        }
        proof {
            assert(self.0@.subrange(0, self.0@.len() as int) =~= self.0@);
        }
        w
    }

    /// The largest ascent of the fragments other than alignment points and
    /// line breaks, or zero.
    pub fn ascent(&self) -> (r: Row)
        ensures
            r == run_ascent(self.0@),
    {
        let mut m: Option<Row> = None;
        let mut i: usize = 0;
        while i < self.0.len()
            invariant
                i <= self.0@.len(),
                m == max_ascent_opt(self.0@.subrange(0, i as int)),
            decreases self.0@.len() - i,
        {
            proof {
                assert(self.0@.subrange(0, i + 1).drop_last() =~= self.0@.subrange(0, i as int));
            }
            if !self.0[i].is_ignorant() {
                let a = self.0[i].ascent();
                m = Some(
                    match m {
                        Some(x) => x.max(a),
                        None => a,
                    },
                );
            }
            i = i + 1;
        }
        proof {
            assert(self.0@.subrange(0, self.0@.len() as int) =~= self.0@);
        }
        match m {
            Some(x) => x,
            None => TermScalar::zero(),
        }
    }

    /// The largest descent of the fragments other than alignment points and
    /// line breaks, or zero.
    pub fn descent(&self) -> (r: Row)
        ensures
            r == run_descent(self.0@),
    {
        let mut m: Option<Row> = None;
        let mut i: usize = 0;
        while i < self.0.len()
            invariant
                i <= self.0@.len(),
                m == max_descent_opt(self.0@.subrange(0, i as int)),
            decreases self.0@.len() - i,
        {
            proof {
                assert(self.0@.subrange(0, i + 1).drop_last() =~= self.0@.subrange(0, i as int));
            }
            if !self.0[i].is_ignorant() {
                let d = self.0[i].descent();
                m = Some(
                    match m {
                        Some(x) => x.max(d),
                        None => d,
                    },
                );
            }
            i = i + 1;
        }
        proof {
            assert(self.0@.subrange(0, self.0@.len() as int) =~= self.0@);
        }
        match m {
            Some(x) => x,
            None => TermScalar::zero(),
        }
    }

    /// The class of the composed output: that of the only fragment of a
    /// one-fragment run, `Normal` otherwise.
    pub fn class(&self) -> (r: MathClass)
        ensures
            r == (if self.0@.len() == 1 {
                self.0@[0].class_spec()
            } else {
                MathClass::Normal
            }),
    {
        if self.0.len() == 1 {
            self.0[0].class()
        } else {
            MathClass::Normal
        }
    }

    /// Whether the run holds a line break.
    pub fn is_multiline(&self) -> (r: bool)
        ensures
            r == (exists|i: int| 0 <= i < self.0@.len() && #[trigger] self.0@[i] is Linebreak),
    {
        let mut i: usize = 0;
        while i < self.0.len()
            invariant
                i <= self.0@.len(),
                forall|j: int| 0 <= j < i ==> !(#[trigger] self.0@[j] is Linebreak),
            decreases self.0@.len() - i,
        {
            if matches!(self.0[i], TermMathFragment::Linebreak) {
                return true;
            }
            i = i + 1;
        }
        false
    }

    /// The number of visual rows: one more than the line breaks, where the
    /// last fragment is not a line break itself.
    pub fn row_count(&self) -> (r: usize)
        ensures
            r == count_linebreaks(self.0@) + 1 - (if self.0@.len() > 0 && self.0@.last() is Linebreak {
                1int
            } else {
                0int
            }),
    {
        let mut count: usize = 0;
        let mut i: usize = 0;
        while i < self.0.len()
            invariant
                i <= self.0@.len(),
                count == count_linebreaks(self.0@.subrange(0, i as int)),
            decreases self.0@.len() - i,
        {
            proof {
                assert(self.0@.subrange(0, i + 1).drop_last() =~= self.0@.subrange(0, i as int));
                lemma_count_linebreaks_bound(self.0@.subrange(0, i as int));
            }
            if matches!(self.0[i], TermMathFragment::Linebreak) {
                count = count + 1;
            }
            i = i + 1;
        }
        proof {
            assert(self.0@.subrange(0, self.0@.len() as int) =~= self.0@);
            lemma_count_linebreaks_bound(self.0@);
        }
        let n = self.0.len();
        if n > 0 && matches!(self.0[n - 1], TermMathFragment::Linebreak) {
            count
        } else {
            count + 1
        }
    }

    /// Split at the line breaks, which are dropped: one run per visual row
    /// (a trailing line break starts no row).
    pub fn rows(self) -> (r: Vec<TermMathRun>)
        ensures
            r@.len() == visual_rows(self.0@).len(),
            forall|i: int| 0 <= i < r@.len() ==> (#[trigger] r@[i]).0@ == visual_rows(self.0@)[i],
    {
        let ghost orig = self.0@;
        let orig_len = self.0.len();
        let last_is_break = orig_len > 0 && matches!(self.0[orig_len - 1], TermMathFragment::Linebreak);
        let mut out: Vec<TermMathRun> = Vec::new();
        let mut cur: Vec<TermMathFragment> = Vec::new();
        assert(orig.subrange(0, 0) =~= Seq::<TermMathFragment>::empty());
        for frag in it: self.0.into_iter()
            invariant
                it.seq() == orig,
                out@.len() == split_state(orig.subrange(0, it.index() as int)).0.len(),
                forall|i: int|
                    0 <= i < out@.len() ==> (#[trigger] out@[i]).0@ == split_state(
                        orig.subrange(0, it.index() as int),
                    ).0[i],
                cur@ == split_state(orig.subrange(0, it.index() as int)).1,
        {
            let ghost k = it.index() as int;
            proof {
                assert(orig.subrange(0, k + 1).drop_last() =~= orig.subrange(0, k));
            }
            if matches!(frag, TermMathFragment::Linebreak) {
                let mut row: Vec<TermMathFragment> = Vec::new();
                std::mem::swap(&mut row, &mut cur);
                out.push(TermMathRun(row));
            } else {
                cur.push(frag);
            }
        }
        proof {
            assert(orig.subrange(0, orig.len() as int) =~= orig);
        }
        let n = orig_len;
        if n > 0 && last_is_break {
            proof {
                assert(split_state(orig).0 == split_rows(orig.drop_last()));
            }
            return out;
        }
        out.push(TermMathRun(cur));
        out
    }

    /// Compose all fragments into one row frame, aligned on baselines: as
    /// wide as the run and as tall as its ascent plus descent, with each
    /// rendered fragment at the sum of the widths before it and its
    /// baseline on the run's.
    pub fn into_frame(self) -> (r: TermFrame)
        ensures
            is_row_frame(r, self.0@),
    {
        let ghost orig = self.0@;
        let ascent = self.ascent();
        let descent = self.descent();
        let total_rows = ascent.add(descent).max(TermScalar::zero());
        let total_cols = self.total_width().max(TermScalar::zero());
        let mut frame = TermFrame::new(TermSize::new(total_cols, total_rows));
        frame.set_baseline(ascent);
        let mut x = TermScalar::zero();
        assert(orig.subrange(0, 0) =~= Seq::<TermMathFragment>::empty());
        for frag in it: self.0.into_iter()
            invariant
                it.seq() == orig,
                x == total_width_spec(orig.subrange(0, it.index() as int)),
                frame.items@ == row_items(orig.subrange(0, it.index() as int), ascent),
                frame.size == (TermSize { cols: total_cols, rows: total_rows }),
                frame.baseline == ascent,
                frame.content_height == TermScalar::Finite(0),
        {
            let ghost k = it.index() as int;
            proof {
                assert(orig.subrange(0, k + 1).drop_last() =~= orig.subrange(0, k));
            }
            let w = frag.width();
            match frag {
                TermMathFragment::Frame(ff) => {
                    let y = ascent.sub(ff.ascent());
                    frame.push_frame(TermPoint::new(x, y), ff.frame);
                },
                _ => {},
            }
            x = x.add(w);
        }
        proof {
            assert(orig.subrange(0, orig.len() as int) =~= orig);
        }
        frame
    }

    /// A one-fragment run gives its fragment back; any other run composes
    /// into a frame fragment (see [`TermMathRun::into_frame`]) with the
    /// defaults of [`TermMathFrameFragment::new`], text-like exactly when
    /// all its rendered fragments are.
    pub fn into_fragment(self) -> (r: TermMathFragment)
        ensures
            self.0@.len() == 1 ==> r == self.0@[0],
            self.0@.len() != 1 ==> (r matches TermMathFragment::Frame(ff) && is_row_frame(
                ff.frame,
                self.0@,
            ) && (TermMathFrameFragment { text_like: false, ..ff }).is_new_of(ff.frame)
                && ff.text_like == all_text_like(self.0@)),
    {
        let ghost orig = self.0@;
        if self.0.len() == 1 {
            let mut v = self.0;
            return v.pop().unwrap();
        }
        let mut text_like = true;
        let mut i: usize = 0;
        while i < self.0.len()
            invariant
                i <= self.0@.len(),
                text_like == (forall|j: int|
                    0 <= j < i && self.0@[j] is Frame ==> (#[trigger] self.0@[j]).is_text_like_spec()),
            decreases self.0@.len() - i,
        {
            if matches!(self.0[i], TermMathFragment::Frame(_)) && !self.0[i].is_text_like() {
                text_like = false;
            }
            i = i + 1;
        }
        let frame = self.into_frame();
        let ff = TermMathFrameFragment::new(frame).with_text_like(text_like);
        TermMathFragment::Frame(ff)
    }
}

// ── Frame composition ───────────────────────────────────────────────────

/// The offset of item `i` when items of the given sizes are laid one after
/// another with `gap` after each.
pub open spec fn offsets(sizes: Seq<TermScalar>, gap: TermScalar, i: int) -> TermScalar
    decreases i,
{
    if i <= 0 {
        TermScalar::Finite(0)
    } else {
        offsets(sizes, gap, i - 1).add_spec(sizes[i - 1]).add_spec(gap)
    }
}

/// The ascents (baselines) of frames.
pub open spec fn frame_ascents(fs: Seq<TermFrame>) -> Seq<Row> {
    fs.map_values(|f: TermFrame| f.baseline)
}

/// The descents of frames.
pub open spec fn frame_descents(fs: Seq<TermFrame>) -> Seq<Row> {
    fs.map_values(|f: TermFrame| f.descent_spec())
}

/// The widths of frames.
pub open spec fn frame_widths(fs: Seq<TermFrame>) -> Seq<Col> {
    fs.map_values(|f: TermFrame| f.size.cols)
}

/// The heights of frames, each at least one row.
pub open spec fn frame_heights(fs: Seq<TermFrame>) -> Seq<Row> {
    fs.map_values(|f: TermFrame| f.size.rows.max_spec(TermScalar::Finite(1)))
}

/// A count as a scalar.
pub fn count_scalar(n: usize) -> (r: TermScalar)
    ensures
        r == TermScalar::fin(n as int),
{
    if (n as u64) <= (i64::MAX as u64) {
        TermScalar::Finite(n as i64)
    } else {
        TermScalar::Finite(i64::MAX)
    }
}

/// The largest of the frames' metric, the frames' ascents.
fn max_frame_ascent(frames: &Vec<TermFrame>) -> (r: Row)
    requires
        frames@.len() > 0,
    ensures
        r == seq_max(frame_ascents(frames@)),
{
    let ghost s = frame_ascents(frames@);
    let mut m = frames[0].ascent();
    let mut i: usize = 1;
    assert(s.subrange(0, 1).drop_last() =~= Seq::<Row>::empty());
    while i < frames.len()
        invariant
            1 <= i <= frames@.len(),
            s == frame_ascents(frames@),
            m == seq_max(s.subrange(0, i as int)),
        decreases frames@.len() - i,
    {
        proof {
            assert(s.subrange(0, i + 1).drop_last() =~= s.subrange(0, i as int));
        }
        m = m.max(frames[i].ascent());
        i = i + 1;
    }
    assert(s.subrange(0, s.len() as int) =~= s);
    m
}

/// The largest descent of the frames.
fn max_frame_descent(frames: &Vec<TermFrame>) -> (r: Row)
    requires
        frames@.len() > 0,
    ensures
        r == seq_max(frame_descents(frames@)),
{
    let ghost s = frame_descents(frames@);
    let mut m = frames[0].descent();
    let mut i: usize = 1;
    assert(s.subrange(0, 1).drop_last() =~= Seq::<Row>::empty());
    while i < frames.len()
        invariant
            1 <= i <= frames@.len(),
            s == frame_descents(frames@),
            m == seq_max(s.subrange(0, i as int)),
        decreases frames@.len() - i,
    {
        proof {
            assert(s.subrange(0, i + 1).drop_last() =~= s.subrange(0, i as int));
        }
        m = m.max(frames[i].descent());
        i = i + 1;
    }
    assert(s.subrange(0, s.len() as int) =~= s);
    m
}

/// The largest width of the frames.
fn max_frame_width(frames: &Vec<TermFrame>) -> (r: Col)
    requires
        frames@.len() > 0,
    ensures
        r == seq_max(frame_widths(frames@)),
{
    let ghost s = frame_widths(frames@);
    let mut m = frames[0].cols();
    let mut i: usize = 1;
    assert(s.subrange(0, 1).drop_last() =~= Seq::<Col>::empty());
    while i < frames.len()
        invariant
            1 <= i <= frames@.len(),
            s == frame_widths(frames@),
            m == seq_max(s.subrange(0, i as int)),
        decreases frames@.len() - i,
    {
        proof {
            assert(s.subrange(0, i + 1).drop_last() =~= s.subrange(0, i as int));
        }
        m = m.max(frames[i].cols());
        i = i + 1;
    }
    assert(s.subrange(0, s.len() as int) =~= s);
    m
}

/// The sum of the widths of the frames.
fn sum_frame_widths(frames: &Vec<TermFrame>) -> (r: Col)
    ensures
        r == seq_sum(frame_widths(frames@)),
{
    let ghost s = frame_widths(frames@);
    let mut t = TermScalar::zero();
    let mut i: usize = 0;
    while i < frames.len()
        invariant
            i <= frames@.len(),
            s == frame_widths(frames@),
            t == seq_sum(s.subrange(0, i as int)),
        decreases frames@.len() - i,
    {
        proof {
            assert(s.subrange(0, i + 1).drop_last() =~= s.subrange(0, i as int));
        }
        t = t.add(frames[i].cols());
        i = i + 1;
    }
    assert(s.subrange(0, s.len() as int) =~= s);
    t
}

/// The sum of the heights of the frames, each at least one row.
fn sum_frame_heights(frames: &Vec<TermFrame>) -> (r: Row)
    ensures
        r == seq_sum(frame_heights(frames@)),
{
    let ghost s = frame_heights(frames@);
    let mut t = TermScalar::zero();
    let mut i: usize = 0;
    while i < frames.len()
        invariant
            i <= frames@.len(),
            s == frame_heights(frames@),
            t == seq_sum(s.subrange(0, i as int)),
        decreases frames@.len() - i,
    {
        proof {
            assert(s.subrange(0, i + 1).drop_last() =~= s.subrange(0, i as int));
        }
        t = t.add(frames[i].rows().max(TermScalar::new(1)));
        i = i + 1;
    }
    assert(s.subrange(0, s.len() as int) =~= s);
    t
}

/// Whether `r` is `frames` composed side by side, aligned on their
/// baselines, with `gap` columns between each two: as wide as the frames
/// and gaps (at least 0), as tall as the largest ascent plus the largest
/// descent, with the baseline at the largest ascent, and each
/// frame placed after the ones before it.  No frames give an empty frame.
pub open spec fn is_hcomposition(r: TermFrame, frames: Seq<TermFrame>, gap: Col) -> bool {
    &&& frames.len() == 0 ==> r.is_empty_of(
        TermSize { cols: TermScalar::Finite(0), rows: TermScalar::Finite(0) },
    )
    &&& frames.len() > 0 ==> {
        let asc = seq_max(frame_ascents(frames));
        &&& r.size == (TermSize {
            cols: seq_sum(frame_widths(frames)).add_spec(
                gap.mul_spec(TermScalar::fin(frames.len() - 1)),
            ).max_spec(TermScalar::Finite(0)),
            rows: asc.add_spec(seq_max(frame_descents(frames))),
        })
        &&& r.baseline == asc
        &&& r.content_height == TermScalar::Finite(0)
        &&& r.items@.len() == frames.len()
        &&& forall|i: int|
            0 <= i < frames.len() ==> #[trigger] r.items@[i] == (
                TermPoint {
                    col: offsets(frame_widths(frames), gap, i),
                    row: asc.sub_spec(frames[i].baseline),
                },
                TermFrameItem::Frame(frames[i]),
            )
    }
}

/// Whether `f` is the frame of a stretched delimiter made of `chars`, one
/// per row in `style`: one column wide, with the baseline at the middle
/// row.
pub open spec fn is_delimiter_frame(f: TermFrame, chars: Seq<char>, style: TermStyle) -> bool {
    &&& f.size == (TermSize { cols: TermScalar::Finite(1), rows: TermScalar::Finite(chars.len() as i64) })
    &&& f.baseline == TermScalar::Finite((chars.len() / 2) as i64)
    &&& f.content_height == TermScalar::Finite(0)
    &&& f.items@.len() == chars.len()
    &&& forall|i: int|
        0 <= i < chars.len() ==> (#[trigger] f.items@[i]).0 == (TermPoint {
            col: TermScalar::Finite(0),
            row: TermScalar::Finite(i as i64),
        }) && is_text_item(f.items@[i].1, seq![chars[i]], style)
}

/// Build a one-column frame from a vertical list of characters, one per
/// row, with the baseline at the middle row (for horizontal composition).
/// No characters give an empty frame.
pub fn build_delimiter_frame(chars: Vec<char>, style: TermStyle) -> (r: TermFrame)
    requires
        chars@.len() <= i32::MAX,
    ensures
        chars@.len() == 0 ==> r.is_empty_of(
            TermSize { cols: TermScalar::Finite(0), rows: TermScalar::Finite(0) },
        ),
        chars@.len() > 0 ==> is_delimiter_frame(r, chars@, style),
{
    let n = chars.len();
    if n == 0 {
        return TermFrame::new(TermSize::zero());
    }
    let height = n as i32;
    let mut frame = TermFrame::new(TermSize::new(TermScalar::one(), TermScalar::new(height)));
    frame.set_baseline(TermScalar::new(height / 2));
    let mut j: usize = 0;
    while j < n
        invariant
            j <= n == chars@.len() <= i32::MAX,
            frame.items@.len() == j,
            frame.size == (TermSize { cols: TermScalar::Finite(1), rows: TermScalar::Finite(n as i64) }),
            frame.baseline == TermScalar::Finite((n / 2) as i64),
            frame.content_height == TermScalar::Finite(0),
            forall|k: int|
                0 <= k < j ==> (#[trigger] frame.items@[k]).0 == (TermPoint {
                    col: TermScalar::Finite(0),
                    row: TermScalar::Finite(k as i64),
                }) && is_text_item(frame.items@[k].1, seq![chars@[k]], style),
        decreases n - j,
    {
        let mut text = String::new();
        push_char(&mut text, chars[j]);
        proof {
            assert(text@ =~= seq![chars@[j as int]]);
        }
        frame.push_text(TermPoint::new(TermScalar::zero(), TermScalar::new(j as i32)), text, style);
        proof {
            assert forall|k: int| 0 <= k < j + 1 implies (#[trigger] frame.items@[k]).0 == (TermPoint {
                col: TermScalar::Finite(0),
                row: TermScalar::Finite(k as i64),
            }) && is_text_item(frame.items@[k].1, seq![chars@[k]], style) by {
                if k < j {
                    assert(frame.items@[k] == frame.items@.subrange(0, j as int)[k]);
                }
            }
        }
        j = j + 1;
    }
    frame
}

/// Compose frames side by side, aligned on their baselines, with `gap`
/// columns between each two: as wide as the frames and gaps (at least 0),
/// as tall as the largest ascent plus the largest descent, with the
/// baseline at the largest ascent.  No frames give an empty frame.
pub fn compose_horizontal(frames: Vec<TermFrame>, gap: Col) -> (r: TermFrame)
    ensures
        is_hcomposition(r, frames@, gap),
{
    let n = frames.len();
    if n == 0 {
        return TermFrame::new(TermSize::zero());
    }
    let ghost fs = frames@;
    let max_ascent = max_frame_ascent(&frames);
    let max_descent = max_frame_descent(&frames);
    let total_rows = max_ascent.add(max_descent);
    let content_width = sum_frame_widths(&frames);
    let gap_width = gap.mul(count_scalar(n - 1));
    let total_cols = content_width.add(gap_width).max(TermScalar::zero());
    let mut out = TermFrame::new(TermSize::new(total_cols, total_rows));
    out.set_baseline(max_ascent);
    let mut x = TermScalar::zero();
    let mut idx: usize = 0;
    for frame in it: frames.into_iter()
        invariant
            it.seq() == fs,
            idx == it.index(),
            n == fs.len(),
            it.index() < n ==> x == offsets(frame_widths(fs), gap, it.index() as int),
            out.items@.len() == it.index(),
            forall|i: int|
                0 <= i < it.index() ==> #[trigger] out.items@[i] == (
                    TermPoint {
                        col: offsets(frame_widths(fs), gap, i),
                        row: max_ascent.sub_spec(fs[i].baseline),
                    },
                    TermFrameItem::Frame(fs[i]),
                ),
            out.size == (TermSize { cols: total_cols, rows: total_rows }),
            out.baseline == max_ascent,
            out.content_height == TermScalar::Finite(0),
    {
        let ghost k = it.index() as int;
        let w = frame.cols();
        let row = max_ascent.sub(frame.ascent());
        out.push_frame(TermPoint::new(x, row), frame);
        x = x.add(w);
        if idx + 1 < n {
            x = x.add(gap);
        }
        idx = idx + 1;
    }
    out
}

/// Whether `r` is `frames` composed top to bottom, each centred in the
/// width of the widest (see [`centre_col`]), with
/// `gap` rows between each two and each frame given at least one row: as
/// wide as the widest (at least 0), as tall as the rows and gaps (at least
/// 0), with the baseline that of the frame at `baseline_idx` (the last one
/// where the index is past the end), at least 0.  No frames give an empty
/// frame.
pub open spec fn is_vcomposition(r: TermFrame, frames: Seq<TermFrame>, gap: Row, baseline_idx: int) -> bool {
    &&& frames.len() == 0 ==> r.is_empty_of(
        TermSize { cols: TermScalar::Finite(0), rows: TermScalar::Finite(0) },
    )
    &&& frames.len() > 0 ==> {
        let hs = frame_heights(frames);
        let bi: int = if baseline_idx < frames.len() {
            baseline_idx
        } else {
            frames.len() - 1
        };
        &&& r.size == (TermSize {
            cols: seq_max(frame_widths(frames)).max_spec(TermScalar::Finite(0)),
            rows: seq_sum(hs).add_spec(gap.mul_spec(TermScalar::fin(frames.len() - 1))).max_spec(
                TermScalar::Finite(0),
            ),
        })
        &&& r.baseline == offsets(hs, gap, bi).add_spec(frames[bi].baseline).max_spec(
            TermScalar::Finite(0),
        )
        &&& r.content_height == TermScalar::Finite(0)
        &&& r.items@.len() == frames.len()
        &&& forall|i: int|
            0 <= i < frames.len() ==> #[trigger] r.items@[i] == (
                TermPoint { col: centre_col(frames, i), row: offsets(hs, gap, i) },
                TermFrameItem::Frame(frames[i]),
            )
    }
}

/// The column that centres frame `i` in the width of the widest frame:
/// half the difference of the widths, rounded toward zero.
pub open spec fn centre_col(frames: Seq<TermFrame>, i: int) -> Col {
    seq_max(frame_widths(frames)).sub_spec(frames[i].size.cols).div_spec(TermScalar::Finite(2))
}

/// Whether `r` is `frame` padded with `left` columns before it and `right`
/// after it: `left + right` columns wider (at least 0), as tall (at least
/// 0), with the same baseline (at least 0).
pub open spec fn is_padded(r: TermFrame, frame: TermFrame, left: Col, right: Col) -> bool {
    &&& r.size == (TermSize {
        cols: frame.size.cols.add_spec(left).add_spec(right).max_spec(TermScalar::Finite(0)),
        rows: frame.size.rows.max_spec(TermScalar::Finite(0)),
    })
    &&& r.baseline == frame.baseline.max_spec(TermScalar::Finite(0))
    &&& r.content_height == TermScalar::Finite(0)
    &&& r.items@ == seq![
        (TermPoint { col: left, row: TermScalar::Finite(0) }, TermFrameItem::Frame(frame)),
    ]
}

/// Compose frames top to bottom, each centred in the width of the widest
/// (see [`centre_col`]), with `gap` rows between each two and each frame
/// given at least one row: as wide as the widest
/// (at least 0), as tall as the rows and gaps (at least 0).  The baseline
/// is that of the frame at `baseline_idx` (the last one where the index is
/// past the end), at least 0.  No frames give an empty frame.
pub fn compose_vertical(frames: Vec<TermFrame>, gap: Row, baseline_idx: usize) -> (r: TermFrame)
    ensures
        is_vcomposition(r, frames@, gap, baseline_idx as int),
{
    let n = frames.len();
    if n == 0 {
        return TermFrame::new(TermSize::zero());
    }
    let ghost fs = frames@;
    let ghost hs = frame_heights(fs);
    let max_cols = max_frame_width(&frames);
    let gap_rows = gap.mul(count_scalar(n - 1));
    let total_rows = sum_frame_heights(&frames).add(gap_rows);
    let bi = if baseline_idx < n - 1 {
        baseline_idx
    } else {
        n - 1
    };
    let bi_frame_baseline = frames[bi].baseline();
    let mut baseline_row = TermScalar::zero();
    let mut i: usize = 0;
    while i < bi
        invariant
            i <= bi < n == fs.len(),
            fs == frames@,
            hs == frame_heights(fs),
            baseline_row == offsets(hs, gap, i as int),
        decreases bi - i,
    {
        baseline_row = baseline_row.add(frames[i].rows().max(TermScalar::new(1))).add(gap);
        i = i + 1;
    }
    baseline_row = baseline_row.add(bi_frame_baseline);
    let mut out = TermFrame::new(
        TermSize::new(max_cols.max(TermScalar::zero()), total_rows.max(TermScalar::zero())),
    );
    out.set_baseline(baseline_row.max(TermScalar::zero()));
    let mut y = TermScalar::zero();
    let mut idx: usize = 0;
    for frame in it: frames.into_iter()
        invariant
            it.seq() == fs,
            idx == it.index(),
            n == fs.len(),
            hs == frame_heights(fs),
            it.index() < n ==> y == offsets(hs, gap, it.index() as int),
            out.items@.len() == it.index(),
            max_cols == seq_max(frame_widths(fs)),
            forall|j: int|
                0 <= j < it.index() ==> #[trigger] out.items@[j] == (
                    TermPoint { col: centre_col(fs, j), row: offsets(hs, gap, j) },
                    TermFrameItem::Frame(fs[j]),
                ),
            out.size == (TermSize {
                cols: max_cols.max_spec(TermScalar::Finite(0)),
                rows: total_rows.max_spec(TermScalar::Finite(0)),
            }),
            out.baseline == baseline_row.max_spec(TermScalar::Finite(0)),
            out.content_height == TermScalar::Finite(0),
    {
        let h = frame.rows().max(TermScalar::new(1));
        let cx = max_cols.sub(frame.cols()).div(TermScalar::new(2));
        out.push_frame(TermPoint::new(cx, y), frame);
        y = y.add(h);
        if idx + 1 < n {
            y = y.add(gap);
        }
        idx = idx + 1;
    }
    out
}

/// Add horizontal padding: the frame placed `left` columns in, in a frame
/// `left + right` columns wider (at least 0), as tall (at least 0), with
/// the same baseline (at least 0).
pub fn pad_h(frame: TermFrame, left: Col, right: Col) -> (r: TermFrame)
    ensures
        is_padded(r, frame, left, right),
{
    let new_cols = frame.cols().add(left).add(right);
    let new_rows = frame.rows();
    let new_baseline = frame.baseline();
    let mut out = TermFrame::new(
        TermSize::new(new_cols.max(TermScalar::zero()), new_rows.max(TermScalar::zero())),
    );
    out.set_baseline(new_baseline.max(TermScalar::zero()));
    out.push_frame(TermPoint::new(left, TermScalar::zero()), frame);
    assert(out.items@ =~= seq![
        (TermPoint { col: left, row: TermScalar::Finite(0) }, TermFrameItem::Frame(frame)),
    ]);
    out
}

/// The widths of the row frames of the given rows.
pub open spec fn row_widths(rs: Seq<Seq<TermMathFragment>>) -> Seq<Col> {
    rs.map_values(|r: Seq<TermMathFragment>| total_width_spec(r).max_spec(TermScalar::Finite(0)))
}

/// The heights of the row frames of the given rows, each at least one row.
pub open spec fn row_heights(rs: Seq<Seq<TermMathFragment>>) -> Seq<Row> {
    rs.map_values(
        |r: Seq<TermMathFragment>|
            run_ascent(r).add_spec(run_descent(r)).max_spec(TermScalar::Finite(0)).max_spec(
                TermScalar::Finite(1),
            ),
    )
}

/// Whether `r` stacks the visual rows of `s` (see
/// [`TermMathRun::multiline_frame`]).
pub open spec fn is_multiline_frame(r: TermFrame, s: Seq<TermMathFragment>) -> bool {
    let rs = visual_rows(s);
    &&& r.size == (TermSize {
        cols: seq_max(row_widths(rs)),
        rows: seq_sum(row_heights(rs)).add_spec(TermScalar::Finite(1).mul_spec(TermScalar::fin(rs.len() - 1))),
    })
    &&& r.baseline == TermScalar::Finite(r.size.rows.get_spec() as i64).div_spec(TermScalar::Finite(2))
    &&& r.content_height == TermScalar::Finite(0)
    &&& r.items@.len() == rs.len()
    &&& forall|i: int|
        0 <= i < rs.len() ==> (#[trigger] r.items@[i]).0 == (TermPoint {
            col: TermScalar::Finite(0),
            row: offsets(row_heights(rs), TermScalar::Finite(1), i),
        }) && (r.items@[i].1 matches TermFrameItem::Frame(f) && is_row_frame(f, rs[i]))
}

impl TermMathRun {
    /// Compose the visual rows top to bottom, left-aligned, each given at
    /// least one row, with one row between each two: as wide as the widest
    /// row, with the baseline at half the height (read as an `i32`,
    /// rounded toward zero).  Used for multi-line (aligned) equations.
    pub fn multiline_frame(self) -> (r: TermFrame)
        ensures
            is_multiline_frame(r, self.0@),
    {
        let ghost rs = visual_rows(self.0@);
        let rows = self.rows();
        let n = rows.len();
        proof {
            law_visual_rows(self.0@);
        }
        let ghost rv = rows@;
        let mut row_frames: Vec<TermFrame> = Vec::new();
        for run in it: rows.into_iter()
            invariant
                it.seq() == rv,
                rv.len() == rs.len(),
                forall|i: int| 0 <= i < rv.len() ==> (#[trigger] rv[i]).0@ == rs[i],
                row_frames@.len() == it.index(),
                forall|i: int| 0 <= i < it.index() ==> is_row_frame(#[trigger] row_frames@[i], rs[i]),
        {
            let f = run.into_frame();
            row_frames.push(f);
        }
        proof {
            assert(frame_widths(row_frames@) =~= row_widths(rs));
            assert(frame_heights(row_frames@) =~= row_heights(rs));
        }
        let total_cols = max_frame_width(&row_frames);
        let total_rows = sum_frame_heights(&row_frames).add(TermScalar::new(1).mul(count_scalar(n - 1)));
        let mut out = TermFrame::new(TermSize::new(total_cols, total_rows));
        out.set_baseline(TermScalar::new(total_rows.get()).div(TermScalar::new(2)));
        let ghost hs = row_heights(rs);
        let ghost fs = row_frames@;
        let mut y = TermScalar::zero();
        let mut idx: usize = 0;
        for row_frame in it: row_frames.into_iter()
            invariant
                it.seq() == fs,
                fs.len() == n == rs.len(),
                hs == frame_heights(fs),
                forall|i: int| 0 <= i < n ==> is_row_frame(#[trigger] fs[i], rs[i]),
                idx == it.index(),
                it.index() < n ==> y == offsets(hs, TermScalar::Finite(1), it.index() as int),
                out.items@.len() == it.index(),
                forall|j: int|
                    0 <= j < it.index() ==> (#[trigger] out.items@[j]).0 == (TermPoint {
                        col: TermScalar::Finite(0),
                        row: offsets(hs, TermScalar::Finite(1), j),
                    }) && (out.items@[j].1 matches TermFrameItem::Frame(f) && is_row_frame(f, rs[j])),
                out.size == (TermSize { cols: total_cols, rows: total_rows }),
                out.baseline == TermScalar::Finite(total_rows.get_spec() as i64).div_spec(
                    TermScalar::Finite(2),
                ),
                out.content_height == TermScalar::Finite(0),
        {
            let ghost k = it.index() as int;
            let row_h = row_frame.rows().max(TermScalar::new(1));
            out.push_frame(TermPoint::new(TermScalar::zero(), y), row_frame);
            proof {
                assert forall|j: int| 0 <= j < k + 1 implies (#[trigger] out.items@[j]).0 == (TermPoint {
                    col: TermScalar::Finite(0),
                    row: offsets(hs, TermScalar::Finite(1), j),
                }) && (out.items@[j].1 matches TermFrameItem::Frame(f) && is_row_frame(f, rs[j])) by {
                    if j == k {
                        assert(fs[k] == row_frame);
                    }
                }
            }
            y = y.add(row_h);
            if idx + 1 < n {
                y = y.add(TermScalar::new(1));
            }
            idx = idx + 1;
        }
        out
    }
}

/// An optional index read as an optional integer.
pub open spec fn opt_int(o: Option<usize>) -> Option<int> {
    match o {
        Some(i) => Some(i as int),
        None => None,
    }
}

/// Whether a varying operator after a fragment of this class is binary.
fn makes_binary_class(c: MathClass) -> (r: bool)
    ensures
        r == makes_binary(c),
{
    c == MathClass::Normal || c == MathClass::Alphabetic || c == MathClass::Closing || c
        == MathClass::Fence
}


/// Give every fragment of a class element's body that class; fragments
/// that are not frames stay as they are.
pub fn layout_class(frags: &mut Vec<TermMathFragment>, class: MathClass)
    ensures
        final(frags)@ == old(frags)@.map_values(|f: TermMathFragment| f.with_class_spec(class)),
{
    let n = frags.len();
    let mut i: usize = 0;
    while i < n
        invariant
            n == old(frags)@.len(),
            frags@.len() == n,
            0 <= i <= n,
            forall|j: int| 0 <= j < i ==> #[trigger] frags@[j] == old(frags)@[j].with_class_spec(class),
            forall|j: int| i <= j < n ==> #[trigger] frags@[j] == old(frags)@[j],
        decreases n - i,
    {
        frags[i].set_class(class);
        i = i + 1;
    }
    assert(frags@ =~= old(frags)@.map_values(|f: TermMathFragment| f.with_class_spec(class)));
}

/// Whether a run has a line break.
pub open spec fn has_linebreak(s: Seq<TermMathFragment>) -> bool {
    exists|i: int| 0 <= i < s.len() && #[trigger] s[i] is Linebreak
}

/// Lay out an inline equation from its run: its rows stacked if it has a
/// line break, else its single row.
pub fn layout_equation_inline(run: TermMathRun) -> (r: TermFrame)
    ensures
        has_linebreak(run.0@) ==> is_multiline_frame(r, run.0@),
        !has_linebreak(run.0@) ==> is_row_frame(r, run.0@),
{
    if run.is_multiline() {
        run.multiline_frame()
    } else {
        run.into_frame()
    }
}

/// Lay out a display equation from its run: its rows stacked if it has a
/// line break; else its single row, with a blank column on each side when
/// it is not empty (then at least one row tall, with the row's baseline).
pub fn layout_equation_block(run: TermMathRun) -> (r: TermFrame)
    ensures
        has_linebreak(run.0@) ==> is_multiline_frame(r, run.0@),
        !has_linebreak(run.0@) ==> exists|f: TermFrame|
            #[trigger] is_row_frame(f, run.0@) && if TermScalar::Finite(0).lt_spec(f.size.cols) {
                &&& r.size == (TermSize {
                    cols: f.size.cols.add_spec(TermScalar::Finite(2)),
                    rows: f.size.rows.max_spec(TermScalar::Finite(1)),
                })
                &&& r.baseline == f.baseline
                &&& r.content_height == TermScalar::Finite(0)
                &&& r.items@ == seq![
                    (TermPoint { col: TermScalar::Finite(1), row: TermScalar::Finite(0) }, TermFrameItem::Frame(f)),
                ]
            } else {
                r == f
            },
{
    if run.is_multiline() {
        return run.multiline_frame();
    }
    let ghost s = run.0@;
    let frame = run.into_frame();
    assert(is_row_frame(frame, s));
    if frame.cols().gt(TermScalar::zero()) {
        let ghost f = frame;
        let mut padded = TermFrame::new(
            TermSize::new(frame.cols().add(TermScalar::new(2)), frame.rows().max(TermScalar::one())),
        );
        padded.set_baseline(frame.baseline());
        padded.push_frame(TermPoint::new(TermScalar::new(1), TermScalar::zero()), frame);
        assert(padded.items@ =~= seq![
            (TermPoint { col: TermScalar::Finite(1), row: TermScalar::Finite(0) }, TermFrameItem::Frame(f)),
        ]);
        padded
    } else {
        frame
    }
}

} // verus!
