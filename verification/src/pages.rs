//! Pages of a terminal document: finishing laid-out pages and numbering
//! them.

use vstd::prelude::*;
use crate::frame::{TermFrame, TermFrameItem, is_text_item};
use crate::geom::{Row, TermPoint, TermSize};
use crate::scalar::TermScalar;
use crate::style::TermStyle;

verus! {

/// Which pages a page break may insert an extra page for.
#[derive(Clone, Copy, PartialEq, Eq, Structural, Debug, Hash)]
pub enum Parity {
    /// Pages with an even number.
    Even,
    /// Pages with an odd number.
    Odd,
}

impl Parity {
    /// Whether the page number has this parity.
    pub fn matches(self, number: usize) -> (r: bool)
        ensures
            r == (match self {
                Parity::Even => number % 2 == 0,
                Parity::Odd => number % 2 == 1,
            }),
    {
        match self {
            Parity::Even => number % 2 == 0,
            Parity::Odd => number % 2 == 1,
        }
    }
}

/// A mostly finished layout for one page.
pub struct LayoutedPage {
    /// The inner content frame.
    pub inner: TermFrame,
    /// The header frame, if any.
    pub header: Option<TermFrame>,
    /// The footer frame, if any.
    pub footer: Option<TermFrame>,
    /// The background frame, if any.
    pub background: Option<TermFrame>,
    /// The foreground frame, if any.
    pub foreground: Option<TermFrame>,
}

/// A single page of terminal output.
pub struct TermPage {
    /// The page's frame.
    pub frame: TermFrame,
    /// The page's number, counted from zero.
    pub number: usize,
}

impl LayoutedPage {
    /// A page with just its content.
    pub fn bare(inner: TermFrame) -> (r: LayoutedPage)
        ensures
            r.inner == inner,
            r.header is None,
            r.footer is None,
            r.background is None,
            r.foreground is None,
    {
        LayoutedPage { inner, header: None, footer: None, background: None, foreground: None }
    }
}

/// The first laid-out page of a run, or an empty page if the run gave none.
pub fn first_or_blank(pages: Vec<LayoutedPage>) -> (r: LayoutedPage)
    ensures
        pages@.len() > 0 ==> r == pages@[0],
        pages@.len() == 0 ==> r.inner.is_empty_of(
            TermSize { cols: TermScalar::Finite(0), rows: TermScalar::Finite(0) },
        ) && r.header is None && r.footer is None && r.background is None && r.foreground is None,
{
    let mut pages = pages;
    if pages.len() > 0 {
        pages.swap_remove(0)
    } else {
        LayoutedPage::bare(TermFrame::new(TermSize::zero()))
    }
}

/// Whether `items` are `count` empty, plainly styled text items at `pos`.
pub open spec fn are_tag_marks(items: Seq<(TermPoint, TermFrameItem)>, count: int, pos: TermPoint) -> bool {
    &&& items.len() == count
    &&& forall|i: int|
        0 <= i < count ==> (#[trigger] items[i]).0 == pos && is_text_item(
            items[i].1,
            Seq::empty(),
            TermStyle::default_spec(),
        )
}

/// Put one empty text item at `pos` per tag; the tags are used up.
fn stamp_tags(frame: &mut TermFrame, tags: &mut Vec<u64>, pos: TermPoint)
    ensures
        final(tags)@.len() == 0,
        final(frame).size == old(frame).size,
        final(frame).baseline == old(frame).baseline,
        final(frame).content_height == old(frame).content_height,
        final(frame).items@.len() == old(frame).items@.len() + old(tags)@.len(),
        final(frame).items@.subrange(0, old(frame).items@.len() as int) == old(frame).items@,
        are_tag_marks(
            final(frame).items@.subrange(old(frame).items@.len() as int, final(frame).items@.len() as int),
            old(tags)@.len() as int,
            pos,
        ),
{
    let ghost n = frame.items@.len();
    let ghost before = frame.items@;
    let count = tags.len();
    let mut i: usize = 0;
    while i < count
        invariant
            i <= count,
            frame.size == old(frame).size,
            frame.baseline == old(frame).baseline,
            frame.content_height == old(frame).content_height,
            frame.items@.len() == n + i,
            frame.items@.subrange(0, n as int) == before,
            n == old(frame).items@.len(),
            before == old(frame).items@,
            forall|k: int|
                0 <= k < i ==> (#[trigger] frame.items@[n + k]).0 == pos && is_text_item(
                    frame.items@[n + k].1,
                    Seq::empty(),
                    TermStyle::default_spec(),
                ),
        decreases count - i,
    {
        let ghost prev = frame.items@;
        let text = String::new();
        assert(text@ =~= Seq::<char>::empty());
        frame.push_text(pos, text, TermStyle::plain());
        proof {
            assert(frame.items@.subrange(0, n as int) =~= prev.subrange(0, n as int));
            assert forall|k: int| 0 <= k < i implies #[trigger] frame.items@[n + k] == prev[n + k] by {
                assert(frame.items@.subrange(0, prev.len() as int)[n + k] == prev[n + k]);
            }
        }
        i = i + 1;
    }
    tags.clear();
    let ghost after = frame.items@;
    proof {
        let tail = after.subrange(n as int, after.len() as int);
        assert forall|k: int| 0 <= k < count implies (#[trigger] tail[k]).0 == pos && is_text_item(
            tail[k].1,
            Seq::empty(),
            TermStyle::default_spec(),
        ) by {
            assert(tail[k] == after[n + k]);
        }
    }
}

/// Finish a page: its content with one empty text item at the origin per
/// tag (the tags are used up), then the background at the origin, the
/// header and footer below the content, and the foreground at the origin.
/// The page is numbered zero.
pub fn finalize(tags: &mut Vec<u64>, page: LayoutedPage) -> (r: TermPage)
    ensures
        final(tags)@.len() == 0,
        r.number == 0,
        r.frame.size == page.inner.size,
        r.frame.baseline == page.inner.baseline,
        r.frame.content_height == page.inner.content_height,
        ({
            let n = page.inner.items@.len();
            let t = old(tags)@.len();
            let rows = page.inner.size.rows;
            let marginals = (if page.background is Some {
                seq![(TermPoint::zero_spec(), TermFrameItem::Frame(page.background.unwrap()))]
            } else {
                Seq::empty()
            }) + (if page.header is Some {
                seq![
                    (
                        TermPoint { col: TermScalar::Finite(0), row: rows },
                        TermFrameItem::Frame(page.header.unwrap()),
                    ),
                ]
            } else {
                Seq::empty()
            }) + (if page.footer is Some {
                seq![
                    (
                        TermPoint { col: TermScalar::Finite(0), row: rows },
                        TermFrameItem::Frame(page.footer.unwrap()),
                    ),
                ]
            } else {
                Seq::empty()
            }) + (if page.foreground is Some {
                seq![(TermPoint::zero_spec(), TermFrameItem::Frame(page.foreground.unwrap()))]
            } else {
                Seq::empty()
            });
            &&& r.frame.items@.len() == n + t + marginals.len()
            &&& r.frame.items@.subrange(0, n as int) == page.inner.items@
            &&& are_tag_marks(r.frame.items@.subrange(n as int, (n + t) as int), t as int, TermPoint::zero_spec())
            &&& r.frame.items@.subrange((n + t) as int, r.frame.items@.len() as int) == marginals
        }),
{
    let LayoutedPage { inner, header, footer, background, foreground } = page;
    let ghost g_header = header;
    let ghost g_footer = footer;
    let ghost g_background = background;
    let ghost g_foreground = foreground;
    let mut frame = inner;
    stamp_tags(&mut frame, tags, TermPoint::zero());
    let ghost stamped = frame.items@;
    if let Some(background) = background {
        frame.push_frame(TermPoint::zero(), background);
    }
    let rows = frame.rows();
    if let Some(header) = header {
        frame.push_frame(TermPoint::new(TermScalar::zero(), rows), header);
    }
    if let Some(footer) = footer {
        frame.push_frame(TermPoint::new(TermScalar::zero(), rows), footer);
    }
    if let Some(foreground) = foreground {
        frame.push_frame(TermPoint::zero(), foreground);
    }
    proof {
        let n = page.inner.items@.len();
        let t = old(tags)@.len();
        assert(frame.items@.subrange(0, n as int) =~= stamped.subrange(0, n as int));
        assert(frame.items@.subrange(n as int, (n + t) as int) =~= stamped.subrange(n as int, (n + t) as int));
        assert(frame.items@.subrange(0, (n + t) as int) =~= stamped);
    }
    let r = TermPage { frame, number: 0 };
    proof {
        let n = page.inner.items@.len();
        let t = old(tags)@.len();
        let rest = r.frame.items@.subrange((n + t) as int, r.frame.items@.len() as int);
        let rows = page.inner.size.rows;
        let marginals = (if page.background is Some {
            seq![(TermPoint::zero_spec(), TermFrameItem::Frame(page.background.unwrap()))]
        } else {
            Seq::empty()
        }) + (if page.header is Some {
            seq![
                (
                    TermPoint { col: TermScalar::Finite(0), row: rows },
                    TermFrameItem::Frame(page.header.unwrap()),
                ),
            ]
        } else {
            Seq::empty()
        }) + (if page.footer is Some {
            seq![
                (
                    TermPoint { col: TermScalar::Finite(0), row: rows },
                    TermFrameItem::Frame(page.footer.unwrap()),
                ),
            ]
        } else {
            Seq::empty()
        }) + (if page.foreground is Some {
            seq![(TermPoint::zero_spec(), TermFrameItem::Frame(page.foreground.unwrap()))]
        } else {
            Seq::empty()
        });
        assert(rest =~= marginals);
    }
    r
}

/// Finish a document: tags left over go, as empty text items, to the
/// bottom-left corner of the last page (when there is one), and the pages
/// are numbered in order from zero.
pub fn finish_document(pages: &mut Vec<TermPage>, tags: &mut Vec<u64>)
    ensures
        final(pages)@.len() == old(pages)@.len(),
        forall|i: int| 0 <= i < final(pages)@.len() ==> #[trigger] final(pages)@[i].number == i,
        forall|i: int|
            0 <= i < final(pages)@.len() && (i != final(pages)@.len() - 1 || old(tags)@.len() == 0)
                ==> #[trigger] final(pages)@[i].frame == old(pages)@[i].frame,
        old(pages)@.len() > 0 ==> ({
            let last = old(pages)@.last().frame;
            let now = final(pages)@.last().frame;
            &&& now.size == last.size
            &&& now.baseline == last.baseline
            &&& now.content_height == last.content_height
            &&& now.items@.len() == last.items@.len() + old(tags)@.len()
            &&& now.items@.subrange(0, last.items@.len() as int) == last.items@
            &&& are_tag_marks(
                now.items@.subrange(last.items@.len() as int, now.items@.len() as int),
                old(tags)@.len() as int,
                TermPoint { col: TermScalar::Finite(0), row: last.size.rows },
            )
        }),
        old(pages)@.len() > 0 ==> final(tags)@.len() == 0,
        old(pages)@.len() == 0 ==> final(tags)@ == old(tags)@,
{
    if tags.len() > 0 && pages.len() > 0 {
        let last_index = pages.len() - 1;
        let mut last = pages.swap_remove(last_index);
        let pos = TermPoint::new(TermScalar::zero(), last.frame.rows());
        stamp_tags(&mut last.frame, tags, pos);
        pages.push(last);
        proof {
            assert(pages@.subrange(0, last_index as int) =~= old(pages)@.subrange(0, last_index as int));
        }
    }
    let n = pages.len();
    let ghost mid = pages@;
    let mut numbered: Vec<TermPage> = Vec::new();
    let mut rest: Vec<TermPage> = Vec::new();
    std::mem::swap(&mut rest, pages);
    // Numbering takes the pages in reverse so that each can be moved out.
    let mut reversed: Vec<TermPage> = Vec::new();
    while rest.len() > 0
        invariant
            rest@.len() + reversed@.len() == n,
            n == mid.len(),
            rest@ == mid.subrange(0, rest@.len() as int),
            forall|k: int| 0 <= k < reversed@.len() ==> #[trigger] reversed@[k] == mid[n - 1 - k],
        decreases rest@.len(),
    {
        let p = rest.pop().unwrap();
        reversed.push(p);
    }
    let mut i: usize = 0;
    while reversed.len() > 0
        invariant
            reversed@.len() + i == n,
            numbered@.len() == i,
            n == mid.len(),
            forall|k: int| 0 <= k < reversed@.len() ==> #[trigger] reversed@[k] == mid[n - 1 - k],
            forall|k: int|
                0 <= k < i ==> (#[trigger] numbered@[k]).number == k && numbered@[k].frame == mid[k].frame,
        decreases reversed@.len(),
    {
        let mut p = reversed.pop().unwrap();
        p.number = i;
        numbered.push(p);
        i = i + 1;
    }
    *pages = numbered;
}


// ── Collecting children into page runs ─────────────────────────────────

/// What collecting pages needs to know of a child.
#[derive(Clone, Copy, PartialEq, Eq, Structural, Debug)]
pub enum PageChild {
    /// A page break: whether it is weak, the parity it asks the next page
    /// for, and whether it only marks a change of page settings.
    Pagebreak { weak: bool, parity: Option<Parity>, boundary: bool },
    /// An introspection tag: whether it ends an element, and the element's
    /// location.
    Tag { end: bool, location: u64 },
    /// Any other content.
    Other,
}

impl PageChild {
    /// Whether this is a tag.
    pub fn is_tag(&self) -> (r: bool)
        ensures
            r == (*self is Tag),
    {
        match self {
            PageChild::Tag { .. } => true,
            _ => false,
        }
    }

    /// Whether this is a page break.
    pub fn is_pagebreak(&self) -> (r: bool)
        ensures
            r == (*self is Pagebreak),
    {
        match self {
            PageChild::Pagebreak { .. } => true,
            _ => false,
        }
    }
}

/// How many children from `mid` back (not before `lo`) are tags.
pub open spec fn trailing_tags<T>(c: Seq<(PageChild, T)>, lo: int, mid: int) -> int
    decreases mid - lo,
{
    if mid <= lo || !(c[mid - 1].0 is Tag) {
        0
    } else {
        1 + trailing_tags(c, lo, mid - 1)
    }
}

/// How many children from `mid` on are page breaks.
pub open spec fn leading_breaks<T>(c: Seq<(PageChild, T)>, mid: int) -> int
    decreases c.len() - mid,
{
    if mid < 0 || mid >= c.len() || !(c[mid].0 is Pagebreak) {
        0
    } else {
        1 + leading_breaks(c, mid + 1)
    }
}

/// Whether a tag ending the element at `location` is among the children
/// `start..mid`.
pub open spec fn ended_within<T>(c: Seq<(PageChild, T)>, start: int, mid: int, location: u64) -> bool {
    exists|i: int| start <= i < mid && #[trigger] c[i].0 == (PageChild::Tag { end: true, location })
}

/// The sorting key of a child when tags are migrated: tags of elements
/// that end among `start..mid` come first, then page breaks and other
/// children, then the tags of elements that stay open.
pub open spec fn tag_key<T>(c: Seq<(PageChild, T)>, start: int, mid: int, child: PageChild) -> int {
    match child {
        PageChild::Tag { location, .. } => if ended_within(c, start, mid, location) {
            -1
        } else {
            1
        },
        _ => 0,
    }
}

/// The children of `s` with key `k`, in order.
pub open spec fn keyed<T>(s: Seq<(PageChild, T)>, c: Seq<(PageChild, T)>, start: int, mid: int, k: int) -> Seq<
    (PageChild, T),
>
    decreases s.len(),
{
    if s.len() == 0 {
        Seq::empty()
    } else {
        keyed(s.drop_last(), c, start, mid, k) + if tag_key(c, start, mid, s.last().0) == k {
            seq![s.last()]
        } else {
            Seq::empty()
        }
    }
}

/// Keeping the children of one key keeps at most all of them.
proof fn lemma_keyed_len<T>(s: Seq<(PageChild, T)>, c: Seq<(PageChild, T)>, start: int, mid: int, k: int)
    ensures
        keyed(s, c, start, mid, k).len() <= s.len(),
    decreases s.len(),
{
    if s.len() > 0 {
        lemma_keyed_len(s.drop_last(), c, start, mid, k);
    }
}

/// Where the tags before `mid` begin.
pub open spec fn migrate_start<T>(c: Seq<(PageChild, T)>, lo: int, mid: int) -> int {
    mid - trailing_tags(c, lo, mid)
}

/// Where the page breaks after `mid` end.
pub open spec fn migrate_stop<T>(c: Seq<(PageChild, T)>, mid: int) -> int {
    mid + leading_breaks(c, mid)
}

/// The children with the tags before `mid` and the page breaks after it
/// stably sorted by [`tag_key`]: tags of elements that end there stay before
/// the page breaks, and tags of elements still open move after them.
pub open spec fn migrated<T>(c: Seq<(PageChild, T)>, lo: int, mid: int) -> Seq<(PageChild, T)> {
    let start = migrate_start(c, lo, mid);
    let stop = migrate_stop(c, mid);
    let range = c.subrange(start, stop);
    c.subrange(0, start) + keyed(range, c, start, mid, -1) + keyed(range, c, start, mid, 0) + keyed(
        range,
        c,
        start,
        mid,
        1,
    ) + c.subrange(stop, c.len() as int)
}

/// The position right after the last tag that is not migrated.
pub open spec fn migrated_end<T>(c: Seq<(PageChild, T)>, lo: int, mid: int) -> int {
    let start = migrate_start(c, lo, mid);
    start + keyed(c.subrange(start, migrate_stop(c, mid)), c, start, mid, -1).len()
}

/// The sorting key of a child, given the locations that end in range.
fn key_of(child: PageChild, ends: &Vec<u64>) -> (r: i8)
    ensures
        r == (match child {
            PageChild::Tag { location, .. } => if ends@.contains(location) {
                -1int
            } else {
                1int
            },
            _ => 0int,
        }),
{
    match child {
        PageChild::Tag { end, location } => {
            let mut i: usize = 0;
            while i < ends.len()
                invariant
                    child == (PageChild::Tag { end, location }),
                    i <= ends@.len(),
                    forall|j: int| 0 <= j < i ==> ends@[j] != location,
                decreases ends@.len() - i,
            {
                if ends[i] == location {
                    assert(ends@[i as int] == location);
                    assert(ends@.contains(location));
                    return -1;
                }
                i = i + 1;
            }
            1
        },
        _ => 0,
    }
}

/// Migrate the tags of elements that are still open at a page break past
/// the break: among the children from `lo`, the tags right before `mid`
/// and the page breaks right after it are stably sorted so that tags of
/// elements ending there come first, then the breaks, then the tags of
/// elements still open.  Gives the position right after the last tag that
/// is not migrated.
pub fn migrate_unterminated_tags<T: Copy>(children: &mut Vec<(PageChild, T)>, lo: usize, mid: usize) -> (r:
    usize)
    requires
        lo <= mid <= old(children)@.len(),
    ensures
        final(children)@ == migrated(old(children)@, lo as int, mid as int),
        r == migrated_end(old(children)@, lo as int, mid as int),
{
    let ghost c = children@;
    let mut back: usize = 0;
    while back < mid - lo && children[mid - 1 - back].0.is_tag()
        invariant
            children@ == c,
            lo <= mid <= c.len(),
            back <= mid - lo,
            trailing_tags(c, lo as int, mid as int) == back + trailing_tags(c, lo as int, mid - back),
        decreases mid - lo - back,
    {
        back = back + 1;
    }
    let start = mid - back;
    let n = children.len();
    let mut fwd: usize = 0;
    while mid + fwd < n && children[mid + fwd].0.is_pagebreak()
        invariant
            children@ == c,
            n == c.len(),
            mid <= c.len(),
            mid + fwd <= c.len(),
            leading_breaks(c, mid as int) == fwd + leading_breaks(c, mid + fwd),
        decreases c.len() - mid - fwd,
    {
        fwd = fwd + 1;
    }
    let stop = mid + fwd;
    assert(start == migrate_start(c, lo as int, mid as int));
    assert(stop == migrate_stop(c, mid as int));
    // The locations of elements that end among `start..mid`.
    let mut ends: Vec<u64> = Vec::new();
    let mut i: usize = start;
    while i < mid
        invariant
            children@ == c,
            start <= i <= mid <= c.len(),
            forall|l: u64|
                ends@.contains(l) <==> exists|j: int|
                    start <= j < i && #[trigger] c[j].0 == (PageChild::Tag { end: true, location: l }),
        decreases mid - i,
    {
        let ghost before = ends@;
        match children[i].0 {
            PageChild::Tag { end: true, location } => {
                ends.push(location);
                proof {
                    assert(ends@ == before.push(location));
                    assert forall|l: u64|
                        ends@.contains(l) <==> exists|j: int|
                            start <= j < i + 1 && #[trigger] c[j].0 == (PageChild::Tag {
                                end: true,
                                location: l,
                            }) by {
                        if ends@.contains(l) {
                            let q = choose|q: int| 0 <= q < ends@.len() && ends@[q] == l;
                            if q < before.len() {
                                assert(before[q] == l);
                                assert(before.contains(l));
                            } else {
                                assert(l == location);
                                assert(c[i as int].0 == (PageChild::Tag { end: true, location: l }));
                            }
                        }
                        if exists|j: int|
                            start <= j < i + 1 && #[trigger] c[j].0 == (PageChild::Tag {
                                end: true,
                                location: l,
                            }) {
                            let j = choose|j: int|
                                start <= j < i + 1 && #[trigger] c[j].0 == (PageChild::Tag {
                                    end: true,
                                    location: l,
                                });
                            if j == i {
                                assert(ends@[before.len() as int] == l);
                            } else {
                                assert(before.contains(l));
                                let q = choose|q: int| 0 <= q < before.len() && before[q] == l;
                                assert(ends@[q] == l);
                            }
                        }
                    }
                }
            },
            _ => {
                proof {
                    assert forall|l: u64|
                        ends@.contains(l) <==> exists|j: int|
                            start <= j < i + 1 && #[trigger] c[j].0 == (PageChild::Tag {
                                end: true,
                                location: l,
                            }) by {
                        if exists|j: int|
                            start <= j < i + 1 && #[trigger] c[j].0 == (PageChild::Tag {
                                end: true,
                                location: l,
                            }) {
                            let j = choose|j: int|
                                start <= j < i + 1 && #[trigger] c[j].0 == (PageChild::Tag {
                                    end: true,
                                    location: l,
                                });
                            assert(j != i);
                        }
                    }
                }
            },
        }
        i = i + 1;
    }
    // Split off the range and what follows it.
    let mut rest = children.split_off(stop);
    let range = children.split_off(start);
    let ghost rg = range@;
    assert(rg == c.subrange(start as int, stop as int));
    let mut neg: Vec<(PageChild, T)> = Vec::new();
    let mut zero: Vec<(PageChild, T)> = Vec::new();
    let mut pos: Vec<(PageChild, T)> = Vec::new();
    for entry in it: range.into_iter()
        invariant
            it.seq() == rg,
            forall|l: u64| ends@.contains(l) <==> ended_within(c, start as int, mid as int, l),
            neg@ == keyed(rg.take(it.index() as int), c, start as int, mid as int, -1),
            zero@ == keyed(rg.take(it.index() as int), c, start as int, mid as int, 0),
            pos@ == keyed(rg.take(it.index() as int), c, start as int, mid as int, 1),
    {
        let ghost k = it.index() as int;
        proof {
            assert(rg.take(k + 1).drop_last() =~= rg.take(k));
            assert(rg.take(k + 1).last() == rg[k]);
        }
        let key = key_of(entry.0, &ends);
        if key < 0 {
            neg.push(entry);
        } else if key == 0 {
            zero.push(entry);
        } else {
            pos.push(entry);
        }
    }
    proof {
        assert(rg.take(rg.len() as int) =~= rg);
    }
    proof {
        lemma_keyed_len(rg, c, start as int, mid as int, -1);
    }
    let count = neg.len();
    children.append(&mut neg);
    children.append(&mut zero);
    children.append(&mut pos);
    children.append(&mut rest);
    proof {
        assert(children@ =~= migrated(c, lo as int, mid as int));
    }
    start + count
}


/// The tags right before `mid` are tags, and they are at most those after
/// `lo`.
proof fn lemma_trailing_tags<T>(c: Seq<(PageChild, T)>, lo: int, mid: int)
    requires
        0 <= lo <= mid <= c.len(),
    ensures
        0 <= trailing_tags(c, lo, mid) <= mid - lo,
        forall|j: int| mid - trailing_tags(c, lo, mid) <= j < mid ==> (#[trigger] c[j]).0 is Tag,
    decreases mid - lo,
{
    if mid > lo && c[mid - 1].0 is Tag {
        lemma_trailing_tags(c, lo, mid - 1);
    }
}

/// The page breaks right after `mid` are page breaks within the children.
proof fn lemma_leading_breaks<T>(c: Seq<(PageChild, T)>, mid: int)
    requires
        0 <= mid <= c.len(),
    ensures
        0 <= leading_breaks(c, mid) <= c.len() - mid,
        forall|j: int| mid <= j < mid + leading_breaks(c, mid) ==> (#[trigger] c[j]).0 is Pagebreak,
    decreases c.len() - mid,
{
    if mid < c.len() && c[mid].0 is Pagebreak {
        lemma_leading_breaks(c, mid + 1);
    }
}

/// Every child goes to exactly one key.
proof fn lemma_keyed_partition<T>(s: Seq<(PageChild, T)>, c: Seq<(PageChild, T)>, start: int, mid: int)
    ensures
        keyed(s, c, start, mid, -1).len() + keyed(s, c, start, mid, 0).len() + keyed(
            s,
            c,
            start,
            mid,
            1,
        ).len() == s.len(),
    decreases s.len(),
{
    if s.len() > 0 {
        lemma_keyed_partition(s.drop_last(), c, start, mid);
    }
}

/// What is kept for a key are children of that key: where the `m`-th one
/// came from.
proof fn lemma_keyed_member<T>(
    s: Seq<(PageChild, T)>,
    c: Seq<(PageChild, T)>,
    start: int,
    mid: int,
    k: int,
    m: int,
) -> (i: int)
    requires
        0 <= m < keyed(s, c, start, mid, k).len(),
    ensures
        0 <= i < s.len(),
        s[i] == keyed(s, c, start, mid, k)[m],
        tag_key(c, start, mid, s[i].0) == k,
    decreases s.len(),
{
    let prev = keyed(s.drop_last(), c, start, mid, k);
    if m < prev.len() {
        let i = lemma_keyed_member(s.drop_last(), c, start, mid, k, m);
        assert(s[i] == s.drop_last()[i]);
        i
    } else {
        s.len() - 1
    }
}

/// A child of some key is kept for that key.
proof fn lemma_keyed_nonempty<T>(
    s: Seq<(PageChild, T)>,
    c: Seq<(PageChild, T)>,
    start: int,
    mid: int,
    k: int,
    i: int,
)
    requires
        0 <= i < s.len(),
        tag_key(c, start, mid, s[i].0) == k,
    ensures
        keyed(s, c, start, mid, k).len() > 0,
    decreases s.len(),
{
    if i < s.len() - 1 {
        lemma_keyed_nonempty(s.drop_last(), c, start, mid, k, i);
    }
}

/// When all children have the same key, all are kept for it.
proof fn lemma_keyed_all<T>(s: Seq<(PageChild, T)>, c: Seq<(PageChild, T)>, start: int, mid: int, k: int)
    requires
        forall|i: int| 0 <= i < s.len() ==> tag_key(c, start, mid, (#[trigger] s[i]).0) == k,
    ensures
        keyed(s, c, start, mid, k) == s,
    decreases s.len(),
{
    if s.len() > 0 {
        lemma_keyed_all(s.drop_last(), c, start, mid, k);
        assert(tag_key(c, start, mid, s[s.len() - 1].0) == k);
        assert(keyed(s, c, start, mid, k) =~= s);
    }
}

/// Migrating keeps the number of children.
proof fn lemma_migrated_len<T>(c: Seq<(PageChild, T)>, lo: int, mid: int)
    requires
        0 <= lo <= mid <= c.len(),
    ensures
        migrated(c, lo, mid).len() == c.len(),
        lo <= migrate_start(c, lo, mid) <= mid <= migrate_stop(c, mid) <= c.len(),
        migrate_start(c, lo, mid) <= migrated_end(c, lo, mid) <= migrate_stop(c, mid),
{
    lemma_trailing_tags(c, lo, mid);
    lemma_leading_breaks(c, mid);
    let start = migrate_start(c, lo, mid);
    let stop = migrate_stop(c, mid);
    let range = c.subrange(start, stop);
    lemma_keyed_partition(range, c, start, mid);
}

/// An item of page layout, referring to children by their positions once
/// collecting is over.
#[derive(Clone, Copy, PartialEq, Eq, Debug)]
pub enum Item<T> {
    /// A run of pages holding the children `start..end` (none for an empty
    /// page), with the styles of the `styles` child (the document's own for
    /// none), and located by the `key` child (afresh for none).
    Run { start: usize, end: usize, styles: Option<T>, key: Option<T> },
    /// Tags between pages: the children `start..end`.
    Tags { start: usize, end: usize },
    /// An extra page for parity, with the styles and location of the page
    /// break `child`.
    Parity { parity: Parity, child: T },
}

/// The state of collecting children into page items.
pub struct CollectState<T> {
    /// The children, in their current order.
    pub children: Seq<(PageChild, T)>,
    /// Where collecting has come to.
    pub pos: int,
    /// The items so far.
    pub items: Seq<Item<T>>,
    /// Whether an empty page is staged.
    pub staged: bool,
    /// The child whose styles the next page starts with (the document's
    /// own for none).
    pub initial: Option<T>,
    /// Whether collecting is over.
    pub done: bool,
}

/// The state before collecting.
pub open spec fn collect_start<T>(c: Seq<(PageChild, T)>) -> CollectState<T> {
    CollectState { children: c, pos: 0, items: Seq::empty(), staged: true, initial: None, done: false }
}

/// How many children from `pos` come before the next page break.
pub open spec fn breakless<T>(c: Seq<(PageChild, T)>, pos: int) -> int
    decreases c.len() - pos,
{
    if pos < 0 || pos >= c.len() || c[pos].0 is Pagebreak {
        0
    } else {
        1 + breakless(c, pos + 1)
    }
}

/// Whether all children are tags.
pub open spec fn all_tags<T>(s: Seq<(PageChild, T)>) -> bool {
    forall|i: int| 0 <= i < s.len() ==> (#[trigger] s[i]).0 is Tag
}

/// Whether all children are page breaks that only mark a change of page
/// settings.
pub open spec fn all_boundaries<T>(s: Seq<(PageChild, T)>) -> bool {
    forall|i: int|
        0 <= i < s.len() ==> ((#[trigger] s[i]).0 matches PageChild::Pagebreak { boundary, .. } && boundary)
}

/// One round of collecting.  At the end, a staged empty page becomes an
/// empty run.  A page break stages an empty page when it is strong, asks
/// for a parity page if it has a parity, and gives the next page its
/// styles.  Other children up to the next page break form a group, once
/// the tags of elements still open have been migrated past the breaks: a
/// group of tags alone, unless it is all there is before the end or before
/// breaks that only change settings while a page is staged, stays between
/// pages; any other group is a run.
pub open spec fn collect_step<T>(s: CollectState<T>) -> CollectState<T> {
    if s.done {
        s
    } else if s.pos >= s.children.len() {
        CollectState {
            items: if s.staged {
                s.items.push(
                    Item::Run { start: s.pos as usize, end: s.pos as usize, styles: s.initial, key: None },
                )
            } else {
                s.items
            },
            done: true,
            ..s
        }
    } else {
        let payload = s.children[s.pos].1;
        match s.children[s.pos].0 {
            PageChild::Pagebreak { weak, parity, .. } => {
                let strong = !weak;
                let i1 = if strong && s.staged {
                    s.items.push(
                        Item::Run {
                            start: s.pos as usize,
                            end: s.pos as usize,
                            styles: s.initial,
                            key: Some(payload),
                        },
                    )
                } else {
                    s.items
                };
                let i2 = match parity {
                    Some(p) => i1.push(Item::Parity { parity: p, child: payload }),
                    None => i1,
                };
                CollectState {
                    pos: s.pos + 1,
                    items: i2,
                    staged: s.staged || strong,
                    initial: Some(payload),
                    ..s
                }
            },
            _ => {
                let mid = s.pos + breakless(s.children, s.pos);
                let c2 = migrated(s.children, s.pos, mid);
                let end = migrated_end(s.children, s.pos, mid);
                if end == s.pos {
                    CollectState { children: c2, ..s }
                } else if all_tags(c2.subrange(s.pos, end)) && !(s.staged && all_boundaries(
                    c2.subrange(end, c2.len() as int),
                )) {
                    CollectState {
                        children: c2,
                        pos: end,
                        items: s.items.push(Item::Tags { start: s.pos as usize, end: end as usize }),
                        ..s
                    }
                } else {
                    CollectState {
                        children: c2,
                        pos: end,
                        items: s.items.push(
                            Item::Run {
                                start: s.pos as usize,
                                end: end as usize,
                                styles: Some(c2[s.pos].1),
                                key: Some(payload),
                            },
                        ),
                        staged: false,
                        ..s
                    }
                }
            },
        }
    }
}

/// The state after `k` rounds.
pub open spec fn collect_rounds<T>(s: CollectState<T>, k: nat) -> CollectState<T>
    decreases k,
{
    if k == 0 {
        s
    } else {
        collect_step(collect_rounds(s, (k - 1) as nat))
    }
}

/// Whether collecting the children comes to an end.
pub open spec fn collect_ends<T>(c: Seq<(PageChild, T)>) -> bool {
    exists|k: nat| #[trigger] collect_rounds(collect_start(c), k).done
}

/// Once over, collecting stays over.
proof fn lemma_done_stays<T>(s: CollectState<T>, j: nat, k: nat)
    requires
        j <= k,
        collect_rounds(s, j).done,
    ensures
        collect_rounds(s, k) == collect_rounds(s, j),
    decreases k - j,
{
    if j < k {
        lemma_done_stays(s, j, (k - 1) as nat);
    }
}

/// A round that changes nothing repeats forever.
proof fn lemma_stuck<T>(s: CollectState<T>, k: nat)
    requires
        !collect_rounds(s, k).done,
        collect_step(collect_rounds(s, k)) == collect_rounds(s, k),
    ensures
        forall|j: nat| !#[trigger] collect_rounds(s, j).done,
{
    assert forall|j: nat| !#[trigger] collect_rounds(s, j).done by {
        if collect_rounds(s, j).done {
            if j <= k {
                lemma_done_stays(s, j, k);
            } else {
                lemma_stuck_from(s, k, j);
            }
        }
    }
}

/// A round that changes nothing gives the same state at every later round.
proof fn lemma_stuck_from<T>(s: CollectState<T>, k: nat, j: nat)
    requires
        k <= j,
        collect_step(collect_rounds(s, k)) == collect_rounds(s, k),
    ensures
        collect_rounds(s, j) == collect_rounds(s, k),
    decreases j - k,
{
    if k < j {
        lemma_stuck_from(s, k, (j - 1) as nat);
    }
}


/// Whether the children `lo..hi` are all tags.
fn all_tags_in<T: Copy>(children: &Vec<(PageChild, T)>, lo: usize, hi: usize) -> (r: bool)
    requires
        lo <= hi <= children@.len(),
    ensures
        r == all_tags(children@.subrange(lo as int, hi as int)),
{
    let mut i = lo;
    while i < hi
        invariant
            lo <= i <= hi <= children@.len(),
            forall|j: int| lo <= j < i ==> (#[trigger] children@[j]).0 is Tag,
        decreases hi - i,
    {
        if !children[i].0.is_tag() {
            assert(children@.subrange(lo as int, hi as int)[i - lo] == children@[i as int]);
            return false;
        }
        i = i + 1;
    }
    assert forall|j: int| 0 <= j < hi - lo implies (#[trigger] children@.subrange(
        lo as int,
        hi as int,
    )[j]).0 is Tag by {
        assert(children@.subrange(lo as int, hi as int)[j] == children@[lo + j]);
    }
    true
}

/// Whether the children `lo..hi` are all page breaks that only mark a
/// change of page settings.
fn all_boundaries_in<T: Copy>(children: &Vec<(PageChild, T)>, lo: usize, hi: usize) -> (r: bool)
    requires
        lo <= hi <= children@.len(),
    ensures
        r == all_boundaries(children@.subrange(lo as int, hi as int)),
{
    let mut i = lo;
    while i < hi
        invariant
            lo <= i <= hi <= children@.len(),
            forall|j: int|
                lo <= j < i ==> ((#[trigger] children@[j]).0 matches PageChild::Pagebreak { boundary, .. }
                    && boundary),
        decreases hi - i,
    {
        let ok = match children[i].0 {
            PageChild::Pagebreak { boundary, .. } => boundary,
            _ => false,
        };
        if !ok {
            assert(children@.subrange(lo as int, hi as int)[i - lo] == children@[i as int]);
            return false;
        }
        i = i + 1;
    }
    assert forall|j: int| 0 <= j < hi - lo implies ((#[trigger] children@.subrange(
        lo as int,
        hi as int,
    )[j]).0 matches PageChild::Pagebreak { boundary, .. } && boundary) by {
        assert(children@.subrange(lo as int, hi as int)[j] == children@[lo + j]);
    }
    true
}

/// When no tag ends in range and no page break follows, migrating leaves
/// the children as they are.
proof fn lemma_migrate_unchanged<T>(c: Seq<(PageChild, T)>, lo: int, mid: int)
    requires
        0 <= lo <= mid <= c.len(),
        migrated_end(c, lo, mid) == lo,
        leading_breaks(c, mid) == 0,
    ensures
        migrated(c, lo, mid) == c,
{
    lemma_migrated_len(c, lo, mid);
    lemma_trailing_tags(c, lo, mid);
    let start = migrate_start(c, lo, mid);
    let stop = migrate_stop(c, mid);
    let range = c.subrange(start, stop);
    assert(start == lo);
    assert(stop == mid);
    assert forall|i: int| 0 <= i < range.len() implies tag_key(c, start, mid, (#[trigger] range[i]).0)
        == 1 by {
        assert(range[i] == c[start + i]);
        assert(c[start + i].0 is Tag);
        if tag_key(c, start, mid, range[i].0) == -1 {
            lemma_keyed_nonempty(range, c, start, mid, -1, i);
        }
    }
    lemma_keyed_all(range, c, start, mid, 1);
    lemma_keyed_partition(range, c, start, mid);
    assert(keyed(range, c, start, mid, 0) =~= Seq::<(PageChild, T)>::empty());
    assert(keyed(range, c, start, mid, -1) =~= Seq::<(PageChild, T)>::empty());
    assert(migrated(c, lo, mid) =~= c);
}

/// When no tag ends in range but page breaks follow, migrating brings a
/// page break to `lo`.
proof fn lemma_migrate_brings_break<T>(c: Seq<(PageChild, T)>, lo: int, mid: int)
    requires
        0 <= lo <= mid < c.len(),
        migrated_end(c, lo, mid) == lo,
        c[mid].0 is Pagebreak,
    ensures
        migrated(c, lo, mid)[lo].0 is Pagebreak,
{
    lemma_migrated_len(c, lo, mid);
    lemma_trailing_tags(c, lo, mid);
    lemma_leading_breaks(c, mid);
    let start = migrate_start(c, lo, mid);
    let stop = migrate_stop(c, mid);
    let range = c.subrange(start, stop);
    assert(start == lo);
    assert(leading_breaks(c, mid) == 1 + leading_breaks(c, mid + 1));
    lemma_leading_breaks(c, mid + 1);
    assert(stop > mid);
    assert(range[mid - start] == c[mid]);
    lemma_keyed_nonempty(range, c, start, mid, 0, mid - start);
    let zero = keyed(range, c, start, mid, 0);
    let i = lemma_keyed_member(range, c, start, mid, 0, 0);
    assert(range[i] == c[start + i]);
    if i < mid - start {
        assert(c[start + i].0 is Tag);
    }
    let m = migrated(c, lo, mid);
    assert(keyed(range, c, start, mid, -1).len() == 0);
    assert(m[lo] == zero[0]);
}

/// Collect the children into page items (see [`collect_step`]), sorting
/// them in place as tags migrate; `None` when collecting never comes to an
/// end, which is when the children left at some point are tags of elements
/// still open and nothing else.
pub fn try_collect<T: Copy>(children: &mut Vec<(PageChild, T)>) -> (r: Option<Vec<Item<T>>>)
    ensures
        r is Some <==> collect_ends(old(children)@),
        r matches Some(items) ==> exists|k: nat|
            #[trigger] collect_rounds(collect_start(old(children)@), k).done && items@ == collect_rounds(
                collect_start(old(children)@),
                k,
            ).items && final(children)@ == collect_rounds(collect_start(old(children)@), k).children,
{
    let ghost init = collect_start(children@);
    let n = children.len();
    let mut items: Vec<Item<T>> = Vec::new();
    let mut staged = true;
    let mut initial: Option<T> = None;
    let mut pos: usize = 0;
    let ghost mut k: nat = 0;
    loop
        invariant_except_break
            collect_rounds(init, k) == (CollectState {
                children: children@,
                pos: pos as int,
                items: items@,
                staged,
                initial,
                done: false,
            }),
            pos <= n,
            children@.len() == n,
            init == collect_start(old(children)@),
        ensures
            collect_rounds(init, k).done,
            collect_rounds(init, k).items == items@,
            collect_rounds(init, k).children == children@,
        decreases 2 * (n - pos) + (if pos < n && !(children@[pos as int].0 is Pagebreak) {
            1int
        } else {
            0int
        }),
    {
        if pos >= n {
            if staged {
                items.push(Item::Run { start: pos, end: pos, styles: initial, key: None });
            }
            proof {
                k = k + 1;
            }
            break;
        }
        let (child, payload) = children[pos];
        match child {
            PageChild::Pagebreak { weak, parity, boundary } => {
                let strong = !weak;
                if strong && staged {
                    items.push(Item::Run { start: pos, end: pos, styles: initial, key: Some(payload) });
                }
                match parity {
                    Some(p) => {
                        items.push(Item::Parity { parity: p, child: payload });
                    },
                    None => {},
                }
                initial = Some(payload);
                staged = staged || strong;
                pos = pos + 1;
                proof {
                    k = k + 1;
                }
            },
            _ => {
                let mut run: usize = 0;
                while pos + run < n && !children[pos + run].0.is_pagebreak()
                    invariant
                        children@.len() == n,
                        pos < n,
                        pos + run <= n,
                        breakless(children@, pos as int) == run + breakless(children@, pos + run),
                    decreases n - pos - run,
                {
                    run = run + 1;
                }
                let mid = pos + run;
                let moved = mid < n && children[mid].0.is_pagebreak();
                let ghost before = children@;
                proof {
                    lemma_migrated_len(before, pos as int, mid as int);
                }
                let end = migrate_unterminated_tags(children, pos, mid);
                if end == pos {
                    if !moved {
                        proof {
                            assert(breakless(before, mid as int) == 0);
                            assert(pos + breakless(before, pos as int) == mid);
                            assert(leading_breaks(before, mid as int) == 0);
                            lemma_migrate_unchanged(before, pos as int, mid as int);
                            let st = collect_rounds(init, k);
                            assert(collect_step(st) == st);
                            lemma_stuck(init, k);
                            assert(collect_start(init.children) == init);
                            assert(!collect_ends(init.children));
                        }
                        return None;
                    }
                    proof {
                        lemma_migrate_brings_break(before, pos as int, mid as int);
                        k = k + 1;
                    }
                    continue;
                }
                let group_tags = all_tags_in(children, pos, end);
                let rest_boundaries = all_boundaries_in(children, end, n);
                if group_tags && !(staged && rest_boundaries) {
                    items.push(Item::Tags { start: pos, end });
                } else {
                    let first = children[pos].1;
                    items.push(Item::Run { start: pos, end, styles: Some(first), key: Some(payload) });
                    staged = false;
                }
                pos = end;
                proof {
                    k = k + 1;
                }
            },
        }
    }
    proof {
        assert(collect_rounds(collect_start(init.children), k).done);
    }
    Some(items)
}

/// Collect the children into page items (see [`collect_step`]), sorting
/// them in place as tags migrate, when collecting comes to an end.
pub fn collect<T: Copy>(children: &mut Vec<(PageChild, T)>) -> (r: Vec<Item<T>>)
    requires
        collect_ends(old(children)@),
    ensures
        exists|k: nat|
            #[trigger] collect_rounds(collect_start(old(children)@), k).done && r@ == collect_rounds(
                collect_start(old(children)@),
                k,
            ).items && final(children)@ == collect_rounds(collect_start(old(children)@), k).children,
{
    match try_collect(children) {
        Some(items) => items,
        None => Vec::new(),
    }
}


/// Sorting by key keeps the children, each as often as before.
proof fn lemma_keyed_multiset<T>(s: Seq<(PageChild, T)>, c: Seq<(PageChild, T)>, start: int, mid: int)
    ensures
        keyed(s, c, start, mid, -1).to_multiset().add(keyed(s, c, start, mid, 0).to_multiset()).add(
            keyed(s, c, start, mid, 1).to_multiset(),
        ) =~= s.to_multiset(),
    decreases s.len(),
{
    broadcast use vstd::seq_lib::group_to_multiset_ensures, vstd::multiset::group_multiset_axioms;

    if s.len() > 0 {
        let p = s.drop_last();
        let x = s.last();
        lemma_keyed_multiset(p, c, start, mid);
        assert(s =~= p.push(x));
        let kx = tag_key(c, start, mid, x.0);
        let a = keyed(p, c, start, mid, -1);
        let b = keyed(p, c, start, mid, 0);
        let d = keyed(p, c, start, mid, 1);
        if kx == -1 {
            assert(keyed(s, c, start, mid, -1) =~= a.push(x));
            assert(keyed(s, c, start, mid, 0) =~= b);
            assert(keyed(s, c, start, mid, 1) =~= d);
        } else if kx == 0 {
            assert(keyed(s, c, start, mid, -1) =~= a);
            assert(keyed(s, c, start, mid, 0) =~= b.push(x));
            assert(keyed(s, c, start, mid, 1) =~= d);
        } else {
            assert(keyed(s, c, start, mid, -1) =~= a);
            assert(keyed(s, c, start, mid, 0) =~= b);
            assert(keyed(s, c, start, mid, 1) =~= d.push(x));
        }
    } else {
        assert(keyed(s, c, start, mid, -1) =~= Seq::<(PageChild, T)>::empty());
    }
}

/// Migrating tags keeps the children, each as often as before.
proof fn lemma_migrated_multiset<T>(c: Seq<(PageChild, T)>, lo: int, mid: int)
    requires
        0 <= lo <= mid <= c.len(),
    ensures
        migrated(c, lo, mid).to_multiset() =~= c.to_multiset(),
{
    broadcast use vstd::seq_lib::lemma_multiset_commutative, vstd::multiset::group_multiset_axioms;

    lemma_migrated_len(c, lo, mid);
    let start = migrate_start(c, lo, mid);
    let stop = migrate_stop(c, mid);
    let range = c.subrange(start, stop);
    lemma_keyed_multiset(range, c, start, mid);
    let head = c.subrange(0, start);
    let tail = c.subrange(stop, c.len() as int);
    assert(c =~= head + range + tail);
    let a = keyed(range, c, start, mid, -1);
    let b = keyed(range, c, start, mid, 0);
    let d = keyed(range, c, start, mid, 1);
    assert(migrated(c, lo, mid) == head + a + b + d + tail);
}

/// The children one can get to: how far collecting may go.
proof fn lemma_breakless<T>(c: Seq<(PageChild, T)>, pos: int)
    requires
        0 <= pos <= c.len(),
    ensures
        0 <= breakless(c, pos) <= c.len() - pos,
    decreases c.len() - pos,
{
    if pos < c.len() && !(c[pos].0 is Pagebreak) {
        lemma_breakless(c, pos + 1);
    }
}

/// Collecting only ever reorders the children: every child stays, as
/// often as it was given, however many rounds are taken.
pub proof fn law_collect_keeps_children<T>(c: Seq<(PageChild, T)>, k: nat)
    ensures
        collect_rounds(collect_start(c), k).children.to_multiset() == c.to_multiset(),
        0 <= collect_rounds(collect_start(c), k).pos <= c.len(),
    decreases k,
{
    if k > 0 {
        law_collect_keeps_children(c, (k - 1) as nat);
        let s = collect_rounds(collect_start(c), (k - 1) as nat);
        vstd::seq_lib::to_multiset_len(s.children);
        vstd::seq_lib::to_multiset_len(c);
        if !s.done && s.pos < s.children.len() && !(s.children[s.pos].0 is Pagebreak) {
            lemma_breakless(s.children, s.pos);
            let mid = s.pos + breakless(s.children, s.pos);
            lemma_migrated_multiset(s.children, s.pos, mid);
            lemma_migrated_len(s.children, s.pos, mid);
        }
    }
}

// ── Laying out the document ──────────────────────────────────────────────

/// A page item once its outside work is done: a run's laid-out pages, a
/// parity item's blank page, or the tags between pages.
pub enum LaidOutItem {
    /// The pages a run was laid out into.
    Run(Vec<LayoutedPage>),
    /// The parity wanted and the blank page that would meet it.
    Parity(Parity, LayoutedPage),
    /// The tags between pages.
    Tags(Vec<u64>),
}

/// Whether page number `n` has the parity.
pub open spec fn parity_matches(p: Parity, n: int) -> bool {
    match p {
        Parity::Even => n % 2 == 0,
        Parity::Odd => n % 2 == 1,
    }
}

/// The laid-out pages that become the document's pages, in order, for the
/// first `k` items: every page of a run, and a parity item's blank page
/// when the number of the page it would be has the parity.
pub open spec fn page_sources(items: Seq<LaidOutItem>, k: int) -> Seq<LayoutedPage>
    decreases k,
{
    if k <= 0 {
        Seq::empty()
    } else {
        let prev = page_sources(items, k - 1);
        match items[k - 1] {
            LaidOutItem::Run(pages) => prev + pages@,
            LaidOutItem::Parity(p, blank) => if parity_matches(p, prev.len() as int) {
                prev.push(blank)
            } else {
                prev
            },
            LaidOutItem::Tags(_) => prev,
        }
    }
}

/// Whether `page` was finished from `src`: same size, baseline and content
/// height, and the content's items first.
pub open spec fn finished_from(page: TermPage, src: LayoutedPage) -> bool {
    &&& page.frame.size == src.inner.size
    &&& page.frame.baseline == src.inner.baseline
    &&& page.frame.content_height == src.inner.content_height
    &&& src.inner.items@.len() <= page.frame.items@.len()
    &&& page.frame.items@.subrange(0, src.inner.items@.len() as int) == src.inner.items@
}

/// How many marginal frames (background, header, footer, foreground) a
/// laid-out page has.
pub open spec fn marginal_count(p: LayoutedPage) -> nat {
    (if p.background is Some { 1nat } else { 0nat }) + (if p.header is Some { 1nat } else { 0nat }) + (
    if p.footer is Some {
        1nat
    } else {
        0nat
    }) + (if p.foreground is Some { 1nat } else { 0nat })
}

/// Whether `page` was finished from `src` with `t` tags: besides
/// [`finished_from`], the content's items are followed by `t` tag marks at
/// the origin and then by the marginal frames.
pub open spec fn stamped(page: TermPage, src: LayoutedPage, t: nat) -> bool {
    let n = src.inner.items@.len();
    &&& finished_from(page, src)
    &&& page.frame.items@.len() == n + t + marginal_count(src)
    &&& are_tag_marks(page.frame.items@.subrange(n as int, (n + t) as int), t as int, TermPoint::zero_spec())
}

/// An empty page with no marginals, put in the place of a page taken out.
fn placeholder_page() -> (r: LayoutedPage)
    ensures
        r.inner.is_empty_of(TermSize { cols: TermScalar::Finite(0), rows: TermScalar::Finite(0) }),
        r.header is None,
        r.footer is None,
        r.background is None,
        r.foreground is None,
{
    LayoutedPage::bare(TermFrame::new(TermSize::zero()))
}

/// Finish a page (see [`finalize`]), read through [`stamped`].
fn finish_page(tags: &mut Vec<u64>, page: LayoutedPage) -> (r: TermPage)
    ensures
        final(tags)@.len() == 0,
        r.number == 0,
        stamped(r, page, old(tags)@.len()),
{
    let ghost t = tags@.len();
    let r = finalize(tags, page);
    proof {
        let n = page.inner.items@.len();
        assert(r.frame.items@.subrange(0, n as int) =~= page.inner.items@);
    }
    r
}

/// Finish each of `run` and append it to `pages`.
fn finish_run(pages: &mut Vec<TermPage>, tags: &mut Vec<u64>, run: Vec<LayoutedPage>)
    requires
        forall|i: int| 0 <= i < old(pages)@.len() ==> #[trigger] old(pages)@[i].number == 0,
    ensures
        final(pages)@.len() == old(pages)@.len() + run@.len(),
        forall|i: int| 0 <= i < old(pages)@.len() ==> #[trigger] final(pages)@[i] == old(pages)@[i],
        forall|i: int| 0 <= i < final(pages)@.len() ==> #[trigger] final(pages)@[i].number == 0,
        forall|j: int|
            0 <= j < run@.len() ==> stamped(
                #[trigger] final(pages)@[old(pages)@.len() + j],
                run@[j],
                if j == 0 {
                    old(tags)@.len()
                } else {
                    0
                },
            ),
        run@.len() > 0 ==> final(tags)@.len() == 0,
        run@.len() == 0 ==> final(tags)@ == old(tags)@,
{
    let ghost orig = run@;
    let ghost base = pages@.len();
    let mut run = run;
    let n = run.len();
    let mut i: usize = 0;
    while i < n
        invariant
            n == orig.len(),
            run@.len() == n,
            i <= n,
            forall|j: int| i <= j < n ==> #[trigger] run@[j] == orig[j],
            pages@.len() == base + i,
            base == old(pages)@.len(),
            forall|k: int| 0 <= k < base ==> #[trigger] pages@[k] == old(pages)@[k],
            forall|k: int| 0 <= k < pages@.len() ==> #[trigger] pages@[k].number == 0,
            forall|j: int|
                0 <= j < i ==> stamped(
                    #[trigger] pages@[base + j],
                    orig[j],
                    if j == 0 {
                        old(tags)@.len()
                    } else {
                        0
                    },
                ),
            i > 0 ==> tags@.len() == 0,
            i == 0 ==> tags@ == old(tags)@,
        decreases n - i,
    {
        let mut page = placeholder_page();
        std::mem::swap(&mut page, &mut run[i]);
        assert(page == orig[i as int]);
        let done = finish_page(tags, page);
        pages.push(done);
        i = i + 1;
    }
}



/// For the first `k` items: how many tags each finished page gets, and how
/// many are gathered and not yet given to a page.  The tags gathered go to
/// the next page finished.
pub open spec fn page_tags(items: Seq<LaidOutItem>, k: int) -> (Seq<nat>, nat)
    decreases k,
{
    if k <= 0 {
        (Seq::empty(), 0)
    } else {
        let prev = page_tags(items, k - 1);
        match items[k - 1] {
            LaidOutItem::Run(pages) => if pages@.len() == 0 {
                prev
            } else {
                (prev.0 + seq![prev.1] + Seq::new((pages@.len() - 1) as nat, |_j: int| 0nat), 0)
            },
            LaidOutItem::Parity(p, _) => if parity_matches(p, page_sources(items, k - 1).len() as int) {
                (prev.0.push(prev.1), 0)
            } else {
                prev
            },
            LaidOutItem::Tags(t) => (prev.0, prev.1 + t@.len()),
        }
    }
}

/// Lay out the document from its items once their outside work is done:
/// each run's pages and each blank page whose number has its item's parity
/// are finished in order (see [`finalize`]), with the tags gathered so far
/// going to the next page finished; then the document is finished (see
/// [`finish_document`]): the pages are numbered, and the tags still
/// gathered go to the bottom-left corner of the last page.
pub fn layout_pages(items: Vec<LaidOutItem>) -> (r: Vec<TermPage>)
    ensures
        r@.len() == page_sources(items@, items@.len() as int).len(),
        forall|i: int| 0 <= i < r@.len() ==> #[trigger] r@[i].number == i,
        forall|i: int|
            0 <= i < r@.len() ==> finished_from(#[trigger] r@[i], page_sources(items@, items@.len() as int)[i]),
        forall|i: int|
            0 <= i < r@.len() && (i < r@.len() - 1 || page_tags(items@, items@.len() as int).1 == 0)
                ==> stamped(
                #[trigger] r@[i],
                page_sources(items@, items@.len() as int)[i],
                page_tags(items@, items@.len() as int).0[i],
            ),
        r@.len() > 0 && page_tags(items@, items@.len() as int).1 > 0 ==> ({
            let src = page_sources(items@, items@.len() as int).last();
            let t = page_tags(items@, items@.len() as int).0.last();
            let left = page_tags(items@, items@.len() as int).1;
            let n = src.inner.items@.len();
            let now = r@.last().frame.items@;
            &&& now.len() == n + t + marginal_count(src) + left
            &&& are_tag_marks(now.subrange(n as int, (n + t) as int), t as int, TermPoint::zero_spec())
            &&& are_tag_marks(
                now.subrange(now.len() - left, now.len() as int),
                left as int,
                TermPoint { col: TermScalar::Finite(0), row: src.inner.size.rows },
            )
        }),
{
    let ghost orig = items@;
    let mut items = items;
    let n = items.len();
    let mut pages: Vec<TermPage> = Vec::new();
    let mut tags: Vec<u64> = Vec::new();
    let mut i: usize = 0;
    while i < n
        invariant
            n == orig.len(),
            items@.len() == n,
            i <= n,
            forall|j: int| i <= j < n ==> #[trigger] items@[j] == orig[j],
            pages@.len() == page_sources(orig, i as int).len(),
            page_tags(orig, i as int).0.len() == pages@.len(),
            tags@.len() == page_tags(orig, i as int).1,
            forall|k: int| 0 <= k < pages@.len() ==> #[trigger] pages@[k].number == 0,
            forall|k: int|
                0 <= k < pages@.len() ==> stamped(
                    #[trigger] pages@[k],
                    page_sources(orig, i as int)[k],
                    page_tags(orig, i as int).0[k],
                ),
        decreases n - i,
    {
        let ghost prev = page_sources(orig, i as int);
        let ghost prev_tags = page_tags(orig, i as int);
        let ghost before = pages@;
        let mut item = LaidOutItem::Tags(Vec::new());
        std::mem::swap(&mut item, &mut items[i]);
        assert(item == orig[i as int]);
        match item {
            LaidOutItem::Run(run) => {
                let ghost g_run = run@;
                finish_run(&mut pages, &mut tags, run);
                proof {
                    let next = page_sources(orig, i + 1);
                    let next_tags = page_tags(orig, i + 1);
                    assert(next == prev + g_run);
                    assert forall|k: int| 0 <= k < pages@.len() implies stamped(
                        #[trigger] pages@[k],
                        next[k],
                        next_tags.0[k],
                    ) by {
                        if k >= before.len() {
                            let j = k - before.len();
                            assert(pages@[before.len() + j] == pages@[k]);
                            assert(next_tags.0[k] == if j == 0 {
                                prev_tags.1
                            } else {
                                0
                            });
                        } else {
                            assert(next_tags.0[k] == prev_tags.0[k]);
                        }
                    }
                }
            },
            LaidOutItem::Parity(parity, blank) => {
                if parity.matches(pages.len()) {
                    let ghost g_blank = blank;
                    let done = finish_page(&mut tags, blank);
                    pages.push(done);
                    proof {
                        let next = page_sources(orig, i + 1);
                        let next_tags = page_tags(orig, i + 1);
                        assert(next == prev.push(g_blank));
                        assert(next_tags.0 == prev_tags.0.push(prev_tags.1));
                        assert forall|k: int| 0 <= k < pages@.len() implies stamped(
                            #[trigger] pages@[k],
                            next[k],
                            next_tags.0[k],
                        ) by {
                            if k < before.len() {
                                assert(pages@[k] == before[k]);
                            }
                        }
                    }
                }
            },
            LaidOutItem::Tags(more) => {
                let mut more = more;
                tags.append(&mut more);
            },
        }
        i = i + 1;
    }
    let ghost unfinished = pages@;
    let ghost left = tags@;
    finish_document(&mut pages, &mut tags);
    proof {
        let src = page_sources(orig, n as int);
        let counts = page_tags(orig, n as int).0;
        assert forall|k: int| 0 <= k < pages@.len() implies finished_from(#[trigger] pages@[k], src[k]) by {
            assert(stamped(unfinished[k], src[k], counts[k]));
            if k == pages@.len() - 1 && left.len() > 0 {
                let last = unfinished[k].frame.items@;
                let now = pages@[k].frame.items@;
                let m = src[k].inner.items@.len() as int;
                assert(now.subrange(0, last.len() as int) == last);
                assert(now.subrange(0, m) =~= last.subrange(0, m));
            }
        }
        if pages@.len() > 0 && left.len() > 0 {
            let k = pages@.len() - 1;
            assert(stamped(unfinished[k], src[k], counts[k]));
            let last = unfinished[k].frame.items@;
            let now = pages@[k].frame.items@;
            let m = src[k].inner.items@.len() as int;
            let t = counts[k] as int;
            assert(now.subrange(0, last.len() as int) == last);
            assert(now.subrange(m, m + t) =~= last.subrange(m, m + t));
            assert(src.last() == src[k]);
            assert(counts.last() == counts[k]);
        }
    }
    pages
}

} // verus!
