use lynchpin::frame::{TermFrame, TermFrameItem};
use lynchpin::geom::{TermPoint, TermSize};
use lynchpin::pages::{finalize, finish_document, first_or_blank, layout_pages, LaidOutItem, LayoutedPage, Parity, TermPage};
use lynchpin::scalar::{points, TermScalar};
use lynchpin::style::TermStyle;

fn s(v: i32) -> TermScalar {
    TermScalar::new(v)
}

fn frame(c: i32, r: i32) -> TermFrame {
    TermFrame::new(TermSize::new(s(c), s(r)))
}

fn is_empty_text(item: &TermFrameItem) -> bool {
    matches!(item, TermFrameItem::Text(t, _) if t.is_empty())
}

#[test]
fn parity_of_page_numbers() {
    assert!(Parity::Even.matches(0));
    assert!(!Parity::Even.matches(3));
    assert!(Parity::Odd.matches(3));
    assert!(!Parity::Odd.matches(4));
}

#[test]
fn finalize_places_tags_and_marginals() {
    let inner = TermFrame::text("x".to_string(), TermStyle::plain(), s(10), s(3));
    let page = LayoutedPage {
        inner,
        header: Some(frame(10, 1)),
        footer: Some(frame(10, 2)),
        background: None,
        foreground: Some(frame(1, 1)),
    };
    let mut tags = vec![1, 2];
    let done = finalize(&mut tags, page);
    assert!(tags.is_empty());
    assert_eq!(done.number, 0);
    let items = done.frame.items();
    assert_eq!(items.len(), 6);
    assert!(is_empty_text(&items[1].1) && is_empty_text(&items[2].1));
    assert_eq!(items[1].0, TermPoint::zero());
    assert_eq!(items[3].0, TermPoint::new(s(0), s(3)));
    assert_eq!(items[4].0, TermPoint::new(s(0), s(3)));
    assert_eq!(items[5].0, TermPoint::zero());
    assert_eq!(done.frame.size(), TermSize::new(s(10), s(3)));
}

#[test]
fn finishing_numbers_pages_and_places_left_over_tags() {
    let mut pages = vec![
        TermPage { frame: frame(5, 2), number: 0 },
        TermPage { frame: frame(5, 2), number: 0 },
        TermPage { frame: frame(5, 4), number: 0 },
    ];
    let mut tags = vec![9];
    finish_document(&mut pages, &mut tags);
    assert!(tags.is_empty());
    assert_eq!(pages.iter().map(|p| p.number).collect::<Vec<_>>(), vec![0, 1, 2]);
    assert_eq!(pages[2].frame.items().len(), 1);
    assert_eq!(pages[2].frame.items()[0].0, TermPoint::new(s(0), s(4)));
    assert!(pages[0].frame.items().is_empty());

    let mut none: Vec<TermPage> = vec![];
    let mut tags = vec![1, 2];
    finish_document(&mut none, &mut tags);
    assert_eq!(tags, vec![1, 2]);
}

#[test]
fn first_page_or_a_blank_one() {
    let blank = first_or_blank(vec![]);
    assert_eq!(blank.inner.size(), TermSize::zero());
    assert!(blank.header.is_none());
    let first = first_or_blank(vec![LayoutedPage::bare(frame(3, 3)), LayoutedPage::bare(frame(4, 4))]);
    assert_eq!(first.inner.size(), TermSize::new(s(3), s(3)));
}

#[test]
fn track_points_are_running_sums() {
    assert_eq!(points(&vec![s(2), s(3), s(4)]), vec![s(0), s(2), s(5), s(9)]);
    assert_eq!(points(&vec![]), vec![s(0)]);
}

use lynchpin::pages::{collect, migrate_unterminated_tags, try_collect, PageChild, Item};

fn other() -> PageChild {
    PageChild::Other
}

fn brk() -> PageChild {
    PageChild::Pagebreak { weak: false, parity: None, boundary: false }
}

fn start_tag(location: u64) -> PageChild {
    PageChild::Tag { end: false, location }
}

fn end_tag(location: u64) -> PageChild {
    PageChild::Tag { end: true, location }
}

fn numbered(kinds: Vec<PageChild>) -> Vec<(PageChild, usize)> {
    kinds.into_iter().enumerate().map(|(i, k)| (k, i)).collect()
}

fn order(children: &[(PageChild, usize)]) -> Vec<usize> {
    children.iter().map(|c| c.1).collect()
}

#[test]
fn migrating_moves_open_tags_past_breaks() {
    let mut c = numbered(vec![other(), start_tag(1), end_tag(1), start_tag(2), brk(), brk(), other()]);
    let end = migrate_unterminated_tags(&mut c, 0, 4);
    assert_eq!(end, 3);
    assert_eq!(order(&c), vec![0, 1, 2, 4, 5, 3, 6]);
}

#[test]
fn collecting_plain_content_and_breaks() {
    let mut c = numbered(vec![other(), other()]);
    assert_eq!(collect(&mut c), vec![Item::Run { start: 0, end: 2, styles: Some(0), key: Some(0) }]);

    let mut c: Vec<(PageChild, usize)> = vec![];
    assert_eq!(collect(&mut c), vec![Item::Run { start: 0, end: 0, styles: None, key: None }]);

    let mut c = numbered(vec![other(), brk(), other()]);
    assert_eq!(
        collect(&mut c),
        vec![
            Item::Run { start: 0, end: 1, styles: Some(0), key: Some(0) },
            Item::Run { start: 2, end: 3, styles: Some(2), key: Some(2) },
        ]
    );
}

#[test]
fn collecting_a_leading_break_with_parity() {
    let pb = PageChild::Pagebreak { weak: false, parity: Some(Parity::Odd), boundary: false };
    let mut c = numbered(vec![pb, other()]);
    assert_eq!(
        collect(&mut c),
        vec![
            Item::Run { start: 0, end: 0, styles: None, key: Some(0) },
            Item::Parity { parity: Parity::Odd, child: 0 },
            Item::Run { start: 1, end: 2, styles: Some(1), key: Some(1) },
        ]
    );
}

#[test]
fn collecting_migrates_open_tags_to_the_next_page() {
    let mut c = numbered(vec![other(), start_tag(7), brk(), other()]);
    let items = collect(&mut c);
    assert_eq!(order(&c), vec![0, 2, 1, 3]);
    assert_eq!(
        items,
        vec![
            Item::Run { start: 0, end: 1, styles: Some(0), key: Some(0) },
            Item::Run { start: 2, end: 4, styles: Some(1), key: Some(1) },
        ]
    );
}

#[test]
fn collecting_keeps_lone_tags_between_pages() {
    let mut c = numbered(vec![end_tag(5), brk(), other()]);
    assert_eq!(
        collect(&mut c),
        vec![
            Item::Tags { start: 0, end: 1 },
            Item::Run { start: 1, end: 1, styles: None, key: Some(1) },
            Item::Run { start: 2, end: 3, styles: Some(2), key: Some(2) },
        ]
    );
}

#[test]
fn collecting_open_tags_at_the_end_never_ends() {
    let mut c = numbered(vec![other(), start_tag(1)]);
    assert!(try_collect(&mut c).is_none());
}

#[test]
fn pages_are_laid_out_in_order_with_parity_blanks() {
    let items = vec![
        LaidOutItem::Tags(vec![7]),
        LaidOutItem::Run(vec![LayoutedPage::bare(frame(10, 2)), LayoutedPage::bare(frame(10, 3))]),
        // Two pages are done, so the next page is number 2: even.
        LaidOutItem::Parity(Parity::Odd, LayoutedPage::bare(frame(1, 1))),
        LaidOutItem::Parity(Parity::Even, LayoutedPage::bare(frame(4, 4))),
        LaidOutItem::Run(vec![LayoutedPage::bare(frame(10, 5))]),
        LaidOutItem::Tags(vec![8, 9]),
    ];
    let pages = layout_pages(items);
    assert_eq!(pages.len(), 4);
    let sizes: Vec<TermSize> = pages.iter().map(|p| p.frame.size()).collect();
    assert_eq!(sizes, vec![TermSize::new(s(10), s(2)), TermSize::new(s(10), s(3)), TermSize::new(s(4), s(4)), TermSize::new(s(10), s(5))]);
    let numbers: Vec<usize> = pages.iter().map(|p| p.number).collect();
    assert_eq!(numbers, vec![0, 1, 2, 3]);
    // The first tag lands on the first page, the last two at the end.
    assert_eq!(pages[0].frame.items().len(), 1);
    assert_eq!(pages[0].frame.items()[0].0, TermPoint::new(s(0), s(0)));
    assert_eq!(pages[1].frame.items().len(), 0);
    assert_eq!(pages[3].frame.items().len(), 2);
    assert_eq!(pages[3].frame.items()[1].0, TermPoint::new(s(0), s(5)));
    assert!(is_empty_text(&pages[3].frame.items()[1].1));
}

#[test]
fn no_items_give_no_pages() {
    assert!(layout_pages(vec![LaidOutItem::Tags(vec![1])]).is_empty());
}
