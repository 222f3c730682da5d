use blazebooru::catalog::PostCatalog;
use blazebooru::index::{PostIndex, TagFilter};
use blazebooru::models::view::PageInfo;
use blazebooru::pagination::{walk_request, Direction, PageWalk, RangeQuery};
use blazebooru::store::models::NewPost;

fn record(hash: &str) -> NewPost {
    NewPost {
        user_id: Some(1),
        title: None,
        description: None,
        source: None,
        filename: Some("picture.png".to_string()),
        size: Some(3),
        width: Some(1),
        height: Some(1),
        hash: Some(hash.to_string()),
        ext: Some("png".to_string()),
        tn_ext: Some("jpg".to_string()),
    }
}

fn names(list: &[&str]) -> Vec<String> {
    list.iter().map(|s| s.to_string()).collect()
}

fn add_posts(catalog: &mut PostCatalog, count: i32, tags: &[&str]) {
    for _ in 0..count {
        catalog
            .create_post(record("digest"), &names(tags), "ann".to_string(), 1_700_000_000)
            .unwrap();
    }
}

fn cats(count: i32) -> PostCatalog {
    let mut catalog = PostCatalog::new();
    add_posts(&mut catalog, count, &["cat"]);
    catalog
}

fn page(no: i32, start_id: i32) -> PageInfo {
    PageInfo { no, start_id }
}

fn plain_index(ids: &[i32]) -> PostIndex {
    let mut index = PostIndex::new();
    for id in ids {
        assert!(index.push(*id, vec![]));
    }
    index
}

#[test]
fn last_page_of_forty_five_cats() {
    let catalog = cats(45);
    let last = catalog.calculate_last_page(&names(&["cat"]), &names(&[]), 20).unwrap();
    assert_eq!(last, page(3, 5));
}

#[test]
fn first_pages_of_forty_five_cats() {
    let catalog = cats(45);
    let pages = catalog.calculate_pages(&names(&["cat"]), &names(&[]), 20, 100, None).unwrap();
    assert_eq!(pages, vec![page(1, 45), page(2, 25), page(3, 5)]);
}

#[test]
fn walk_over_everything_ends_at_the_last_page() {
    for total in 1..60 {
        let catalog = cats(total);
        for size in 1..8 {
            let pages = catalog.calculate_pages(&names(&["cat"]), &names(&[]), size, 100, None).unwrap();
            let last = catalog.calculate_last_page(&names(&["cat"]), &names(&[]), size).unwrap();
            assert!(pages.len() < 100);
            assert_eq!(pages.len() as i32, (total + size - 1) / size);
            assert_eq!(*pages.last().unwrap(), last);
        }
    }
}

#[test]
fn walk_that_is_cut_short_returns_what_was_asked() {
    // 199 posts fill 100 pages of two: a request for 100 pages gets all 100.
    let catalog = cats(199);
    let pages = catalog.calculate_pages(&names(&["cat"]), &names(&[]), 2, 100, None).unwrap();
    assert_eq!(pages.len(), 100);
    assert_eq!(pages[99], page(100, 1));
    let fewer = catalog.calculate_pages(&names(&["cat"]), &names(&[]), 2, 99, None).unwrap();
    assert_eq!(fewer.len(), 99);
    assert_eq!(fewer[98], page(99, 3));
}

#[test]
fn pages_that_are_exactly_full() {
    let catalog = cats(40);
    let pages = catalog.calculate_pages(&names(&["cat"]), &names(&[]), 20, 5, None).unwrap();
    assert_eq!(pages, vec![page(1, 40), page(2, 20)]);
    let last = catalog.calculate_last_page(&names(&["cat"]), &names(&[]), 20).unwrap();
    assert_eq!(last, page(2, 20));
}

#[test]
fn anchored_walk_is_not_moved_by_new_posts() {
    let mut catalog = cats(45);
    let size = 10;
    let first = catalog.calculate_pages(&names(&["cat"]), &names(&[]), size, 3, None).unwrap();
    assert_eq!(first, vec![page(1, 45), page(2, 35), page(3, 25)]);
    let direct = catalog.calculate_pages(&names(&["cat"]), &names(&[]), size, 4, None).unwrap();
    assert_eq!(direct[3], page(4, 15));
    add_posts(&mut catalog, 5, &["cat"]);
    let anchor = first[2];
    let next = catalog.calculate_pages(&names(&["cat"]), &names(&[]), size, 1, Some(anchor)).unwrap();
    assert_eq!(next, vec![direct[3]]);
    // A walk from the head sees the new posts.
    let moved = catalog.calculate_pages(&names(&["cat"]), &names(&[]), size, 2, None).unwrap();
    assert_eq!(moved, vec![page(1, 50), page(2, 40)]);
}

#[test]
fn anchored_walk_continues_the_unanchored_one() {
    let catalog = cats(37);
    for size in 1..6 {
        let all = catalog.calculate_pages(&names(&["cat"]), &names(&[]), size, 100, None).unwrap();
        for m in 1..all.len() {
            let rest = catalog
                .calculate_pages(&names(&["cat"]), &names(&[]), size, 100, Some(all[m - 1]))
                .unwrap();
            assert_eq!(rest, all[m..].to_vec());
        }
    }
}

#[test]
fn walk_towards_newer_posts() {
    let catalog = cats(45);
    let last = page(3, 5);
    let back = catalog.calculate_pages(&names(&["cat"]), &names(&[]), 20, -5, Some(last)).unwrap();
    assert_eq!(back, vec![page(2, 25), page(1, 45)]);
    let one = catalog.calculate_pages(&names(&["cat"]), &names(&[]), 20, -1, Some(last)).unwrap();
    assert_eq!(one, vec![page(2, 25)]);
}

#[test]
fn walk_towards_newer_posts_goes_past_page_one() {
    let mut catalog = cats(10);
    let head = catalog.calculate_pages(&names(&["cat"]), &names(&[]), 5, 1, None).unwrap();
    assert_eq!(head, vec![page(1, 10)]);
    add_posts(&mut catalog, 12, &["cat"]);
    let newer = catalog.calculate_pages(&names(&["cat"]), &names(&[]), 5, -10, Some(head[0])).unwrap();
    assert_eq!(newer, vec![page(0, 15), page(-1, 20)]);
}

#[test]
fn walk_towards_newer_posts_needs_an_origin() {
    let catalog = cats(45);
    let pages = catalog.calculate_pages(&names(&["cat"]), &names(&[]), 20, -3, None).unwrap();
    assert_eq!(pages, vec![]);
}

#[test]
fn origin_that_is_no_matching_post() {
    let mut catalog = PostCatalog::new();
    // Posts 1..=10; the even ones are cats.
    for i in 1..=10 {
        let tags: &[&str] = if i % 2 == 0 { &["cat"] } else { &["dog"] };
        add_posts(&mut catalog, 1, tags);
    }
    // Page `7` holds cats 6 and 4; the page behind starts at 2, the page in
    // front holds 8 and 10 and starts at 10.
    let origin = page(7, 7);
    let older = catalog.calculate_pages(&names(&["cat"]), &names(&[]), 2, 5, Some(origin)).unwrap();
    assert_eq!(older, vec![page(8, 2)]);
    let newer = catalog.calculate_pages(&names(&["cat"]), &names(&[]), 2, -5, Some(origin)).unwrap();
    assert_eq!(newer, vec![page(6, 10)]);
}

#[test]
fn nothing_matches() {
    let mut catalog = cats(3);
    catalog.create_post(record("d"), &names(&["dog"]), "ann".to_string(), 0).unwrap();
    let required = names(&["cat", "dog"]);
    let pages = catalog.calculate_pages(&required, &names(&[]), 20, 3, None).unwrap();
    assert_eq!(pages, vec![]);
    let last = catalog.calculate_last_page(&required, &names(&[]), 20).unwrap();
    assert_eq!(last, PageInfo::none());
    assert!(last.is_none());
    assert!(!page(1, 1).is_none());
}

#[test]
fn page_size_that_is_not_positive() {
    let catalog = cats(5);
    for size in [0, -1, i32::MIN] {
        assert_eq!(catalog.calculate_pages(&names(&[]), &names(&[]), size, 3, None).unwrap(), vec![]);
        assert_eq!(catalog.calculate_last_page(&names(&[]), &names(&[]), size).unwrap(), PageInfo::none());
    }
}

#[test]
fn no_pages_asked_for() {
    let catalog = cats(5);
    assert_eq!(catalog.calculate_pages(&names(&[]), &names(&[]), 2, 0, None).unwrap(), vec![]);
    assert_eq!(catalog.calculate_pages(&names(&[]), &names(&[]), 2, 0, Some(page(1, 5))).unwrap(), vec![]);
}

#[test]
fn page_numbers_do_not_run_over() {
    let index = plain_index(&[1, 2, 3, 4, 5, 6]);
    let filter = TagFilter::everything();
    let top = page(i32::MAX - 1, 6);
    assert_eq!(index.calculate_pages(&filter, 2, 5, Some(top)), vec![page(i32::MAX, 4)]);
    let bottom = page(i32::MIN + 1, 2);
    assert_eq!(index.calculate_pages(&filter, 2, -5, Some(bottom)), vec![page(i32::MIN, 4)]);
    assert_eq!(index.calculate_pages(&filter, 2, i32::MIN, Some(page(2, 2))), vec![page(1, 4), page(0, 6)]);
}

#[test]
fn index_without_posts_has_no_pages() {
    let index = PostIndex::new();
    let filter = TagFilter::everything();
    assert_eq!(index.calculate_pages(&filter, 20, 3, None), vec![]);
    assert_eq!(index.calculate_last_page(&filter, 20), PageInfo::none());
    assert_eq!(index.len(), 0);
    assert_eq!(index.newest_id(), None);
}

#[test]
fn index_takes_growing_identifiers_only() {
    let mut index = PostIndex::new();
    assert!(!index.push(0, vec![]));
    assert!(!index.push(-4, vec![]));
    assert!(index.push(3, vec![7]));
    assert!(!index.push(3, vec![]));
    assert!(!index.push(2, vec![]));
    assert!(index.push(9, vec![7, 8]));
    assert_eq!(index.len(), 2);
    assert_eq!(index.newest_id(), Some(9));
    assert_eq!(index.tags_of(9), Some(&vec![7, 8]));
    assert_eq!(index.tags_of(4), None);
    assert_eq!(index.entry_at(0).id, 3);
    assert!(index.set_tags(3, vec![1]));
    assert!(!index.set_tags(5, vec![1]));
    assert_eq!(index.tags_of(3), Some(&vec![1]));
}

#[test]
fn range_questions() {
    let mut index = PostIndex::new();
    for id in 1..=10 {
        index.push(id, if id % 2 == 0 { vec![0] } else { vec![1] });
    }
    let even = TagFilter { required: vec![0], forbidden: vec![] };
    let not_even = TagFilter { required: vec![], forbidden: vec![0] };
    assert_eq!(index.count_within(&even, 1, 10), 5);
    assert_eq!(index.count_within(&even, 3, 8), 3);
    assert_eq!(index.count_within(&not_even, 3, 8), 3);
    assert_eq!(index.count_within(&even, 8, 3), 0);
    assert_eq!(index.select_within(&even, 1, 10, 0), Some(2));
    assert_eq!(index.select_within(&even, 1, 10, 4), Some(10));
    assert_eq!(index.select_within(&even, 1, 10, 5), None);
    assert_eq!(index.select_within(&even, 5, 10, 0), Some(6));
    assert_eq!(index.nth_older(&even, 7, 0), Some(6));
    assert_eq!(index.nth_older(&even, 6, 0), Some(6));
    assert_eq!(index.nth_older(&even, 6, 2), Some(2));
    assert_eq!(index.nth_older(&even, 6, 3), None);
    assert_eq!(index.nth_newer(&even, 6, 0), Some(8));
    assert_eq!(index.nth_newer(&even, 6, 1), Some(10));
    assert_eq!(index.nth_newer(&even, 6, 2), None);
    assert_eq!(index.nth_newer(&even, i32::MAX, 0), None);
    let question = RangeQuery { direction: Direction::Older, bound: 9, skip: 1 };
    assert_eq!(index.answer(&not_even, &question), Some(7));
    let question = RangeQuery { direction: Direction::Newer, bound: 9, skip: 0 };
    assert_eq!(index.answer(&not_even, &question), None);
}

#[test]
fn filter_asks_for_all_required_and_no_forbidden_tag() {
    let filter = TagFilter { required: vec![1, 2], forbidden: vec![3] };
    assert!(filter.admits_tags(&vec![2, 1]));
    assert!(filter.admits_tags(&vec![1, 2, 4]));
    assert!(!filter.admits_tags(&vec![1]));
    assert!(!filter.admits_tags(&vec![1, 2, 3]));
    assert!(TagFilter::everything().admits_tags(&vec![]));
    assert!(blazebooru::index::has_tag(&vec![4, 5], 5));
    assert!(!blazebooru::index::has_tag(&vec![4, 5], 6));
}

#[test]
fn walk_step_by_step() {
    let index = plain_index(&[1, 2, 3, 4, 5, 6, 7]);
    let filter = TagFilter::everything();
    let mut walk = PageWalk::start(3, 5, None);
    let q = walk.next_query().unwrap();
    assert_eq!(q, RangeQuery { direction: Direction::Older, bound: i32::MAX, skip: 0 });
    walk.advance(index.answer(&filter, &q));
    assert_eq!(walk.pages(), &vec![page(1, 7)]);
    let q = walk.next_query().unwrap();
    assert_eq!(q, RangeQuery { direction: Direction::Older, bound: 7, skip: 3 });
    walk.advance(index.answer(&filter, &q));
    let q = walk.next_query().unwrap();
    assert_eq!(q, RangeQuery { direction: Direction::Older, bound: 4, skip: 3 });
    walk.advance(index.answer(&filter, &q));
    let q = walk.next_query().unwrap();
    assert_eq!(q, RangeQuery { direction: Direction::Older, bound: 1, skip: 3 });
    walk.advance(None);
    assert_eq!(walk.next_query(), None);
    // A walk that has ended stays as it is.
    walk.advance(Some(99));
    assert_eq!(walk.finish(), vec![page(1, 7), page(2, 4), page(3, 1)]);
}

#[test]
fn walk_stops_when_it_has_what_was_asked() {
    let index = plain_index(&[1, 2, 3, 4, 5, 6, 7]);
    let filter = TagFilter::everything();
    let walk = PageWalk::start(2, 2, Some(page(4, 6)));
    assert_eq!(index.complete(&filter, walk), vec![page(5, 4), page(6, 2)]);
    let walk = PageWalk::start(2, -2, Some(page(4, 2)));
    assert_eq!(
        walk.next_query(),
        Some(RangeQuery { direction: Direction::Newer, bound: 2, skip: 1 })
    );
    assert_eq!(index.complete(&filter, walk), vec![page(3, 4), page(2, 6)]);
}

#[test]
fn direction_and_number_of_pages_asked_for() {
    assert_eq!(walk_request(3), (Direction::Older, 3));
    assert_eq!(walk_request(0), (Direction::Older, 0));
    assert_eq!(walk_request(-3), (Direction::Newer, 3));
    assert_eq!(walk_request(i32::MAX), (Direction::Older, i32::MAX));
    assert_eq!(walk_request(i32::MIN), (Direction::Newer, i32::MAX));
}

#[test]
fn walk_that_has_nothing_to_ask() {
    assert_eq!(PageWalk::start(0, 3, None).next_query(), None);
    assert_eq!(PageWalk::start(2, 0, None).next_query(), None);
    assert_eq!(PageWalk::start(2, -1, None).next_query(), None);
    assert_eq!(PageWalk::start(2, 1, Some(page(i32::MAX, 5))).next_query(), None);
    assert_eq!(PageWalk::start(2, -1, Some(page(i32::MIN, 5))).next_query(), None);
    assert_eq!(PageWalk::start(2, 1, None).finish(), vec![]);
}
