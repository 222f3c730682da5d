//! Why a walk finds the boundaries it owes, and what follows for callers:
//! the listing calls of an index, the stability of boundaries behind an
//! anchor, and where a walk over the whole listing ends.

use vstd::prelude::*;
use vstd::arithmetic::div_mod::{
    lemma_div_plus_one, lemma_fundamental_div_mod, lemma_hoist_over_denominator, lemma_mod_bound,
};
use crate::index::{
    FilterModel, PostEntry, PostIndex, TagFilter, ids_after, ids_all, ids_up_to, lemma_ids_within_bounds,
    lemma_ids_within_grows, lemma_ids_within_ignores_newer, lemma_ids_within_increasing,
    lemma_ids_within_split, lemma_ordered_len, ordered,
};
use crate::models::view::PageInfo;
use crate::pagination::{
    Direction, PageWalk, RangeQuery, WalkState, answer_of, head_pages, last_page_of, least,
    newer_pages, older_pages, page_total, pages_of, run,
};

verus! {

proof fn lemma_mul_next(j: int, size: int)
    ensures
        (j + 1) * size == j * size + size,
        0 * size == 0,
{
    assert((j + 1) * size == j * size + size) by (nonlinear_arith);
    assert(0 * size == 0) by (nonlinear_arith);
}

proof fn lemma_mul_ordered(j: int, k: int, size: int)
    requires
        j <= k,
        0 <= size,
    ensures
        j * size <= k * size,
{
    assert(j * size <= k * size) by (nonlinear_arith)
        requires
            j <= k,
            0 <= size,
    ;
}

/// A quotient times the divisor stays at or below the dividend, and the next
/// multiple lies above it.
proof fn lemma_quotient_bounds(a: int, d: int)
    requires
        0 <= a,
        0 < d,
    ensures
        0 <= a / d,
        (a / d) * d <= a < (a / d + 1) * d,
{
    lemma_fundamental_div_mod(a, d);
    lemma_mod_bound(a, d);
    let q = a / d;
    let r = a % d;
    assert(q * d == d * q) by (nonlinear_arith);
    assert((q + 1) * d == q * d + d) by (nonlinear_arith);
    assert(0 <= q) by (nonlinear_arith)
        requires
            a == d * q + r,
            0 <= r < d,
            0 <= a,
            0 < d,
    ;
}

/// Filling pages with at least one post takes one page more than the posts
/// before the last one fill completely.
proof fn lemma_page_total(n: int, size: int)
    requires
        0 <= n,
        0 < size,
    ensures
        n == 0 ==> page_total(n, size) == 0,
        n > 0 ==> page_total(n, size) == (n - 1) / size + 1,
        0 <= page_total(n, size) <= n,
{
    if n == 0 {
        lemma_quotient_bounds(size - 1, size);
        let q = (size - 1) / size;
        assert(q == 0) by (nonlinear_arith)
            requires
                q * size <= size - 1,
                0 <= q,
                0 < size,
        ;
    } else {
        lemma_div_plus_one(n - 1, size);
        assert(size + (n - 1) == n + size - 1);
        lemma_quotient_bounds(n - 1, size);
        let q = (n - 1) / size;
        assert(q <= n - 1) by (nonlinear_arith)
            requires
                q * size <= n - 1,
                0 <= q,
                0 < size,
        ;
    }
}

/// The state of a walk towards older posts that has found the first `j`
/// boundaries behind `origin`, with `base` found before them.
spec fn older_state(
    ids: Seq<int>,
    size: int,
    count: int,
    origin: PageInfo,
    base: Seq<PageInfo>,
    j: int,
) -> WalkState {
    let full = older_pages(ids, size, count, origin.no as int);
    WalkState {
        size,
        remaining: count - j,
        direction: Direction::Older,
        cursor: Some(if j == 0 { origin } else { full[j - 1] }),
        pages: base + full.take(j),
        open: true,
    }
}

proof fn lemma_walk_older(
    posts: Seq<PostEntry>,
    filter: FilterModel,
    size: int,
    count: int,
    origin: PageInfo,
    base: Seq<PageInfo>,
    j: int,
)
    requires
        ordered(posts),
        0 < size <= i32::MAX,
        0 <= count,
        0 <= j <= older_pages(ids_up_to(posts, filter, origin.start_id as int), size, count, origin.no as int).len(),
    ensures
        run(
            older_state(ids_up_to(posts, filter, origin.start_id as int), size, count, origin, base, j),
            posts,
            filter,
        ) == base + older_pages(
            ids_up_to(posts, filter, origin.start_id as int),
            size,
            count,
            origin.no as int,
        ),
    decreases older_pages(ids_up_to(posts, filter, origin.start_id as int), size, count, origin.no as int).len()
        - j,
{
    let ids = ids_up_to(posts, filter, origin.start_id as int);
    let n = ids.len() as int;
    let full = older_pages(ids, size, count, origin.no as int);
    let len = full.len() as int;
    let reach = if n == 0 { 0 } else { (n - 1) / size };
    let state = older_state(ids, size, count, origin, base, j);
    let cursor = state.cursor.unwrap();
    lemma_ids_within_increasing(posts, filter, i32::MIN as int, origin.start_id as int);
    if n > 0 {
        lemma_quotient_bounds(n - 1, size);
    }
    assert(len == least(count, reach, i32::MAX - origin.no));
    lemma_mul_next(j, size);
    lemma_mul_ordered(j, reach, size);
    // The posts at or below the cursor are the first `n - j * size` of `ids`.
    let below = ids_up_to(posts, filter, cursor.start_id as int);
    if j > 0 {
        let x = n - 1 - j * size;
        assert(0 <= x < n);
        assert(full[j - 1].start_id == ids[x] as i32);
        assert(cursor.start_id == ids[x]);
        assert(cursor.no == origin.no + j);
        lemma_ids_within_split(posts, filter, i32::MIN as int, origin.start_id as int, x);
        assert(below == ids.take(x + 1));
    }
    assert(below.len() == n - j * size);
    assert(cursor.no == origin.no + j);
    if j < len {
        lemma_mul_ordered(j + 1, reach, size);
        let q = state.query().unwrap();
        assert(q == RangeQuery { direction: Direction::Older, bound: cursor.start_id, skip: size as usize });
        let answer = answer_of(posts, filter, q);
        let target = n - 1 - (j + 1) * size;
        assert(0 <= target < below.len());
        assert(below[below.len() - 1 - size] == ids[target]);
        assert(answer == Some(ids[target] as i32));
        let next = state.step(answer);
        assert(full[j] == PageInfo { no: (origin.no + j + 1) as i32, start_id: ids[target] as i32 });
        assert(next.pages =~= base + full.take(j + 1)) by {
            assert(full.take(j + 1) =~= full.take(j).push(full[j]));
        }
        assert(next == older_state(ids, size, count, origin, base, j + 1));
        lemma_walk_older(posts, filter, size, count, origin, base, j + 1);
    } else {
        assert(full.take(j) =~= full);
        if state.query() is Some {
            let q = state.query().unwrap();
            assert(len == reach);
            assert(below.len() <= size);
            let answer = answer_of(posts, filter, q);
            assert(answer is None);
            let next = state.step(answer);
            assert(next.query() is None);
            assert(run(next, posts, filter) == next.pages);
        }
    }
}

/// The state of a walk towards newer posts that has found the first `j`
/// boundaries in front of `origin`.
spec fn newer_state(ids: Seq<int>, size: int, count: int, origin: PageInfo, j: int) -> WalkState {
    let full = newer_pages(ids, size, count, origin.no as int);
    WalkState {
        size,
        remaining: count - j,
        direction: Direction::Newer,
        cursor: Some(if j == 0 { origin } else { full[j - 1] }),
        pages: full.take(j),
        open: true,
    }
}

proof fn lemma_walk_newer(
    posts: Seq<PostEntry>,
    filter: FilterModel,
    size: int,
    count: int,
    origin: PageInfo,
    j: int,
)
    requires
        ordered(posts),
        0 < size <= i32::MAX,
        0 <= count,
        0 <= j <= newer_pages(ids_after(posts, filter, origin.start_id as int), size, count, origin.no as int).len(),
    ensures
        run(newer_state(ids_after(posts, filter, origin.start_id as int), size, count, origin, j), posts, filter)
            == newer_pages(ids_after(posts, filter, origin.start_id as int), size, count, origin.no as int),
    decreases newer_pages(ids_after(posts, filter, origin.start_id as int), size, count, origin.no as int).len()
        - j,
{
    let ids = ids_after(posts, filter, origin.start_id as int);
    let n = ids.len() as int;
    let full = newer_pages(ids, size, count, origin.no as int);
    let len = full.len() as int;
    let reach = n / size;
    let state = newer_state(ids, size, count, origin, j);
    let cursor = state.cursor.unwrap();
    lemma_ids_within_increasing(posts, filter, origin.start_id + 1, i32::MAX as int);
    lemma_quotient_bounds(n, size);
    assert(len == least(count, reach, origin.no - i32::MIN));
    lemma_mul_next(j, size);
    lemma_mul_ordered(j, reach, size);
    // The posts above the cursor are `ids` without its first `j * size`.
    let above = ids_after(posts, filter, cursor.start_id as int);
    if j > 0 {
        let x = j * size - 1;
        lemma_mul_ordered(1, j, size);
        assert(0 <= x < n);
        assert(full[j - 1].start_id == ids[x] as i32);
        assert(cursor.start_id == ids[x]);
        assert(cursor.no == origin.no - j);
        lemma_ids_within_split(posts, filter, origin.start_id + 1, i32::MAX as int, x);
        assert(above == ids.skip(x + 1));
    }
    assert(above.len() == n - j * size);
    assert(cursor.no == origin.no - j);
    if j < len {
        lemma_mul_ordered(j + 1, reach, size);
        let q = state.query().unwrap();
        assert(q == RangeQuery {
            direction: Direction::Newer,
            bound: cursor.start_id,
            skip: (size - 1) as usize,
        });
        let answer = answer_of(posts, filter, q);
        let target = (j + 1) * size - 1;
        assert(0 <= target < n);
        assert(above[size - 1] == ids[target]);
        assert(answer == Some(ids[target] as i32));
        let next = state.step(answer);
        assert(full[j] == PageInfo { no: (origin.no - j - 1) as i32, start_id: ids[target] as i32 });
        assert(next.pages =~= full.take(j + 1)) by {
            assert(full.take(j + 1) =~= full.take(j).push(full[j]));
        }
        assert(next == newer_state(ids, size, count, origin, j + 1));
        lemma_walk_newer(posts, filter, size, count, origin, j + 1);
    } else {
        assert(full.take(j) =~= full);
        if state.query() is Some {
            let q = state.query().unwrap();
            assert(len == reach);
            assert(above.len() < size);
            let answer = answer_of(posts, filter, q);
            assert(answer is None);
            let next = state.step(answer);
            assert(next.query() is None);
            assert(run(next, posts, filter) == next.pages);
        }
    }
}

/// The first pages of the listing are page 1 and the pages behind it.
proof fn lemma_head_is_first_then_older(ids: Seq<int>, size: int, count: int)
    requires
        0 < size,
        0 < count,
        0 < ids.len() <= i32::MAX,
    ensures
        head_pages(ids, size, count) == seq![PageInfo { no: 1, start_id: ids.last() as i32 }] + older_pages(
            ids,
            size,
            count - 1,
            1,
        ),
{
    let n = ids.len() as int;
    lemma_page_total(n, size);
    lemma_quotient_bounds(n - 1, size);
    let head = head_pages(ids, size, count);
    let rest = older_pages(ids, size, count - 1, 1);
    let first = PageInfo { no: 1, start_id: ids.last() as i32 };
    assert(head.len() == rest.len() + 1);
    assert forall|i: int| 0 <= i < head.len() implies head[i] == (seq![first] + rest)[i] by {
        lemma_mul_next(i - 1, size);
        lemma_mul_next(0, size);
        if i > 0 {
            assert((seq![first] + rest)[i] == rest[i - 1]);
        }
    }
    assert(head =~= seq![first] + rest);
}

/// A walk that a store answers from `posts` ends with exactly the
/// boundaries that `pages_of` describes.
pub proof fn lemma_walk_yields_pages(
    posts: Seq<PostEntry>,
    filter: FilterModel,
    size: i32,
    count: i32,
    origin: Option<PageInfo>,
)
    requires
        ordered(posts),
    ensures
        run(WalkState::start(size as int, count as int, origin), posts, filter) == pages_of(
            posts,
            filter,
            size as int,
            count as int,
            origin,
        ),
{
    let start = WalkState::start(size as int, count as int, origin);
    if size <= 0 || count == 0 {
        assert(start.query() is None);
    } else {
        match origin {
            None => {
                if count > 0 {
                    let ids = ids_all(posts, filter);
                    let n = ids.len() as int;
                    lemma_ids_within_bounds(posts, filter, i32::MIN as int, i32::MAX as int);
                    lemma_ids_within_increasing(posts, filter, i32::MIN as int, i32::MAX as int);
                    lemma_ordered_len(posts);
                    lemma_page_total(n, size as int);
                    let q = start.query().unwrap();
                    let answer = answer_of(posts, filter, q);
                    assert(ids_up_to(posts, filter, i32::MAX as int) == ids);
                    let next = start.step(answer);
                    if n == 0 {
                        assert(answer is None);
                        assert(next.query() is None);
                        assert(run(next, posts, filter) == next.pages);
                        assert(head_pages(ids, size as int, count as int) =~= Seq::<PageInfo>::empty());
                    } else {
                        let first = PageInfo { no: 1, start_id: ids.last() as i32 };
                        assert(answer == Some(ids[n - 1] as i32));
                        lemma_ids_within_split(posts, filter, i32::MIN as int, i32::MAX as int, n - 1);
                        assert(ids.take(n) =~= ids);
                        assert(ids_up_to(posts, filter, first.start_id as int) == ids);
                        let base = seq![first];
                        assert(next.pages =~= base + older_pages(ids, size as int, count - 1, 1).take(0));
                        assert(next == older_state(ids, size as int, count - 1, first, base, 0));
                        lemma_walk_older(posts, filter, size as int, count - 1, first, base, 0);
                        lemma_head_is_first_then_older(ids, size as int, count as int);
                    }
                } else {
                    assert(start.query() is None);
                }
            },
            Some(o) => {
                if count > 0 {
                    let ids = ids_up_to(posts, filter, o.start_id as int);
                    let base = Seq::<PageInfo>::empty();
                    assert(start.pages =~= base + older_pages(ids, size as int, count as int, o.no as int).take(0));
                    assert(start == older_state(ids, size as int, count as int, o, base, 0));
                    lemma_walk_older(posts, filter, size as int, count as int, o, base, 0);
                    assert(base + older_pages(ids, size as int, count as int, o.no as int) =~= older_pages(
                        ids,
                        size as int,
                        count as int,
                        o.no as int,
                    ));
                } else {
                    let ids = ids_after(posts, filter, o.start_id as int);
                    assert(start.pages =~= newer_pages(ids, size as int, -count, o.no as int).take(0));
                    assert(start == newer_state(ids, size as int, -count, o, 0));
                    lemma_walk_newer(posts, filter, size as int, -count, o, 0);
                }
            },
        }
    }
}

/// Posts that arrive after a boundary was handed out do not move the
/// boundaries behind it: a walk towards older posts from `origin` finds the
/// same pages whether or not posts newer than `origin` have been added since.
pub proof fn law_anchor_stability(
    posts: Seq<PostEntry>,
    later: Seq<PostEntry>,
    filter: FilterModel,
    size: int,
    count: int,
    origin: PageInfo,
)
    requires
        0 < count,
        forall|i: int| 0 <= i < later.len() ==> (#[trigger] later[i]).id > origin.start_id,
    ensures
        pages_of(posts + later, filter, size, count, Some(origin)) == pages_of(
            posts,
            filter,
            size,
            count,
            Some(origin),
        ),
{
    lemma_ids_within_ignores_newer(posts, later, filter, i32::MIN as int, origin.start_id as int);
}

/// Posts that arrive after a boundary was handed out only add to the pages
/// in front of it: a walk towards newer posts from `origin` still finds
/// every boundary it found before, in the same place.
pub proof fn law_newer_pages_grow(
    posts: Seq<PostEntry>,
    later: Seq<PostEntry>,
    filter: FilterModel,
    size: int,
    count: int,
    origin: PageInfo,
)
    requires
        0 < size,
        count < 0,
    ensures
        pages_of(posts, filter, size, count, Some(origin)).is_prefix_of(
            pages_of(posts + later, filter, size, count, Some(origin)),
        ),
{
    let before = ids_after(posts, filter, origin.start_id as int);
    let after = ids_after(posts + later, filter, origin.start_id as int);
    lemma_ids_within_grows(posts, later, filter, origin.start_id + 1, i32::MAX as int);
    let a = newer_pages(before, size, -count, origin.no as int);
    let b = newer_pages(after, size, -count, origin.no as int);
    lemma_quotient_bounds(before.len() as int, size);
    lemma_quotient_bounds(after.len() as int, size);
    vstd::arithmetic::div_mod::lemma_div_is_ordered(before.len() as int, after.len() as int, size);
    assert(a.len() <= b.len());
    assert forall|i: int| 0 <= i < a.len() implies a[i] == b[i] by {
        lemma_mul_ordered(i + 1, (before.len() as int) / size, size);
        lemma_mul_ordered(1, i + 1, size);
        assert(before[(i + 1) * size - 1] == after[(i + 1) * size - 1]);
    }
    assert(a =~= b.subrange(0, a.len() as int));
}

/// Anchored paging is deterministic. Take the first `m` pages of a listing
/// and keep the last of them as an anchor. However many posts arrive
/// afterwards, the `n` pages that a walk from the anchor finds are pages
/// `m + 1` to `m + n` of the listing as it was when the anchor was taken.
pub proof fn law_pagination_determinism(
    posts: Seq<PostEntry>,
    later: Seq<PostEntry>,
    filter: FilterModel,
    size: int,
    m: int,
    n: int,
)
    requires
        ordered(posts + later),
        0 < size <= i32::MAX,
        0 < m,
        0 <= n,
        pages_of(posts, filter, size, m, None).len() == m,
    ensures
        pages_of(posts + later, filter, size, n, Some(pages_of(posts, filter, size, m, None)[m - 1]))
            == pages_of(posts, filter, size, m + n, None).skip(m),
{
    let all = posts + later;
    assert(ordered(posts)) by {
        assert forall|i: int| 0 <= i < posts.len() implies 0 < (#[trigger] posts[i]).id <= i32::MAX by {
            assert(all[i] == posts[i]);
        }
        assert forall|i: int, j: int| 0 <= i < j < posts.len() implies (#[trigger] posts[i]).id < (
        #[trigger] posts[j]).id by {
            assert(all[i] == posts[i] && all[j] == posts[j]);
        }
    }
    let ids = ids_all(posts, filter);
    let total = ids.len() as int;
    lemma_ordered_len(posts);
    lemma_ids_within_bounds(posts, filter, i32::MIN as int, i32::MAX as int);
    lemma_ids_within_increasing(posts, filter, i32::MIN as int, i32::MAX as int);
    lemma_page_total(total, size);
    let head = pages_of(posts, filter, size, m, None);
    let anchor = head[m - 1];
    assert(total > 0);
    let reach = (total - 1) / size;
    lemma_quotient_bounds(total - 1, size);
    lemma_mul_ordered(m - 1, reach, size);
    let x = total - 1 - (m - 1) * size;
    assert(0 <= x < total);
    assert(anchor == PageInfo { no: m as i32, start_id: ids[x] as i32 });
    assert(anchor.start_id == ids[x] && anchor.no == m);
    // Nothing that arrived later lies at or below the anchor.
    assert forall|i: int| 0 <= i < later.len() implies (#[trigger] later[i]).id > anchor.start_id by {
        assert(all[posts.len() + i] == later[i]);
        assert(all[posts.len() - 1] == posts.last());
        assert(ids[x] <= posts.last().id);
    }
    lemma_ids_within_ignores_newer(posts, later, filter, i32::MIN as int, anchor.start_id as int);
    lemma_ids_within_split(posts, filter, i32::MIN as int, i32::MAX as int, x);
    let below = ids_up_to(all, filter, anchor.start_id as int);
    assert(below == ids.take(x + 1));
    let rest = pages_of(posts, filter, size, m + n, None).skip(m);
    let found = pages_of(all, filter, size, n, Some(anchor));
    let whole = head_pages(ids, size, m + n);
    if n == 0 {
        assert(found =~= rest);
    } else {
        lemma_hoist_over_denominator(total - 1, -(m - 1), size as nat);
        assert((total - 1) + (-(m - 1)) * size == x) by (nonlinear_arith)
            requires
                x == total - 1 - (m - 1) * size,
        ;
        assert(x / size == reach - (m - 1));
        assert(found == older_pages(below, size, n, m));
        assert(found.len() == rest.len());
        assert forall|i: int| 0 <= i < found.len() implies found[i] == rest[i] by {
            assert((m + i) * size == (m - 1) * size + (i + 1) * size) by (nonlinear_arith);
            lemma_mul_ordered(i + 1, x / size, size);
            lemma_quotient_bounds(x, size);
            assert(rest[i] == whole[m + i]);
            assert(below[x - (i + 1) * size] == ids[x - (i + 1) * size]);
        }
        assert(found =~= rest);
    }
}

/// Where a walk over the whole listing ends. A request for `count` pages
/// returns fewer than `count` boundaries exactly when the matching posts
/// fill at most `count - 1` pages, and whenever the request reaches the end
/// of a listing that is not empty, its last boundary is the last page.
pub proof fn law_boundary_exhaustion(posts: Seq<PostEntry>, filter: FilterModel, size: int, count: int)
    requires
        ordered(posts),
        0 < size <= i32::MAX,
        0 < count <= i32::MAX,
    ensures
        pages_of(posts, filter, size, count, None).len() <= count,
        pages_of(posts, filter, size, count, None).len() < count <==> ids_all(posts, filter).len() <= (count
            - 1) * size,
        0 < ids_all(posts, filter).len() <= count * size ==> pages_of(
            posts,
            filter,
            size,
            count,
            None,
        ).last() == last_page_of(posts, filter, size),
        ids_all(posts, filter).len() == 0 ==> pages_of(posts, filter, size, count, None).len() == 0
            && last_page_of(posts, filter, size) == PageInfo::spec_none(),
{
    let ids = ids_all(posts, filter);
    let total = ids.len() as int;
    lemma_ordered_len(posts);
    lemma_ids_within_bounds(posts, filter, i32::MIN as int, i32::MAX as int);
    lemma_page_total(total, size);
    let pages = pages_of(posts, filter, size, count, None);
    let full = page_total(total, size);
    assert(pages.len() == if count < full { count } else { full });
    assert(0 <= (count - 1) * size) by (nonlinear_arith)
        requires
            0 < count,
            0 < size,
    ;
    assert(count * size == (count - 1) * size + size) by (nonlinear_arith);
    if total > 0 {
        let q = (total - 1) / size;
        lemma_quotient_bounds(total - 1, size);
        assert(q + 1 <= count - 1 <==> total <= (count - 1) * size) by {
            if q + 1 <= count - 1 {
                lemma_mul_ordered(q + 1, count - 1, size);
            }
            if total <= (count - 1) * size {
                assert(q < count - 1) by (nonlinear_arith)
                    requires
                        q * size <= total - 1,
                        total <= (count - 1) * size,
                        0 < size,
                ;
            }
        }
        if total <= count * size {
            assert(q < count) by (nonlinear_arith)
                requires
                    q * size <= total - 1,
                    total <= count * size,
                    0 < size,
            ;
            assert(pages.len() == full);
            assert(pages.last() == pages[full - 1]);
        }
    }
}

impl PostIndex {
    /// The boundaries of up to `|page_count|` pages of `posts_per_page`
    /// matching posts each: towards older posts for a positive count,
    /// towards newer posts for a negative one, starting behind
    /// `origin_page` where one is given.
    pub fn calculate_pages(
        &self,
        filter: &TagFilter,
        posts_per_page: i32,
        page_count: i32,
        origin_page: Option<PageInfo>,
    ) -> (r: Vec<PageInfo>)
        requires
            self.wf(),
        ensures
            r@ == pages_of(self@, filter@, posts_per_page as int, page_count as int, origin_page),
    {
        let walk = PageWalk::start(posts_per_page, page_count, origin_page);
        proof {
            lemma_walk_yields_pages(self@, filter@, posts_per_page, page_count, origin_page);
        }
        self.complete(filter, walk)
    }

    /// The boundary of the page that holds the oldest matching post.
    pub fn calculate_last_page(&self, filter: &TagFilter, posts_per_page: i32) -> (r: PageInfo)
        requires
            self.wf(),
        ensures
            r == last_page_of(self@, filter@, posts_per_page as int),
    {
        let matching = self.count_within(filter, i32::MIN, i32::MAX);
        if posts_per_page <= 0 || matching == 0 {
            return PageInfo::none();
        }
        let size = posts_per_page as usize;
        proof {
            lemma_ordered_len(self@);
            lemma_ids_within_bounds(self@, filter@, i32::MIN as int, i32::MAX as int);
            lemma_ids_within_increasing(self@, filter@, i32::MIN as int, i32::MAX as int);
            lemma_page_total(matching as int, size as int);
            lemma_quotient_bounds(matching - 1, size as int);
        }
        let full = (matching - 1) / size;
        let rank = matching - 1 - full * size;
        let start = self.select_within(filter, i32::MIN, i32::MAX, rank);
        match start {
            Some(start_id) => PageInfo { no: (full + 1) as i32, start_id },
            None => PageInfo::none(),
        }
    }
}

} // verus!
