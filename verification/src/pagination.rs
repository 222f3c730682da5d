//! Page boundaries over the posts that pass a filter.
//!
//! Posts are listed newest first. Page 1 starts at the newest matching post
//! and every page holds `size` matching posts. A boundary names a page and
//! the identifier its first post has. Boundaries are found by a walk that
//! asks a store one range question per page, so that the filtered collection
//! is never laid out in full; a walk that starts from a boundary handed back
//! by the caller depends only on the posts at one side of that boundary.

use vstd::prelude::*;
use crate::index::{
    FilterModel, PostEntry, PostIndex, TagFilter, ids_after, ids_all, ids_up_to, newer_answer,
    older_answer,
};
use crate::models::view::PageInfo;

verus! {

/// The side of a bound on which a range question looks.
#[derive(Clone, Copy, Debug, PartialEq, Eq, Structural)]
pub enum Direction {
    /// Towards older posts: identifiers at or below the bound, newest first.
    Older,
    /// Towards newer posts: identifiers above the bound, oldest first.
    Newer,
}

/// One question to the store: which matching post has `skip` matching posts
/// between itself and `bound`, on the given side of `bound`?
#[derive(Clone, Copy, Debug, PartialEq, Eq, Structural)]
pub struct RangeQuery {
    pub direction: Direction,
    pub bound: i32,
    pub skip: usize,
}

/// The answer that a store holding `posts` owes to `query`.
pub open spec fn answer_of(posts: Seq<PostEntry>, filter: FilterModel, query: RangeQuery) -> Option<i32> {
    match query.direction {
        Direction::Older => older_answer(posts, filter, query.bound as int, query.skip as int),
        Direction::Newer => newer_answer(posts, filter, query.bound as int, query.skip as int),
    }
}

/// The number of pages that `matching` posts fill, the last one perhaps in
/// part.
pub open spec fn page_total(matching: int, size: int) -> int {
    (matching + size - 1) / size
}

/// The least of three numbers.
pub open spec fn least(a: int, b: int, c: int) -> int {
    let ab = if a < b { a } else { b };
    if ab < c { ab } else { c }
}

/// The first `count` pages of the whole listing: page `i + 1` starts
/// `i * size` matching posts below the newest one.
pub open spec fn head_pages(ids: Seq<int>, size: int, count: int) -> Seq<PageInfo> {
    let len = least(count, page_total(ids.len() as int, size), i32::MAX as int);
    Seq::new(
        len as nat,
        |i: int| PageInfo { no: (i + 1) as i32, start_id: ids[ids.len() - 1 - i * size] as i32 },
    )
}

/// Up to `count` pages behind page `origin_no`, given the matching posts at
/// or below that page's start: the page `i + 1` steps further starts
/// `(i + 1) * size` matching posts below the newest of them. The walk ends
/// where fewer than `size` posts are left over or page numbers run out.
pub open spec fn older_pages(ids: Seq<int>, size: int, count: int, origin_no: int) -> Seq<PageInfo> {
    let reach = if ids.len() == 0 { 0 } else { (ids.len() - 1) / size };
    let len = least(count, reach, i32::MAX - origin_no);
    Seq::new(
        len as nat,
        |i: int|
            PageInfo {
                no: (origin_no + i + 1) as i32,
                start_id: ids[ids.len() - 1 - (i + 1) * size] as i32,
            },
    )
}

/// Up to `count` pages in front of page `origin_no`, given the matching
/// posts above that page's start: the page `i + 1` steps nearer the newest
/// end starts at the `(i + 1) * size`-th of them. The walk ends where fewer
/// than `size` posts are left over or page numbers run out.
pub open spec fn newer_pages(ids: Seq<int>, size: int, count: int, origin_no: int) -> Seq<PageInfo> {
    let len = least(count, (ids.len() as int) / size, origin_no - i32::MIN);
    Seq::new(
        len as nat,
        |i: int| PageInfo { no: (origin_no - i - 1) as i32, start_id: ids[(i + 1) * size - 1] as i32 },
    )
}

/// The boundaries owed to a request for `count` pages of `size` posts each.
///
/// A positive `count` walks towards older posts, from `origin` if there is
/// one and from the newest matching post otherwise. A negative `count` walks
/// towards newer posts from `origin`; without an origin there is nothing
/// newer than the head of the listing, and no boundary is returned. A page
/// size that is not positive gives no boundary either.
pub open spec fn pages_of(
    posts: Seq<PostEntry>,
    filter: FilterModel,
    size: int,
    count: int,
    origin: Option<PageInfo>,
) -> Seq<PageInfo> {
    if size <= 0 || count == 0 {
        Seq::empty()
    } else {
        match origin {
            None => if count > 0 {
                head_pages(ids_all(posts, filter), size, count)
            } else {
                Seq::empty()
            },
            Some(o) => if count > 0 {
                older_pages(ids_up_to(posts, filter, o.start_id as int), size, count, o.no as int)
            } else {
                newer_pages(ids_after(posts, filter, o.start_id as int), size, -count, o.no as int)
            },
        }
    }
}

/// The last page of the listing: the one that holds the oldest matching
/// post. Without a matching post, or with a page size that is not positive,
/// it is the boundary that stands for "no page".
pub open spec fn last_page_of(posts: Seq<PostEntry>, filter: FilterModel, size: int) -> PageInfo {
    let ids = ids_all(posts, filter);
    if size <= 0 || ids.len() == 0 {
        PageInfo::spec_none()
    } else {
        let no = page_total(ids.len() as int, size);
        PageInfo { no: no as i32, start_id: ids[ids.len() - 1 - (no - 1) * size] as i32 }
    }
}

/// The state of a walk, as contracts see it.
pub struct WalkState {
    /// Posts per page.
    pub size: int,
    /// Boundaries still asked for.
    pub remaining: int,
    pub direction: Direction,
    /// The boundary the next step starts from; `None` at the head of the
    /// listing.
    pub cursor: Option<PageInfo>,
    /// The boundaries found so far.
    pub pages: Seq<PageInfo>,
    /// Whether the store may still hold a further boundary.
    pub open: bool,
}

impl WalkState {
    pub open spec fn start(size: int, count: int, origin: Option<PageInfo>) -> WalkState {
        WalkState {
            size,
            remaining: if count < 0 { -count } else { count },
            direction: if count < 0 { Direction::Newer } else { Direction::Older },
            cursor: origin,
            pages: Seq::empty(),
            open: size > 0 && count != 0 && (count > 0 || origin is Some),
        }
    }

    /// The question the walk asks next, or `None` when it has ended.
    pub open spec fn query(self) -> Option<RangeQuery> {
        if !self.open || self.remaining <= 0 {
            None
        } else {
            match self.cursor {
                None => match self.direction {
                    Direction::Older => Some(
                        RangeQuery { direction: Direction::Older, bound: i32::MAX, skip: 0 },
                    ),
                    Direction::Newer => None,
                },
                Some(c) => match self.direction {
                    Direction::Older => if c.no < i32::MAX {
                        Some(
                            RangeQuery {
                                direction: Direction::Older,
                                bound: c.start_id,
                                skip: self.size as usize,
                            },
                        )
                    } else {
                        None
                    },
                    Direction::Newer => if c.no > i32::MIN {
                        Some(
                            RangeQuery {
                                direction: Direction::Newer,
                                bound: c.start_id,
                                skip: (self.size - 1) as usize,
                            },
                        )
                    } else {
                        None
                    },
                },
            }
        }
    }

    /// The number of the page that the next answer starts.
    pub open spec fn next_no(self) -> int {
        match self.cursor {
            None => 1,
            Some(c) => match self.direction {
                Direction::Older => c.no + 1,
                Direction::Newer => c.no - 1,
            },
        }
    }

    /// The state after the store has answered the pending question. An
    /// identifier becomes the next boundary; `None` ends the walk. A walk
    /// that has ended stays as it is.
    pub open spec fn step(self, answer: Option<i32>) -> WalkState {
        if self.query() is None {
            self
        } else {
            match answer {
                None => WalkState { open: false, ..self },
                Some(id) => {
                    let page = PageInfo { no: self.next_no() as i32, start_id: id };
                    WalkState {
                        remaining: self.remaining - 1,
                        cursor: Some(page),
                        pages: self.pages.push(page),
                        ..self
                    }
                },
            }
        }
    }

    /// An upper bound on the questions still to come.
    pub open spec fn fuel(self) -> nat {
        if self.open && self.remaining > 0 {
            (self.remaining + 1) as nat
        } else {
            0
        }
    }

    /// What the state looks like between `start` and the end of a walk.
    pub open spec fn wf(self) -> bool {
        &&& 0 <= self.remaining <= 0x8000_0000
        &&& self.open ==> 0 < self.size <= i32::MAX
    }
}

/// The boundaries a walk ends with when a store holding `posts` answers
/// each of its questions.
pub open spec fn run(state: WalkState, posts: Seq<PostEntry>, filter: FilterModel) -> Seq<PageInfo>
    decreases state.fuel(),
{
    match state.query() {
        None => state.pages,
        Some(q) => run(state.step(answer_of(posts, filter, q)), posts, filter),
    }
}

/// The direction in which a request for `page_count` pages walks, and the
/// number of pages it asks for: a negative count asks for pages towards
/// newer posts. A number too large to be written as a count stands for the
/// largest count there is.
pub fn walk_request(page_count: i32) -> (r: (Direction, i32))
    ensures
        r.0 == (if page_count < 0 {
            Direction::Newer
        } else {
            Direction::Older
        }),
        r.1 == (if page_count == i32::MIN {
            i32::MAX as int
        } else if page_count < 0 {
            -page_count
        } else {
            page_count as int
        }),
{
    if page_count == i32::MIN {
        (Direction::Newer, i32::MAX)
    } else if page_count < 0 {
        (Direction::Newer, -page_count)
    } else {
        (Direction::Older, page_count)
    }
}

/// A walk over page boundaries. The caller asks the store what
/// `next_query` says, hands the answer to `advance`, and repeats until
/// `next_query` has nothing left to ask.
pub struct PageWalk {
    size: i32,
    remaining: u32,
    direction: Direction,
    cursor: Option<PageInfo>,
    pages: Vec<PageInfo>,
    open: bool,
}

impl View for PageWalk {
    type V = WalkState;

    closed spec fn view(&self) -> WalkState {
        WalkState {
            size: self.size as int,
            remaining: self.remaining as int,
            direction: self.direction,
            cursor: self.cursor,
            pages: self.pages@,
            open: self.open,
        }
    }
}

impl PageWalk {
    /// Begins a walk for `page_count` boundaries of pages with `size` posts.
    pub fn start(size: i32, page_count: i32, origin: Option<PageInfo>) -> (walk: PageWalk)
        ensures
            walk@ == WalkState::start(size as int, page_count as int, origin),
            walk@.wf(),
    {
        let remaining: u32 = if page_count == i32::MIN {
            0x8000_0000u32
        } else if page_count < 0 {
            (-page_count) as u32
        } else {
            page_count as u32
        };
        let direction = if page_count < 0 {
            Direction::Newer
        } else {
            Direction::Older
        };
        let open = size > 0 && page_count != 0 && (page_count > 0 || origin.is_some());
        PageWalk { size, remaining, direction, cursor: origin, pages: Vec::new(), open }
    }

    /// The question to put to the store, or `None` when the walk has ended.
    pub fn next_query(&self) -> (q: Option<RangeQuery>)
        requires
            self@.wf(),
        ensures
            q == self@.query(),
    {
        if !self.open || self.remaining == 0 {
            return None;
        }
        match self.cursor {
            None => match self.direction {
                Direction::Older => Some(
                    RangeQuery { direction: Direction::Older, bound: i32::MAX, skip: 0 },
                ),
                Direction::Newer => None,
            },
            Some(c) => match self.direction {
                Direction::Older => if c.no < i32::MAX {
                    Some(
                        RangeQuery {
                            direction: Direction::Older,
                            bound: c.start_id,
                            skip: self.size as usize,
                        },
                    )
                } else {
                    None
                },
                Direction::Newer => if c.no > i32::MIN {
                    Some(
                        RangeQuery {
                            direction: Direction::Newer,
                            bound: c.start_id,
                            skip: (self.size - 1) as usize,
                        },
                    )
                } else {
                    None
                },
            },
        }
    }

    /// Takes the store's answer to the pending question.
    pub fn advance(&mut self, answer: Option<i32>)
        requires
            old(self)@.wf(),
        ensures
            final(self)@ == old(self)@.step(answer),
            final(self)@.wf(),
    {
        if self.next_query().is_none() {
            return ;
        }
        match answer {
            None => {
                self.open = false;
            },
            Some(id) => {
                let no: i32 = match self.cursor {
                    None => 1,
                    Some(c) => match self.direction {
                        Direction::Older => c.no + 1,
                        Direction::Newer => c.no - 1,
                    },
                };
                let page = PageInfo { no, start_id: id };
                self.remaining = self.remaining - 1;
                self.cursor = Some(page);
                self.pages.push(page);
            },
        }
    }

    /// The boundaries found so far.
    pub fn pages(&self) -> (r: &Vec<PageInfo>)
        ensures
            r@ == self@.pages,
    {
        &self.pages
    }

    /// Ends the walk and hands out its boundaries.
    pub fn finish(self) -> (r: Vec<PageInfo>)
        ensures
            r@ == self@.pages,
    {
        self.pages
    }
}

impl PostIndex {
    /// Answers a range question from the posts of this index.
    pub fn answer(&self, filter: &TagFilter, query: &RangeQuery) -> (r: Option<i32>)
        ensures
            r == answer_of(self@, filter@, *query),
    {
        match query.direction {
            Direction::Older => self.nth_older(filter, query.bound, query.skip),
            Direction::Newer => self.nth_newer(filter, query.bound, query.skip),
        }
    }

    /// Walks `walk` to its end against the posts of this index.
    pub fn complete(&self, filter: &TagFilter, walk: PageWalk) -> (r: Vec<PageInfo>)
        requires
            walk@.wf(),
        ensures
            r@ == run(walk@, self@, filter@),
    {
        let mut walk = walk;
        let ghost begin = walk@;
        loop
            invariant
                walk@.wf(),
                run(walk@, self@, filter@) == run(begin, self@, filter@),
            ensures
                walk@.query() is None,
                run(walk@, self@, filter@) == run(begin, self@, filter@),
            decreases walk@.fuel(),
        {
            match walk.next_query() {
                None => {
                    break ;
                },
                Some(q) => {
                    let answer = self.answer(filter, &q);
                    walk.advance(answer);
                },
            }
        }
        walk.finish()
    }
}

} // verus!
