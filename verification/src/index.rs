//! The ordered collection of posts that listings and page boundaries are
//! computed over, and the two range primitives every walk is made of:
//! counting the matching posts of an identifier range, and finding the n-th
//! matching post of such a range.

use vstd::prelude::*;

verus! {

/// What a filter asks of a post, as sets of tag numbers.
pub struct FilterModel {
    pub required: Set<usize>,
    pub forbidden: Set<usize>,
}

impl FilterModel {
    /// A post passes when it carries every required tag and none of the
    /// forbidden ones.
    pub open spec fn admits(self, tags: Set<usize>) -> bool {
        self.required.subset_of(tags) && self.forbidden.disjoint(tags)
    }
}

/// What the index knows of one post: its identifier and the set of its tags.
pub struct PostEntry {
    pub id: int,
    pub tags: Set<usize>,
}

/// Identifiers are positive and strictly increasing: the order of the
/// sequence is the order in which the posts were made.
pub open spec fn ordered(posts: Seq<PostEntry>) -> bool {
    &&& forall|i: int| 0 <= i < posts.len() ==> 0 < (#[trigger] posts[i]).id <= i32::MAX
    &&& forall|i: int, j: int| 0 <= i < j < posts.len() ==> (#[trigger] posts[i]).id < (#[trigger] posts[j]).id
}

/// The identifiers of the posts that pass `filter` and lie in `lo ..= hi`,
/// oldest first.
pub open spec fn ids_within(posts: Seq<PostEntry>, filter: FilterModel, lo: int, hi: int) -> Seq<int>
    decreases posts.len(),
{
    if posts.len() == 0 {
        Seq::empty()
    } else {
        let earlier = ids_within(posts.drop_last(), filter, lo, hi);
        let p = posts.last();
        if lo <= p.id <= hi && filter.admits(p.tags) {
            earlier.push(p.id)
        } else {
            earlier
        }
    }
}

/// The matching identifiers at or below `bound`, oldest first.
pub open spec fn ids_up_to(posts: Seq<PostEntry>, filter: FilterModel, bound: int) -> Seq<int> {
    ids_within(posts, filter, i32::MIN as int, bound)
}

/// The matching identifiers above `bound`, oldest first.
pub open spec fn ids_after(posts: Seq<PostEntry>, filter: FilterModel, bound: int) -> Seq<int> {
    ids_within(posts, filter, bound + 1, i32::MAX as int)
}

/// All matching identifiers, oldest first.
pub open spec fn ids_all(posts: Seq<PostEntry>, filter: FilterModel) -> Seq<int> {
    ids_within(posts, filter, i32::MIN as int, i32::MAX as int)
}

/// The matching identifiers of a prefix of the posts are a prefix of the
/// matching identifiers of all of them.
pub proof fn lemma_ids_within_take(posts: Seq<PostEntry>, filter: FilterModel, lo: int, hi: int, k: int)
    requires
        0 <= k <= posts.len(),
    ensures
        ids_within(posts.take(k), filter, lo, hi).is_prefix_of(ids_within(posts, filter, lo, hi)),
    decreases posts.len() - k,
{
    if k < posts.len() {
        lemma_ids_within_take(posts, filter, lo, hi, k + 1);
        assert(posts.take(k + 1).drop_last() =~= posts.take(k));
        let a = ids_within(posts.take(k), filter, lo, hi);
        let b = ids_within(posts.take(k + 1), filter, lo, hi);
        let c = ids_within(posts, filter, lo, hi);
        assert(a.is_prefix_of(b));
        assert(a =~= c.subrange(0, a.len() as int));
    } else {
        assert(posts.take(k) =~= posts);
    }
}

/// Every identifier that `ids_within` lists lies in the range, and the list
/// is no longer than the posts it was taken from.
pub proof fn lemma_ids_within_bounds(posts: Seq<PostEntry>, filter: FilterModel, lo: int, hi: int)
    ensures
        ids_within(posts, filter, lo, hi).len() <= posts.len(),
        forall|i: int|
            0 <= i < ids_within(posts, filter, lo, hi).len() ==> lo <= (#[trigger] ids_within(
                posts,
                filter,
                lo,
                hi,
            )[i]) <= hi,
    decreases posts.len(),
{
    if posts.len() > 0 {
        lemma_ids_within_bounds(posts.drop_last(), filter, lo, hi);
    }
}

/// In an ordered collection the matching identifiers come out strictly
/// increasing, each the identifier of a post.
pub proof fn lemma_ids_within_increasing(posts: Seq<PostEntry>, filter: FilterModel, lo: int, hi: int)
    requires
        ordered(posts),
    ensures
        forall|i: int, j: int|
            0 <= i < j < ids_within(posts, filter, lo, hi).len() ==> ids_within(posts, filter, lo, hi)[i]
                < ids_within(posts, filter, lo, hi)[j],
        forall|i: int|
            0 <= i < ids_within(posts, filter, lo, hi).len() ==> 0 < (#[trigger] ids_within(
                posts,
                filter,
                lo,
                hi,
            )[i]) <= i32::MAX,
        posts.len() > 0 ==> forall|i: int|
            0 <= i < ids_within(posts, filter, lo, hi).len() ==> (#[trigger] ids_within(
                posts,
                filter,
                lo,
                hi,
            )[i]) <= posts.last().id,
    decreases posts.len(),
{
    if posts.len() > 0 {
        let front = posts.drop_last();
        assert(ordered(front)) by {
            assert forall|i: int| 0 <= i < front.len() implies 0 < (#[trigger] front[i]).id <= i32::MAX by {
                assert(front[i] == posts[i]);
            }
            assert forall|i: int, j: int| 0 <= i < j < front.len() implies (#[trigger] front[i]).id < (
            #[trigger] front[j]).id by {
                assert(front[i] == posts[i] && front[j] == posts[j]);
            }
        }
        lemma_ids_within_increasing(front, filter, lo, hi);
        lemma_ids_within_bounds(front, filter, lo, hi);
        let s = ids_within(posts, filter, lo, hi);
        let t = ids_within(front, filter, lo, hi);
        if front.len() > 0 {
            assert(front.last() == posts[posts.len() - 2]);
            assert(front.last().id < posts.last().id);
        }
        assert(0 < posts.last().id <= i32::MAX);
        assert forall|i: int, j: int| 0 <= i < j < s.len() implies s[i] < s[j] by {
            if j < t.len() {
                assert(s[i] == t[i] && s[j] == t[j]);
            } else {
                assert(s[i] == t[i]);
                assert(t[i] <= front.last().id);
            }
        }
        assert forall|i: int| 0 <= i < s.len() implies 0 < (#[trigger] s[i]) <= i32::MAX && s[i]
            <= posts.last().id by {
            if i < t.len() {
                assert(s[i] == t[i]);
                assert(t[i] <= front.last().id);
            }
        }
    }
}

/// Posts added behind an ordered collection, all newer than `hi`, change
/// nothing at or below `hi`.
pub proof fn lemma_ids_within_ignores_newer(
    posts: Seq<PostEntry>,
    more: Seq<PostEntry>,
    filter: FilterModel,
    lo: int,
    hi: int,
)
    requires
        forall|i: int| 0 <= i < more.len() ==> (#[trigger] more[i]).id > hi,
    ensures
        ids_within(posts + more, filter, lo, hi) == ids_within(posts, filter, lo, hi),
    decreases more.len(),
{
    if more.len() == 0 {
        assert(posts + more =~= posts);
    } else {
        lemma_ids_within_ignores_newer(posts, more.drop_last(), filter, lo, hi);
        assert((posts + more).drop_last() =~= posts + more.drop_last());
        assert((posts + more).last() == more.last());
    }
}

/// Posts added behind a collection leave the matching identifiers that were
/// there as a prefix of the new ones.
pub proof fn lemma_ids_within_grows(
    posts: Seq<PostEntry>,
    more: Seq<PostEntry>,
    filter: FilterModel,
    lo: int,
    hi: int,
)
    ensures
        ids_within(posts, filter, lo, hi).is_prefix_of(ids_within(posts + more, filter, lo, hi)),
{
    lemma_ids_within_take(posts + more, filter, lo, hi, posts.len() as int);
    assert((posts + more).take(posts.len() as int) =~= posts);
}

/// Dropping the newest post of an ordered collection leaves it ordered.
pub proof fn lemma_ordered_drop_last(posts: Seq<PostEntry>)
    requires
        ordered(posts),
        posts.len() > 0,
    ensures
        ordered(posts.drop_last()),
        forall|i: int| 0 <= i < posts.len() - 1 ==> (#[trigger] posts.drop_last()[i]).id < posts.last().id,
{
    let front = posts.drop_last();
    assert forall|i: int| 0 <= i < front.len() implies 0 < (#[trigger] front[i]).id <= i32::MAX && front[i].id
        < posts.last().id by {
        assert(front[i] == posts[i]);
    }
    assert forall|i: int, j: int| 0 <= i < j < front.len() implies (#[trigger] front[i]).id < (
    #[trigger] front[j]).id by {
        assert(front[i] == posts[i] && front[j] == posts[j]);
    }
}

/// An ordered collection holds at most as many posts as there are
/// identifiers.
pub proof fn lemma_ordered_len(posts: Seq<PostEntry>)
    requires
        ordered(posts),
    ensures
        posts.len() <= i32::MAX,
        forall|i: int| 0 <= i < posts.len() ==> i < (#[trigger] posts[i]).id,
    decreases posts.len(),
{
    if posts.len() > 0 {
        lemma_ordered_drop_last(posts);
        lemma_ordered_len(posts.drop_last());
        let front = posts.drop_last();
        assert forall|i: int| 0 <= i < posts.len() implies i < (#[trigger] posts[i]).id by {
            if i < front.len() {
                assert(front[i] == posts[i]);
            } else if front.len() > 0 {
                assert(front[front.len() - 1].id < posts.last().id);
            }
        }
        assert(posts[posts.len() - 1].id <= i32::MAX);
    }
}

/// Two ranges that hold the same posts of a collection list the same
/// identifiers.
pub proof fn lemma_ids_within_same_range(
    posts: Seq<PostEntry>,
    filter: FilterModel,
    lo1: int,
    hi1: int,
    lo2: int,
    hi2: int,
)
    requires
        forall|i: int|
            0 <= i < posts.len() ==> ((lo1 <= (#[trigger] posts[i]).id <= hi1) == (lo2 <= posts[i].id <= hi2)),
    ensures
        ids_within(posts, filter, lo1, hi1) == ids_within(posts, filter, lo2, hi2),
    decreases posts.len(),
{
    if posts.len() > 0 {
        let front = posts.drop_last();
        assert forall|i: int| 0 <= i < front.len() implies ((lo1 <= (#[trigger] front[i]).id <= hi1) == (lo2
            <= front[i].id <= hi2)) by {
            assert(front[i] == posts[i]);
        }
        lemma_ids_within_same_range(front, filter, lo1, hi1, lo2, hi2);
        assert(posts.last() == posts[posts.len() - 1]);
    }
}

/// In an ordered collection, the matching identifiers of a range split at
/// any one of them: those up to it are what the range up to it lists, and
/// those behind it are what the range above it lists.
pub proof fn lemma_ids_within_split(posts: Seq<PostEntry>, filter: FilterModel, lo: int, hi: int, x: int)
    requires
        ordered(posts),
        0 <= x < ids_within(posts, filter, lo, hi).len(),
    ensures
        ids_within(posts, filter, lo, ids_within(posts, filter, lo, hi)[x]) == ids_within(
            posts,
            filter,
            lo,
            hi,
        ).take(x + 1),
        ids_within(posts, filter, ids_within(posts, filter, lo, hi)[x] + 1, hi) == ids_within(
            posts,
            filter,
            lo,
            hi,
        ).skip(x + 1),
    decreases posts.len(),
{
    let s = ids_within(posts, filter, lo, hi);
    let m = s[x];
    let front = posts.drop_last();
    let p = posts.last();
    let t = ids_within(front, filter, lo, hi);
    lemma_ordered_drop_last(posts);
    lemma_ids_within_increasing(front, filter, lo, hi);
    lemma_ids_within_bounds(front, filter, lo, hi);
    let inside = lo <= p.id <= hi && filter.admits(p.tags);
    if x < t.len() {
        assert(s[x] == t[x]);
        lemma_ids_within_split(front, filter, lo, hi, x);
        assert(front.len() > 0);
        assert(front.last() == front[front.len() - 1]);
        assert(m <= front.last().id < p.id);
        assert(ids_within(posts, filter, lo, m) == ids_within(front, filter, lo, m));
        assert(t.take(x + 1) =~= s.take(x + 1));
        if inside {
            assert(ids_within(posts, filter, m + 1, hi) == ids_within(front, filter, m + 1, hi).push(p.id));
            assert(t.skip(x + 1).push(p.id) =~= s.skip(x + 1));
        } else {
            assert(ids_within(posts, filter, m + 1, hi) == ids_within(front, filter, m + 1, hi));
            assert(t.skip(x + 1) =~= s.skip(x + 1));
        }
    } else {
        assert(inside);
        assert(m == p.id);
        lemma_ids_within_same_range(front, filter, lo, p.id, lo, hi);
        assert(s.take(x + 1) =~= s);
        lemma_ids_within_same_range(front, filter, p.id + 1, hi, 1, 0);
        lemma_ids_within_bounds(front, filter, 1, 0);
        assert(ids_within(front, filter, 1, 0).len() == 0) by {
            if ids_within(front, filter, 1, 0).len() > 0 {
                assert(1 <= ids_within(front, filter, 1, 0)[0] <= 0);
            }
        }
        assert(s.skip(x + 1) =~= Seq::<int>::empty());
        assert(ids_within(posts, filter, p.id + 1, hi) =~= Seq::<int>::empty());
    }
}

/// A resolved filter: the numbers of the tags a post must carry and of those
/// it must not.
pub struct TagFilter {
    pub required: Vec<usize>,
    pub forbidden: Vec<usize>,
}

impl View for TagFilter {
    type V = FilterModel;

    open spec fn view(&self) -> FilterModel {
        FilterModel { required: self.required@.to_set(), forbidden: self.forbidden@.to_set() }
    }
}

/// Whether `tag` occurs in `tags`.
pub fn has_tag(tags: &Vec<usize>, tag: usize) -> (r: bool)
    ensures
        r == tags@.contains(tag),
        r == tags@.to_set().contains(tag),
{
    let mut i: usize = 0;
    while i < tags.len()
        invariant
            i <= tags.len(),
            forall|j: int| 0 <= j < i ==> tags@[j] != tag,
        decreases tags.len() - i,
    {
        if tags[i] == tag {
            return true;
        }
        i += 1;
    }
    false
}

impl TagFilter {
    /// The filter that every post passes.
    pub fn everything() -> (r: TagFilter)
        ensures
            r.required@.len() == 0,
            r.forbidden@.len() == 0,
            forall|tags: Set<usize>| r@.admits(tags),
    {
        let r = TagFilter { required: Vec::new(), forbidden: Vec::new() };
        assert forall|tags: Set<usize>| r@.admits(tags) by {
            assert(r.required@.to_set() =~= Set::<usize>::empty());
            assert(r.forbidden@.to_set() =~= Set::<usize>::empty());
        }
        r
    }

    /// Whether a post with these tags passes the filter.
    pub fn admits_tags(&self, tags: &Vec<usize>) -> (r: bool)
        ensures
            r == self@.admits(tags@.to_set()),
    {
        let mut i: usize = 0;
        while i < self.required.len()
            invariant
                i <= self.required.len(),
                forall|j: int| 0 <= j < i ==> tags@.contains(#[trigger] self.required@[j]),
            decreases self.required.len() - i,
        {
            if !has_tag(tags, self.required[i]) {
                assert(self.required@.to_set().contains(self.required@[i as int]));
                return false;
            }
            i += 1;
        }
        assert(self.required@.to_set().subset_of(tags@.to_set()));
        let mut k: usize = 0;
        while k < self.forbidden.len()
            invariant
                k <= self.forbidden.len(),
                forall|j: int| 0 <= j < k ==> !tags@.contains(#[trigger] self.forbidden@[j]),
            decreases self.forbidden.len() - k,
        {
            if has_tag(tags, self.forbidden[k]) {
                assert(self.forbidden@.to_set().contains(self.forbidden@[k as int]));
                return false;
            }
            k += 1;
        }
        assert(self.forbidden@.to_set().disjoint(tags@.to_set()));
        true
    }
}

/// One post as the index holds it.
pub struct IndexedPost {
    pub id: i32,
    pub tags: Vec<usize>,
}

impl View for IndexedPost {
    type V = PostEntry;

    open spec fn view(&self) -> PostEntry {
        PostEntry { id: self.id as int, tags: self.tags@.to_set() }
    }
}

/// The posts in the order of their identifiers, each with its tags.
pub struct PostIndex {
    posts: Vec<IndexedPost>,
}

impl View for PostIndex {
    type V = Seq<PostEntry>;

    closed spec fn view(&self) -> Seq<PostEntry> {
        Seq::new(self.posts@.len(), |i: int| self.posts@[i]@)
    }
}

impl PostIndex {
    /// The index keeps its posts ordered by identifier.
    pub open spec fn wf(&self) -> bool {
        ordered(self@)
    }

    /// An index without posts.
    pub fn new() -> (r: PostIndex)
        ensures
            r.wf(),
            r@ == Seq::<PostEntry>::empty(),
    {
        let r = PostIndex { posts: Vec::new() };
        assert(r@ =~= Seq::<PostEntry>::empty());
        r
    }

    /// The number of posts.
    pub fn len(&self) -> (n: usize)
        ensures
            n == self@.len(),
    {
        self.posts.len()
    }

    /// The post at a position, counting from the oldest.
    pub fn entry_at(&self, position: usize) -> (r: &IndexedPost)
        requires
            position < self@.len(),
        ensures
            r@ == self@[position as int],
    {
        &self.posts[position]
    }

    /// The identifier of the newest post, if there is one.
    pub fn newest_id(&self) -> (r: Option<i32>)
        ensures
            self@.len() == 0 ==> r is None,
            self@.len() > 0 ==> r == Some(self@.last().id as i32) && r.unwrap() == self@.last().id,
    {
        let n = self.posts.len();
        if n == 0 {
            None
        } else {
            Some(self.posts[n - 1].id)
        }
    }

    /// Adds a post behind the others. The identifier has to be positive and
    /// above every identifier in the index; otherwise nothing changes and the
    /// answer is `false`.
    pub fn push(&mut self, id: i32, tags: Vec<usize>) -> (ok: bool)
        requires
            old(self).wf(),
        ensures
            final(self).wf(),
            ok == (id > 0 && (old(self)@.len() == 0 || old(self)@.last().id < id)),
            ok ==> final(self)@ == old(self)@.push(PostEntry { id: id as int, tags: tags@.to_set() }),
            !ok ==> final(self)@ == old(self)@,
    {
        let n = self.posts.len();
        if id <= 0 {
            return false;
        }
        if n > 0 && self.posts[n - 1].id >= id {
            return false;
        }
        let ghost before = self@;
        let ghost entry = PostEntry { id: id as int, tags: tags@.to_set() };
        self.posts.push(IndexedPost { id, tags });
        assert(self@ =~= before.push(entry));
        assert(ordered(self@)) by {
            assert forall|i: int, j: int| 0 <= i < j < self@.len() implies (#[trigger] self@[i]).id < (
            #[trigger] self@[j]).id by {
                if j < before.len() {
                    assert(self@[i] == before[i] && self@[j] == before[j]);
                } else if before.len() > 0 {
                    assert(self@[i] == before[i]);
                    assert(before[i].id <= before.last().id);
                }
            }
            assert forall|i: int| 0 <= i < self@.len() implies 0 < (#[trigger] self@[i]).id <= i32::MAX by {
                if i < before.len() {
                    assert(self@[i] == before[i]);
                }
            }
        }
        true
    }

    /// The tags of the post with this identifier, if the index holds it.
    pub fn tags_of(&self, id: i32) -> (r: Option<&Vec<usize>>)
        ensures
            match r {
                Some(tags) => exists|i: int|
                    0 <= i < self@.len() && (#[trigger] self@[i]).id == id && self@[i].tags
                        == tags@.to_set(),
                None => forall|i: int| 0 <= i < self@.len() ==> (#[trigger] self@[i]).id != id,
            },
    {
        let mut i: usize = 0;
        while i < self.posts.len()
            invariant
                i <= self.posts.len(),
                forall|j: int| 0 <= j < i ==> (#[trigger] self@[j]).id != id,
            decreases self.posts.len() - i,
        {
            if self.posts[i].id == id {
                assert(self@[i as int].id == id);
                return Some(&self.posts[i].tags);
            }
            i += 1;
        }
        None
    }

    /// Replaces the tags of the post with this identifier. The answer is
    /// `false`, and nothing changes, when the index holds no such post.
    pub fn set_tags(&mut self, id: i32, tags: Vec<usize>) -> (ok: bool)
        requires
            old(self).wf(),
        ensures
            final(self).wf(),
            final(self)@.len() == old(self)@.len(),
            ok == exists|i: int| 0 <= i < old(self)@.len() && (#[trigger] old(self)@[i]).id == id,
            forall|i: int|
                0 <= i < old(self)@.len() ==> (#[trigger] final(self)@[i]) == (if old(self)@[i].id == id {
                    PostEntry { id: id as int, tags: tags@.to_set() }
                } else {
                    old(self)@[i]
                }),
    {
        let mut i: usize = 0;
        while i < self.posts.len()
            invariant
                i <= self.posts.len(),
                self@ == old(self)@,
                ordered(self@),
                forall|j: int| 0 <= j < i ==> (#[trigger] self@[j]).id != id,
            decreases self.posts.len() - i,
        {
            if self.posts[i].id == id {
                let ghost before = self@;
                let ghost entry = PostEntry { id: id as int, tags: tags@.to_set() };
                self.posts.set(i, IndexedPost { id, tags });
                assert(self@ =~= before.update(i as int, entry));
                assert(before[i as int].id == id);
                assert forall|j: int| 0 <= j < before.len() implies (#[trigger] self@[j]) == (if before[j].id
                    == id {
                    entry
                } else {
                    before[j]
                }) by {
                    if j != i {
                        if j < i {
                            assert(before[j].id < before[i as int].id);
                        } else {
                            assert(before[i as int].id < before[j].id);
                        }
                    }
                }
                assert(ordered(self@)) by {
                    assert forall|a: int, b: int| 0 <= a < b < self@.len() implies (#[trigger] self@[a]).id < (
                    #[trigger] self@[b]).id by {
                        assert(self@[a].id == before[a].id && self@[b].id == before[b].id);
                    }
                    assert forall|a: int| 0 <= a < self@.len() implies 0 < (#[trigger] self@[a]).id
                        <= i32::MAX by {
                        assert(self@[a].id == before[a].id);
                    }
                }
                return true;
            }
            i += 1;
        }
        false
    }

    /// Counts the posts that pass `filter` and whose identifier lies in
    /// `lo ..= hi`.
    pub fn count_within(&self, filter: &TagFilter, lo: i32, hi: i32) -> (c: usize)
        ensures
            c == ids_within(self@, filter@, lo as int, hi as int).len(),
    {
        let mut c: usize = 0;
        let mut i: usize = 0;
        while i < self.posts.len()
            invariant
                i <= self.posts.len(),
                c <= i,
                c == ids_within(self@.take(i as int), filter@, lo as int, hi as int).len(),
            decreases self.posts.len() - i,
        {
            let p = &self.posts[i];
            proof {
                assert(self@.take(i + 1).drop_last() =~= self@.take(i as int));
                assert(self@.take(i + 1).last() == p@);
            }
            if lo <= p.id && p.id <= hi && filter.admits_tags(&p.tags) {
                c += 1;
            }
            i += 1;
        }
        proof {
            assert(self@.take(i as int) =~= self@);
        }
        c
    }

    /// Finds, among the posts that pass `filter` and whose identifier lies in
    /// `lo ..= hi`, the one with `rank` such posts before it, counting from
    /// the oldest.
    pub fn select_within(&self, filter: &TagFilter, lo: i32, hi: i32, rank: usize) -> (r: Option<i32>)
        ensures
            r is Some == (rank < ids_within(self@, filter@, lo as int, hi as int).len()),
            r is Some ==> r.unwrap() == ids_within(self@, filter@, lo as int, hi as int)[rank as int],
    {
        let mut seen: usize = 0;
        let mut i: usize = 0;
        while i < self.posts.len()
            invariant
                i <= self.posts.len(),
                seen <= i,
                seen <= rank,
                seen == ids_within(self@.take(i as int), filter@, lo as int, hi as int).len(),
            decreases self.posts.len() - i,
        {
            let p = &self.posts[i];
            proof {
                assert(self@.take(i + 1).drop_last() =~= self@.take(i as int));
                assert(self@.take(i + 1).last() == p@);
            }
            if lo <= p.id && p.id <= hi && filter.admits_tags(&p.tags) {
                if seen == rank {
                    proof {
                        lemma_ids_within_take(self@, filter@, lo as int, hi as int, i + 1);
                        let part = ids_within(self@.take(i + 1), filter@, lo as int, hi as int);
                        assert(part[rank as int] == p.id);
                    }
                    return Some(p.id);
                }
                seen += 1;
            }
            i += 1;
        }
        proof {
            assert(self@.take(i as int) =~= self@);
        }
        None
    }

    /// The matching post that has `skip` matching posts between itself and
    /// `bound`, looking from `bound` (itself included) towards older posts.
    pub fn nth_older(&self, filter: &TagFilter, bound: i32, skip: usize) -> (r: Option<i32>)
        ensures
            r == older_answer(self@, filter@, bound as int, skip as int),
    {
        let c = self.count_within(filter, i32::MIN, bound);
        if skip < c {
            let r = self.select_within(filter, i32::MIN, bound, c - 1 - skip);
            proof {
                lemma_ids_within_bounds(self@, filter@, i32::MIN as int, bound as int);
            }
            r
        } else {
            None
        }
    }

    /// The matching post that has `skip` matching posts between itself and
    /// `bound`, looking from `bound` (itself left out) towards newer posts.
    pub fn nth_newer(&self, filter: &TagFilter, bound: i32, skip: usize) -> (r: Option<i32>)
        ensures
            r == newer_answer(self@, filter@, bound as int, skip as int),
    {
        if bound == i32::MAX {
            proof {
                lemma_ids_within_bounds(self@, filter@, bound + 1, i32::MAX as int);
            }
            None
        } else {
            let r = self.select_within(filter, bound + 1, i32::MAX, skip);
            proof {
                lemma_ids_within_bounds(self@, filter@, bound + 1, i32::MAX as int);
            }
            r
        }
    }
}

/// What a store answers when asked for the matching post that lies `skip`
/// matching posts below `bound`: position `skip`, newest first, among the
/// matching posts at or below `bound`.
pub open spec fn older_answer(posts: Seq<PostEntry>, filter: FilterModel, bound: int, skip: int) -> Option<i32> {
    let below = ids_up_to(posts, filter, bound);
    if 0 <= skip < below.len() {
        Some(below[below.len() - 1 - skip] as i32)
    } else {
        None
    }
}

/// What a store answers when asked for the matching post that lies `skip`
/// matching posts above `bound`: position `skip`, oldest first, among the
/// matching posts above `bound`.
pub open spec fn newer_answer(posts: Seq<PostEntry>, filter: FilterModel, bound: int, skip: int) -> Option<i32> {
    let above = ids_after(posts, filter, bound);
    if 0 <= skip < above.len() {
        Some(above[skip] as i32)
    } else {
        None
    }
}

} // verus!
