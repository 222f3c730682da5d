//! Tags, their aliases and their implications.
//!
//! A tag is either canonical or an alias of a canonical tag; aliases are
//! kept flat, so that resolving a name is one lookup and can never loop. A
//! canonical tag may imply others. Implications may run in circles: the
//! closure of a set of tags is everything that can be reached from it, and
//! it is computed without visiting a tag twice.

use vstd::prelude::*;
use crate::error::CoreError;
use crate::models::view::Tag;
use crate::names::names_of;
use crate::store::models::UpdateTag;

verus! {

/// One tag, as contracts see it.
pub struct TagNode {
    pub name: Seq<char>,
    /// The canonical tag this one stands for, if it is an alias.
    pub alias_of: Option<usize>,
    /// The tags that a post with this tag is taken to carry as well.
    pub implies: Seq<usize>,
}

/// The canonical tag that `tag` stands for: the target of its alias, or the
/// tag itself.
pub open spec fn canonical(graph: Seq<TagNode>, tag: usize) -> usize {
    match graph[tag as int].alias_of {
        Some(target) => target,
        None => tag,
    }
}

/// What holds of every tag graph: names are unique, aliases point at
/// canonical tags, and implications point at tags of the graph.
pub open spec fn graph_wf(graph: Seq<TagNode>) -> bool {
    &&& forall|i: int, j: int|
        0 <= i < j < graph.len() ==> (#[trigger] graph[i]).name != (#[trigger] graph[j]).name
    &&& forall|i: int|
        0 <= i < graph.len() ==> match (#[trigger] graph[i]).alias_of {
            Some(target) => target < graph.len() && graph[target as int].alias_of is None,
            None => true,
        }
    &&& forall|i: int, k: int|
        0 <= i < graph.len() && 0 <= k < graph[i].implies.len() ==> (#[trigger] graph[i].implies[k])
            < graph.len()
}

/// Whether some tag of the graph has this name.
pub open spec fn has_name(graph: Seq<TagNode>, name: Seq<char>) -> bool {
    exists|i: int| 0 <= i < graph.len() && (#[trigger] graph[i]).name == name
}

/// The tag with this name.
pub open spec fn tag_named(graph: Seq<TagNode>, name: Seq<char>) -> usize {
    choose|i: usize| i < graph.len() && (#[trigger] graph[i as int]).name == name
}

/// Whether `from` directly implies `to`, aliases resolved.
pub open spec fn implies_directly(graph: Seq<TagNode>, from: usize, to: usize) -> bool {
    from < graph.len() && exists|k: int|
        0 <= k < graph[from as int].implies.len() && canonical(graph, #[trigger] graph[from as int].implies[k])
            == to
}

/// Whether `tag` is reached from a tag in `start` by exactly `steps`
/// implications.
pub open spec fn reaches_in(graph: Seq<TagNode>, start: Set<usize>, tag: usize, steps: nat) -> bool
    decreases steps,
{
    if steps == 0 {
        start.contains(tag)
    } else {
        exists|mid: usize|
            reaches_in(graph, start, mid, (steps - 1) as nat) && #[trigger] implies_directly(graph, mid, tag)
    }
}

/// Whether some chain of implications, of whatever length, leads to `tag`
/// from a tag in `start`.
pub open spec fn reachable(graph: Seq<TagNode>, start: Set<usize>, tag: usize) -> bool {
    exists|steps: nat| reaches_in(graph, start, tag, steps)
}

/// The implication closure of `start`: every tag that can be reached from
/// a tag in `start`.
pub open spec fn closure(graph: Seq<TagNode>, start: Set<usize>) -> Set<usize> {
    Set::new(|tag: usize| reachable(graph, start, tag))
}

/// The canonical tags that a list of tag numbers stands for. Numbers that
/// name no tag of the graph stand for nothing.
pub open spec fn seeds(graph: Seq<TagNode>, tags: Seq<usize>) -> Set<usize> {
    Set::new(
        |c: usize|
            exists|k: int| 0 <= k < tags.len() && tags[k] < graph.len() && canonical(graph, #[trigger] tags[k]) == c,
    )
}

/// Whether a set of tags holds every tag that its members imply.
pub open spec fn closed(graph: Seq<TagNode>, tags: Set<usize>) -> bool {
    forall|a: usize, b: usize| tags.contains(a) && implies_directly(graph, a, b) ==> tags.contains(b)
}

/// A closed set that holds `start` holds everything reachable from it.
pub proof fn lemma_closed_set_holds_reachable(
    graph: Seq<TagNode>,
    start: Set<usize>,
    tags: Set<usize>,
    tag: usize,
    steps: nat,
)
    requires
        start.subset_of(tags),
        closed(graph, tags),
        reaches_in(graph, start, tag, steps),
    ensures
        tags.contains(tag),
    decreases steps,
{
    if steps > 0 {
        let mid = choose|mid: usize|
            reaches_in(graph, start, mid, (steps - 1) as nat) && #[trigger] implies_directly(graph, mid, tag);
        lemma_closed_set_holds_reachable(graph, start, tags, mid, (steps - 1) as nat);
    }
}

/// A closure is closed, and it holds what it was taken of.
pub proof fn lemma_closure_is_closed(graph: Seq<TagNode>, start: Set<usize>)
    ensures
        closed(graph, closure(graph, start)),
        start.subset_of(closure(graph, start)),
{
    let all = closure(graph, start);
    assert forall|a: usize, b: usize| all.contains(a) && implies_directly(graph, a, b) implies all.contains(
        b,
    ) by {
        let steps = choose|steps: nat| reaches_in(graph, start, a, steps);
        assert(reaches_in(graph, start, b, steps + 1)) by {
            assert(reaches_in(graph, start, a, ((steps + 1) - 1) as nat));
        }
    }
    assert forall|a: usize| start.contains(a) implies all.contains(a) by {
        assert(reaches_in(graph, start, a, 0));
    }
}

/// The closure of a closed set is the set itself: to expand tags that were
/// expanded before adds nothing.
pub proof fn law_closure_of_closed_set(graph: Seq<TagNode>, tags: Set<usize>)
    requires
        closed(graph, tags),
    ensures
        closure(graph, tags) == tags,
{
    lemma_closure_is_closed(graph, tags);
    assert forall|t: usize| closure(graph, tags).contains(t) implies tags.contains(t) by {
        let steps = choose|steps: nat| reaches_in(graph, tags, t, steps);
        lemma_closed_set_holds_reachable(graph, tags, tags, t, steps);
    }
    assert(closure(graph, tags) =~= tags);
}

/// A closed set holds a set of tags exactly if it holds the closure of that
/// set: to expand the tags a query asks for changes nothing about which
/// posts, with tags expanded under the same graph, answer it.
pub proof fn law_expanded_query_matches_alike(graph: Seq<TagNode>, asked: Set<usize>, carried: Set<usize>)
    requires
        closed(graph, carried),
    ensures
        asked.subset_of(carried) <==> closure(graph, asked).subset_of(carried),
{
    lemma_closure_is_closed(graph, asked);
    if asked.subset_of(carried) {
        assert forall|t: usize| closure(graph, asked).contains(t) implies carried.contains(t) by {
            let steps = choose|steps: nat| reaches_in(graph, asked, t, steps);
            lemma_closed_set_holds_reachable(graph, asked, carried, t, steps);
        }
    }
}

/// Two tags that imply each other and nothing else: the closure of either
/// holds the two of them and no third.
pub proof fn law_cycle_closure(graph: Seq<TagNode>, a: usize, b: usize)
    requires
        graph_wf(graph),
        a < graph.len(),
        b < graph.len(),
        graph[a as int].alias_of is None,
        graph[b as int].alias_of is None,
        graph[a as int].implies == seq![b],
        graph[b as int].implies == seq![a],
    ensures
        closure(graph, set![a]) == set![a, b],
{
    let start = set![a];
    let both = set![a, b];
    assert(closed(graph, both)) by {
        assert forall|x: usize, y: usize| both.contains(x) && implies_directly(graph, x, y) implies both.contains(
            y,
        ) by {
            let k = choose|k: int|
                0 <= k < graph[x as int].implies.len() && canonical(graph, #[trigger] graph[x as int].implies[k])
                    == y;
            assert(k == 0);
        }
    }
    assert forall|t: usize| closure(graph, start).contains(t) implies both.contains(t) by {
        let steps = choose|steps: nat| reaches_in(graph, start, t, steps);
        lemma_closed_set_holds_reachable(graph, start, both, t, steps);
    }
    assert(reaches_in(graph, start, a, 0));
    assert(graph[a as int].implies[0] == b);
    assert(implies_directly(graph, a, b));
    assert(reaches_in(graph, start, b, 1)) by {
        assert(reaches_in(graph, start, a, (1 - 1) as nat));
    }
    assert(closure(graph, start) =~= both);
}

/// A list without repetitions, of numbers below `n`, has at most `n`
/// entries.
pub proof fn lemma_distinct_below(s: Seq<usize>, n: nat)
    requires
        s.no_duplicates(),
        forall|i: int| 0 <= i < s.len() ==> s[i] < n,
    ensures
        s.len() <= n,
    decreases n,
{
    if s.len() == 0 {
    } else if n == 0 {
        assert(s[0] < 0);
    } else {
        let top = (n - 1) as usize;
        if s.contains(top) {
            let idx = choose|i: int| 0 <= i < s.len() && s[i] == top;
            let r = s.remove(idx);
            assert forall|i: int| 0 <= i < r.len() implies r[i] < n - 1 by {
                if i < idx {
                    assert(r[i] == s[i]);
                } else {
                    assert(r[i] == s[i + 1]);
                }
            }
            assert forall|i: int, j: int| 0 <= i < r.len() && 0 <= j < r.len() && i != j implies r[i]
                != r[j] by {
                let a = if i < idx { i } else { i + 1 };
                let b = if j < idx { j } else { j + 1 };
                assert(r[i] == s[a] && r[j] == s[b]);
            }
            lemma_distinct_below(r, (n - 1) as nat);
        } else {
            assert forall|i: int| 0 <= i < s.len() implies s[i] < n - 1 by {
                if s[i] == top {
                    assert(s.contains(top));
                }
            }
            lemma_distinct_below(s, (n - 1) as nat);
        }
    }
}

/// In a well-formed graph a name belongs to one tag only.
pub proof fn lemma_tag_named_is(graph: Seq<TagNode>, name: Seq<char>, tag: usize)
    requires
        graph_wf(graph),
        tag < graph.len(),
        graph[tag as int].name == name,
    ensures
        tag_named(graph, name) == tag,
        has_name(graph, name),
{
    let other = tag_named(graph, name);
    assert(other < graph.len() && graph[other as int].name == name);
    if other < tag {
        assert(graph[other as int].name != graph[tag as int].name);
    } else if tag < other {
        assert(graph[tag as int].name != graph[other as int].name);
    }
}

/// A canonical tag without implications.
pub open spec fn fresh_tag(name: Seq<char>) -> TagNode {
    TagNode { name, alias_of: None, implies: Seq::empty() }
}

/// The graph after each of `names` that no tag had has been given a fresh
/// tag, in the order of the names.
pub open spec fn with_names(graph: Seq<TagNode>, names: Seq<Seq<char>>) -> Seq<TagNode>
    decreases names.len(),
{
    if names.len() == 0 {
        graph
    } else {
        let front = with_names(graph, names.drop_last());
        if has_name(front, names.last()) {
            front
        } else {
            front.push(fresh_tag(names.last()))
        }
    }
}

/// What one name does to a graph.
pub proof fn lemma_with_one_name(graph: Seq<TagNode>, name: Seq<char>)
    ensures
        with_names(graph, seq![name]) == if has_name(graph, name) {
            graph
        } else {
            graph.push(fresh_tag(name))
        },
{
    reveal_with_fuel(with_names, 2);
    assert(seq![name].drop_last() =~= Seq::<Seq<char>>::empty());
    assert(seq![name].last() == name);
}

/// The tags that the given names have in the graph.
pub open spec fn tags_named(graph: Seq<TagNode>, names: Seq<Seq<char>>) -> Seq<usize> {
    Seq::new(names.len(), |k: int| tag_named(graph, names[k]))
}

/// The canonical tags that the given names stand for in the graph.
pub open spec fn canonical_tags(graph: Seq<TagNode>, names: Seq<Seq<char>>) -> Seq<usize> {
    Seq::new(names.len(), |k: int| canonical(graph, tag_named(graph, names[k])))
}

/// Whether every one of the names is the name of a tag.
pub open spec fn all_named(graph: Seq<TagNode>, names: Seq<Seq<char>>) -> bool {
    forall|k: int| 0 <= k < names.len() ==> has_name(graph, #[trigger] names[k])
}

/// Tags keep their numbers: a graph that has grown by fresh tags still
/// holds the tags it held, as they were, and it holds a tag for each of the
/// names.
pub proof fn law_tags_are_kept(graph: Seq<TagNode>, names: Seq<Seq<char>>)
    requires
        graph_wf(graph),
    ensures
        graph_wf(with_names(graph, names)),
        graph.is_prefix_of(with_names(graph, names)),
        all_named(with_names(graph, names), names),
    decreases names.len(),
{
    if names.len() > 0 {
        let front = with_names(graph, names.drop_last());
        law_tags_are_kept(graph, names.drop_last());
        let grown = with_names(graph, names);
        if !has_name(front, names.last()) {
            lemma_push_fresh_keeps_wf(front, names.last());
            assert(grown[front.len() as int].name == names.last());
        }
        assert(front.is_prefix_of(grown));
        assert(graph =~= grown.subrange(0, graph.len() as int));
        assert forall|k: int| 0 <= k < names.len() implies has_name(grown, #[trigger] names[k]) by {
            if k < names.len() - 1 {
                assert(names.drop_last()[k] == names[k]);
                let i = choose|i: int| 0 <= i < front.len() && (#[trigger] front[i]).name == names[k];
                assert(grown[i].name == names[k]);
            } else if has_name(front, names.last()) {
            } else {
                assert(grown[front.len() as int].name == names[k]);
            }
        }
    }
}

/// A fresh tag with a name that no tag has keeps a graph well formed.
pub proof fn lemma_push_fresh_keeps_wf(graph: Seq<TagNode>, name: Seq<char>)
    requires
        graph_wf(graph),
        !has_name(graph, name),
    ensures
        graph_wf(graph.push(fresh_tag(name))),
{
    let grown = graph.push(fresh_tag(name));
    assert forall|i: int, j: int| 0 <= i < j < grown.len() implies (#[trigger] grown[i]).name != (
    #[trigger] grown[j]).name by {
        if j < graph.len() {
            assert(grown[i] == graph[i] && grown[j] == graph[j]);
        } else {
            assert(grown[i] == graph[i]);
        }
    }
    assert forall|i: int| 0 <= i < grown.len() implies match (#[trigger] grown[i]).alias_of {
        Some(target) => target < grown.len() && grown[target as int].alias_of is None,
        None => true,
    } by {
        if i < graph.len() {
            assert(grown[i] == graph[i]);
            if graph[i].alias_of is Some {
                let target = graph[i].alias_of.unwrap();
                assert(grown[target as int] == graph[target as int]);
            }
        }
    }
    assert forall|i: int, k: int| 0 <= i < grown.len() && 0 <= k < grown[i].implies.len() implies (
    #[trigger] grown[i].implies[k]) < grown.len() by {
        if i < graph.len() {
            assert(grown[i] == graph[i]);
        }
    }
}

/// The graph after `from` has been made to imply each of the named tags,
/// in the order of the names; a name that no tag has is given a fresh tag
/// first.
pub open spec fn with_implied(graph: Seq<TagNode>, from: usize, names: Seq<Seq<char>>) -> Seq<TagNode>
    decreases names.len(),
{
    if names.len() == 0 {
        graph
    } else {
        let front = with_names(with_implied(graph, from, names.drop_last()), seq![names.last()]);
        with_implication(front, from, tag_named(front, names.last()))
    }
}

/// The graph after `from` has been made to imply none of the named tags.
/// A name that no tag has changes nothing.
pub open spec fn without_implied(graph: Seq<TagNode>, from: usize, names: Seq<Seq<char>>) -> Seq<TagNode>
    decreases names.len(),
{
    if names.len() == 0 {
        graph
    } else {
        let front = without_implied(graph, from, names.drop_last());
        if has_name(front, names.last()) {
            without_implication(front, from, tag_named(front, names.last()))
        } else {
            front
        }
    }
}

/// Whether the tag `tag` can be made an alias of the tag named `name`: not
/// where that name stands for `tag` itself.
pub open spec fn alias_allowed(graph: Seq<TagNode>, tag: usize, name: Seq<char>) -> bool {
    !(has_name(graph, name) && canonical(graph, tag_named(graph, name)) == tag)
}

/// The graph after the alias of `tag` has been set as a change asks: to
/// the canonical tag that the name stands for, or to nothing.
pub open spec fn with_alias_named(graph: Seq<TagNode>, tag: usize, name: Option<Seq<char>>) -> Seq<TagNode> {
    match name {
        None => graph.update(tag as int, TagNode { alias_of: None, ..graph[tag as int] }),
        Some(n) => {
            let grown = with_names(graph, seq![n]);
            with_alias(grown, tag, canonical(grown, tag_named(grown, n)))
        },
    }
}

/// An optional name as contracts see it.
pub open spec fn name_view(name: Option<String>) -> Option<Seq<char>> {
    match name {
        Some(s) => Some(s@),
        None => None,
    }
}

/// The graph after a change to the tag `tag`: its alias is set, then the
/// implications that the change adds are added, then those it takes away
/// are taken away.
pub open spec fn tag_updated(graph: Seq<TagNode>, tag: usize, update: UpdateTag) -> Seq<TagNode> {
    without_implied(
        with_implied(
            with_alias_named(graph, tag, name_view(update.alias_of_tag)),
            tag,
            names_of(update.add_implied_tags@),
        ),
        tag,
        names_of(update.remove_implied_tags@),
    )
}

/// Whether `shown` shows the tag `tag` of the graph: its name, the name of
/// the tag it is an alias of, and the names of the tags it implies.
pub open spec fn shows(shown: Tag, graph: Seq<TagNode>, tag: usize) -> bool {
    &&& shown.id == tag
    &&& shown.tag@ == graph[tag as int].name
    &&& name_view(shown.alias_of_tag) == match graph[tag as int].alias_of {
        Some(target) => Some(graph[target as int].name),
        None => None,
    }
    &&& shown.implied_tags@.len() == graph[tag as int].implies.len()
    &&& forall|k: int|
        0 <= k < shown.implied_tags@.len() ==> (#[trigger] shown.implied_tags@[k])@ == graph[graph[tag as int].implies[k] as int].name
}

/// One tag as the graph holds it.
pub struct TagEntry {
    pub name: String,
    pub alias_of: Option<usize>,
    pub implies: Vec<usize>,
}

impl View for TagEntry {
    type V = TagNode;

    open spec fn view(&self) -> TagNode {
        TagNode { name: self.name@, alias_of: self.alias_of, implies: self.implies@ }
    }
}

/// The tags of a catalogue. A tag is known by its number, which it keeps
/// for good: tags are added, never taken away.
pub struct TagGraph {
    entries: Vec<TagEntry>,
}

impl View for TagGraph {
    type V = Seq<TagNode>;

    closed spec fn view(&self) -> Seq<TagNode> {
        Seq::new(self.entries@.len(), |i: int| self.entries@[i]@)
    }
}

/// The graph with `tag`, and every alias of `tag`, made an alias of
/// `target`.
pub open spec fn with_alias(graph: Seq<TagNode>, tag: usize, target: usize) -> Seq<TagNode> {
    Seq::new(
        graph.len(),
        |i: int|
            if i == tag || graph[i].alias_of == Some(tag) {
                TagNode { alias_of: Some(target), ..graph[i] }
            } else {
                graph[i]
            },
    )
}

/// The graph with `to` among the tags that `from` implies.
pub open spec fn with_implication(graph: Seq<TagNode>, from: usize, to: usize) -> Seq<TagNode> {
    if graph[from as int].implies.contains(to) {
        graph
    } else {
        graph.update(from as int, TagNode { implies: graph[from as int].implies.push(to), ..graph[from as int] })
    }
}

/// The test that every tag but `tag` passes.
pub open spec fn other_than(tag: usize) -> spec_fn(usize) -> bool {
    |t: usize| t != tag
}

/// The graph with `to` no longer among the tags that `from` implies.
pub open spec fn without_implication(graph: Seq<TagNode>, from: usize, to: usize) -> Seq<TagNode> {
    graph.update(
        from as int,
        TagNode { implies: graph[from as int].implies.filter(other_than(to)), ..graph[from as int] },
    )
}

impl TagGraph {
    /// The graph keeps names unique, aliases flat and implications inside.
    pub open spec fn wf(&self) -> bool {
        graph_wf(self@)
    }

    /// A graph without tags.
    pub fn new() -> (r: TagGraph)
        ensures
            r.wf(),
            r@ == Seq::<TagNode>::empty(),
    {
        let r = TagGraph { entries: Vec::new() };
        assert(r@ =~= Seq::<TagNode>::empty());
        r
    }

    /// The number of tags.
    pub fn len(&self) -> (n: usize)
        ensures
            n == self@.len(),
    {
        self.entries.len()
    }

    /// The tag as the graph holds it.
    pub fn entry(&self, tag: usize) -> (r: Option<&TagEntry>)
        ensures
            r is Some == (tag < self@.len()),
            r is Some ==> r.unwrap()@ == self@[tag as int],
    {
        if tag < self.entries.len() {
            Some(&self.entries[tag])
        } else {
            None
        }
    }

    /// The number of the tag with this name, alias or not.
    pub fn find(&self, name: &str) -> (r: Option<usize>)
        ensures
            r is Some == has_name(self@, name@),
            r is Some ==> r.unwrap() < self@.len() && self@[r.unwrap() as int].name == name@,
            self.wf() && r is Some ==> r.unwrap() == tag_named(self@, name@),
    {
        let key = name.to_owned();
        let mut i: usize = 0;
        while i < self.entries.len()
            invariant
                i <= self.entries.len(),
                key@ == name@,
                forall|j: int| 0 <= j < i ==> (#[trigger] self@[j]).name != name@,
            decreases self.entries.len() - i,
        {
            if self.entries[i].name == key {
                proof {
                    assert(self@[i as int].name == name@);
                    if self.wf() {
                        let other = tag_named(self@, name@);
                        assert(other < self@.len() && self@[other as int].name == name@);
                        if other < i {
                            assert(self@[other as int].name != self@[i as int].name);
                        } else if i < other {
                            assert(self@[i as int].name != self@[other as int].name);
                        }
                    }
                }
                return Some(i);
            }
            i += 1;
        }
        None
    }

    /// The canonical tag that `tag` stands for.
    pub fn canonical_of(&self, tag: usize) -> (c: usize)
        requires
            self.wf(),
            tag < self@.len(),
        ensures
            c == canonical(self@, tag),
            c < self@.len(),
            self@[c as int].alias_of is None,
    {
        assert(self@[tag as int] == self.entries@[tag as int]@);
        match self.entries[tag].alias_of {
            Some(target) => target,
            None => tag,
        }
    }

    /// Resolves a name to its canonical tag. The name of an alias gives the
    /// tag it stands for; a name that no tag has is an error.
    pub fn canonicalize(&self, name: &str) -> (r: Result<usize, CoreError>)
        requires
            self.wf(),
        ensures
            r is Ok == has_name(self@, name@),
            r matches Ok(c) ==> c == canonical(self@, tag_named(self@, name@)) && c < self@.len()
                && self@[c as int].alias_of is None,
            r matches Err(e) ==> e == CoreError::UnknownTag,
    {
        match self.find(name) {
            Some(tag) => Ok(self.canonical_of(tag)),
            None => Err(CoreError::UnknownTag),
        }
    }

    /// The implication closure of `tags`, each canonical tag once: the tags
    /// themselves, aliases resolved, and every tag that a chain of
    /// implications leads to. Implications that run in a circle are
    /// followed once.
    pub fn expand_implications(&self, tags: &Vec<usize>) -> (r: Vec<usize>)
        requires
            self.wf(),
        ensures
            r@.no_duplicates(),
            r@.to_set() == closure(self@, seeds(self@, tags@)),
            forall|i: int| 0 <= i < r@.len() ==> r@[i] < self@.len() && self@[r@[i] as int].alias_of is None,
    {
        let n = self.entries.len();
        let ghost graph = self@;
        let ghost start = seeds(graph, tags@);
        let mut seen: Vec<bool> = Vec::new();
        let mut i: usize = 0;
        while i < n
            invariant
                i <= n,
                seen@.len() == i,
                forall|j: int| 0 <= j < i ==> !seen@[j],
            decreases n - i,
        {
            seen.push(false);
            i += 1;
        }
        let mut order: Vec<usize> = Vec::new();
        let mut k: usize = 0;
        while k < tags.len()
            invariant
                self.wf(),
                graph == self@,
                n == graph.len(),
                start == seeds(graph, tags@),
                k <= tags.len(),
                seen@.len() == n,
                order@.no_duplicates(),
                forall|i: int| 0 <= i < order@.len() ==> order@[i] < n && seen@[order@[i] as int],
                forall|c: int| 0 <= c < n && seen@[c] ==> order@.contains(c as usize),
                forall|i: int| 0 <= i < order@.len() ==> start.contains(order@[i]),
                forall|i: int| 0 <= i < order@.len() ==> graph[order@[i] as int].alias_of is None,
                forall|j: int|
                    0 <= j < k && tags@[j] < n ==> seen@[canonical(graph, #[trigger] tags@[j]) as int],
            decreases tags.len() - k,
        {
            let t = tags[k];
            if t < n {
                let c = self.canonical_of(t);
                if !seen[c] {
                    let ghost before = order@;
                    let ghost marks = seen@;
                    seen.set(c, true);
                    order.push(c);
                    proof {
                        assert forall|x: int| 0 <= x < n && seen@[x] implies order@.contains(x as usize) by {
                            if x == c {
                                assert(order@[before.len() as int] == c);
                            } else {
                                assert(marks[x]);
                                let w = choose|w: int| 0 <= w < before.len() && before[w] == x as usize;
                                assert(order@[w] == x as usize);
                            }
                        }
                    }
                }
            }
            k += 1;
        }
        proof {
            assert forall|i: int| 0 <= i < order@.len() implies reachable(graph, start, #[trigger] order@[i]) by {
                assert(reaches_in(graph, start, order@[i], 0));
            }
        }
        let mut head: usize = 0;
        while head < order.len()
            invariant
                self.wf(),
                graph == self@,
                n == graph.len(),
                start == seeds(graph, tags@),
                seen@.len() == n,
                head <= order@.len(),
                order@.no_duplicates(),
                forall|i: int| 0 <= i < order@.len() ==> order@[i] < n && seen@[order@[i] as int],
                forall|c: int| 0 <= c < n && seen@[c] ==> order@.contains(c as usize),
                forall|i: int| 0 <= i < order@.len() ==> reachable(graph, start, #[trigger] order@[i]),
                forall|i: int| 0 <= i < order@.len() ==> graph[order@[i] as int].alias_of is None,
                forall|j: int|
                    0 <= j < tags@.len() && tags@[j] < n ==> seen@[canonical(graph, #[trigger] tags@[j]) as int],
                forall|i: int, e: int|
                    0 <= i < head && 0 <= e < graph[order@[i] as int].implies.len() ==> seen@[canonical(
                        graph,
                        #[trigger] graph[order@[i] as int].implies[e],
                    ) as int],
            decreases n - head,
        {
            proof {
                lemma_distinct_below(order@, n as nat);
            }
            let v = order[head];
            assert(graph[v as int] == self.entries@[v as int]@);
            let m = self.entries[v].implies.len();
            let mut e: usize = 0;
            while e < m
                invariant
                    self.wf(),
                    graph == self@,
                    n == graph.len(),
                    start == seeds(graph, tags@),
                    seen@.len() == n,
                    head < order@.len(),
                    v == order@[head as int],
                    v < n,
                    m == graph[v as int].implies.len(),
                    graph[v as int] == self.entries@[v as int]@,
                    e <= m,
                    order@.no_duplicates(),
                    forall|i: int| 0 <= i < order@.len() ==> order@[i] < n && seen@[order@[i] as int],
                    forall|c: int| 0 <= c < n && seen@[c] ==> order@.contains(c as usize),
                    forall|i: int| 0 <= i < order@.len() ==> reachable(graph, start, #[trigger] order@[i]),
                    forall|i: int| 0 <= i < order@.len() ==> graph[order@[i] as int].alias_of is None,
                    forall|j: int|
                        0 <= j < tags@.len() && tags@[j] < n ==> seen@[canonical(
                            graph,
                            #[trigger] tags@[j],
                        ) as int],
                    forall|i: int, e: int|
                        0 <= i < head && 0 <= e < graph[order@[i] as int].implies.len() ==> seen@[canonical(
                            graph,
                            #[trigger] graph[order@[i] as int].implies[e],
                        ) as int],
                    forall|d: int|
                        0 <= d < e ==> seen@[canonical(graph, #[trigger] graph[v as int].implies[d]) as int],
                decreases m - e,
            {
                let target = self.entries[v].implies[e];
                assert(target == graph[v as int].implies[e as int]);
                let u = self.canonical_of(target);
                if !seen[u] {
                    let ghost before = order@;
                    let ghost marks = seen@;
                    seen.set(u, true);
                    order.push(u);
                    proof {
                        assert forall|x: int| 0 <= x < n && seen@[x] implies order@.contains(x as usize) by {
                            if x == u {
                                assert(order@[before.len() as int] == u);
                            } else {
                                assert(marks[x]);
                                let w = choose|w: int| 0 <= w < before.len() && before[w] == x as usize;
                                assert(order@[w] == x as usize);
                            }
                        }
                        assert forall|i: int| 0 <= i < order@.len() implies reachable(
                            graph,
                            start,
                            #[trigger] order@[i],
                        ) by {
                            if i < before.len() {
                                assert(order@[i] == before[i]);
                            } else {
                                let steps = choose|steps: nat| reaches_in(graph, start, v, steps);
                                assert(implies_directly(graph, v, u));
                                assert(reaches_in(graph, start, v, ((steps + 1) - 1) as nat));
                                assert(reaches_in(graph, start, u, steps + 1));
                            }
                        }
                        assert forall|i: int, e: int|
                            0 <= i < head && 0 <= e < graph[order@[i] as int].implies.len() implies seen@[canonical(
                            graph,
                            #[trigger] graph[order@[i] as int].implies[e],
                        ) as int] by {
                            assert(order@[i] == before[i]);
                            assert(marks[canonical(graph, graph[before[i] as int].implies[e]) as int]);
                        }
                    }
                }
                e += 1;
            }
            head += 1;
        }
        proof {
            let found = order@.to_set();
            assert(start.subset_of(found)) by {
                assert forall|c: usize| start.contains(c) implies found.contains(c) by {
                    let j = choose|j: int|
                        0 <= j < tags@.len() && tags@[j] < graph.len() && canonical(graph, #[trigger] tags@[j])
                            == c;
                    assert(seen@[canonical(graph, tags@[j]) as int]);
                    assert(order@.contains(c));
                }
            }
            assert(closed(graph, found)) by {
                assert forall|a: usize, b: usize| found.contains(a) && implies_directly(
                    graph,
                    a,
                    b,
                ) implies found.contains(b) by {
                    let i = choose|i: int| 0 <= i < order@.len() && order@[i] == a;
                    let d = choose|d: int|
                        0 <= d < graph[a as int].implies.len() && canonical(
                            graph,
                            #[trigger] graph[a as int].implies[d],
                        ) == b;
                    assert(seen@[canonical(graph, graph[order@[i] as int].implies[d]) as int]);
                    assert(graph[a as int].implies[d] < n);
                    assert(order@.contains(b));
                }
            }
            assert forall|t: usize| closure(graph, start).contains(t) implies found.contains(t) by {
                let steps = choose|steps: nat| reaches_in(graph, start, t, steps);
                lemma_closed_set_holds_reachable(graph, start, found, t, steps);
            }
            assert forall|t: usize| found.contains(t) implies closure(graph, start).contains(t) by {
                let i = choose|i: int| 0 <= i < order@.len() && order@[i] == t;
                assert(reachable(graph, start, order@[i]));
            }
            assert(found =~= closure(graph, start));
        }
        order
    }

    /// The number of the tag with this name; a name that no tag has yet is
    /// given a new canonical tag without implications.
    pub fn ensure_tag(&mut self, name: &str) -> (tag: usize)
        requires
            old(self).wf(),
        ensures
            final(self).wf(),
            tag < final(self)@.len(),
            tag == tag_named(final(self)@, name@),
            final(self)@[tag as int].name == name@,
            has_name(old(self)@, name@) ==> final(self)@ == old(self)@,
            !has_name(old(self)@, name@) ==> final(self)@ == old(self)@.push(fresh_tag(name@)),
    {
        match self.find(name) {
            Some(tag) => tag,
            None => {
                let ghost before = self@;
                let tag = self.entries.len();
                self.entries.push(TagEntry { name: name.to_owned(), alias_of: None, implies: Vec::new() });
                proof {
                    assert(self.entries@[tag as int]@ == fresh_tag(name@));
                    assert(self@ =~= before.push(fresh_tag(name@)));
                    lemma_push_fresh_keeps_wf(before, name@);
                    let other = tag_named(self@, name@);
                    assert(self@[tag as int].name == name@);
                    assert(other < self@.len() && self@[other as int].name == name@);
                    if other < tag {
                        assert(self@[other as int].name != self@[tag as int].name);
                    }
                }
                tag
            },
        }
    }

    /// Gives every name that no tag has a fresh tag, and returns the tags
    /// of all the names, in their order.
    pub fn ensure_all(&mut self, names: &Vec<String>) -> (tags: Vec<usize>)
        requires
            old(self).wf(),
        ensures
            final(self).wf(),
            final(self)@ == with_names(old(self)@, names_of(names@)),
            tags@ == tags_named(final(self)@, names_of(names@)),
            forall|k: int| 0 <= k < tags@.len() ==> tags@[k] < final(self)@.len(),
    {
        let mut tags: Vec<usize> = Vec::new();
        let mut i: usize = 0;
        let ghost all = names_of(names@);
        assert(all.take(0) =~= Seq::<Seq<char>>::empty());
        while i < names.len()
            invariant
                i <= names.len(),
                all == names_of(names@),
                self.wf(),
                graph_wf(old(self)@),
                self@ == with_names(old(self)@, all.take(i as int)),
                tags@.len() == i,
                forall|k: int|
                    0 <= k < i ==> (#[trigger] tags@[k]) < self@.len() && self@[tags@[k] as int].name == all[k],
            decreases names.len() - i,
        {
            let ghost before = self@;
            let ghost found = tags@;
            proof {
                assert(all.take(i + 1).drop_last() =~= all.take(i as int));
                assert(all.take(i + 1).last() == names@[i as int]@);
            }
            let tag = self.ensure_tag(names[i].as_str());
            tags.push(tag);
            proof {
                assert forall|k: int| 0 <= k < i + 1 implies (#[trigger] tags@[k]) < self@.len()
                    && self@[tags@[k] as int].name == all[k] by {
                    if k < i {
                        assert(tags@[k] == found[k]);
                        assert(self@[found[k] as int] == before[found[k] as int]);
                    }
                }
            }
            i += 1;
        }
        proof {
            assert(all.take(i as int) =~= all);
            let goal = tags_named(self@, all);
            assert forall|k: int| 0 <= k < tags@.len() implies tags@[k] == goal[k] by {
                lemma_tag_named_is(self@, all[k], tags@[k]);
            }
            assert(tags@ =~= goal);
        }
        tags
    }

    /// The canonical tags that the names stand for, in their order. A name
    /// that no tag has is an error.
    pub fn resolve_all(&self, names: &Vec<String>) -> (r: Result<Vec<usize>, CoreError>)
        requires
            self.wf(),
        ensures
            r is Ok == all_named(self@, names_of(names@)),
            r matches Ok(tags) ==> tags@ == canonical_tags(self@, names_of(names@)) && forall|k: int|
                0 <= k < tags@.len() ==> tags@[k] < self@.len(),
            r matches Err(e) ==> e == CoreError::UnknownTag,
    {
        let mut tags: Vec<usize> = Vec::new();
        let mut i: usize = 0;
        let ghost all = names_of(names@);
        while i < names.len()
            invariant
                i <= names.len(),
                all == names_of(names@),
                self.wf(),
                tags@.len() == i,
                forall|k: int| 0 <= k < i ==> has_name(self@, #[trigger] all[k]),
                forall|k: int|
                    0 <= k < i ==> (#[trigger] tags@[k]) == canonical(self@, tag_named(self@, all[k]))
                        && tags@[k] < self@.len(),
            decreases names.len() - i,
        {
            match self.canonicalize(names[i].as_str()) {
                Ok(c) => {
                    tags.push(c);
                },
                Err(e) => {
                    assert(!has_name(self@, all[i as int]));
                    return Err(e);
                },
            }
            i += 1;
        }
        assert(tags@ =~= canonical_tags(self@, all));
        Ok(tags)
    }

    /// The names of the given tags, in their order.
    pub fn names_for(&self, tags: &Vec<usize>) -> (r: Vec<String>)
        requires
            forall|k: int| 0 <= k < tags@.len() ==> tags@[k] < self@.len(),
        ensures
            r@.len() == tags@.len(),
            forall|k: int| 0 <= k < r@.len() ==> (#[trigger] r@[k])@ == self@[tags@[k] as int].name,
    {
        let mut r: Vec<String> = Vec::new();
        let mut i: usize = 0;
        while i < tags.len()
            invariant
                i <= tags.len(),
                r@.len() == i,
                forall|k: int| 0 <= k < tags@.len() ==> tags@[k] < self@.len(),
                forall|k: int| 0 <= k < i ==> (#[trigger] r@[k])@ == self@[tags@[k] as int].name,
            decreases tags.len() - i,
        {
            let t = tags[i];
            assert(self@[t as int] == self.entries@[t as int]@);
            r.push(self.entries[t].name.clone());
            i += 1;
        }
        r
    }

    /// The tag `tag` as callers see it. `None` where the number names no
    /// tag, or is too large to be shown.
    pub fn view_tag(&self, tag: usize) -> (r: Option<Tag>)
        requires
            self.wf(),
        ensures
            r is Some == (tag < self@.len() && tag <= i32::MAX),
            r matches Some(shown) ==> shows(shown, self@, tag),
    {
        if tag >= self.entries.len() || tag > i32::MAX as usize {
            return None;
        }
        assert(self@[tag as int] == self.entries@[tag as int]@);
        let entry = &self.entries[tag];
        let alias_of_tag = match entry.alias_of {
            Some(target) => {
                assert(self@[target as int] == self.entries@[target as int]@);
                Some(self.entries[target].name.clone())
            },
            None => None,
        };
        assert forall|k: int| 0 <= k < entry.implies@.len() implies entry.implies@[k] < self@.len() by {
            assert(self@[tag as int].implies[k] == entry.implies@[k]);
        }
        let implied_tags = self.names_for(&entry.implies);
        Some(Tag { id: tag as i32, tag: entry.name.clone(), alias_of_tag, implied_tags })
    }

    /// Changes the tag `tag`: sets its alias, adds implications and takes
    /// implications away, in this order. Names that no tag has yet are
    /// given fresh tags, but for those of implications to take away.
    /// Nothing changes, and the answer is `false`, where the number names
    /// no tag and where the tag would become an alias of itself.
    pub fn update_tag(&mut self, tag: usize, update: &UpdateTag) -> (ok: bool)
        requires
            old(self).wf(),
        ensures
            final(self).wf(),
            ok == (tag < old(self)@.len() && (update.alias_of_tag is Some ==> alias_allowed(
                old(self)@,
                tag,
                update.alias_of_tag.unwrap()@,
            ))),
            ok ==> final(self)@ == tag_updated(old(self)@, tag, *update),
            !ok ==> final(self)@ == old(self)@,
    {
        if tag >= self.entries.len() {
            return false;
        }
        match &update.alias_of_tag {
            None => {
                let cleared = self.clear_alias(tag);
                assert(cleared);
            },
            Some(name) => {
                match self.find(name.as_str()) {
                    Some(found) => {
                        if self.canonical_of(found) == tag {
                            return false;
                        }
                    },
                    None => {},
                }
                let ghost before = self@;
                let target = self.ensure_tag(name.as_str());
                proof {
                    lemma_with_one_name(before, name@);
                    assert(self@ == with_names(before, seq![name@]));
                    if has_name(before, name@) {
                    } else {
                        assert(target == before.len());
                        assert(canonical(self@, target) == target);
                    }
                }
                let aliased = self.set_alias(tag, target);
                assert(aliased);
            },
        }
        let ghost aliased = self@;
        let mut i: usize = 0;
        let ghost added = names_of(update.add_implied_tags@);
        assert(added.take(0) =~= Seq::<Seq<char>>::empty());
        while i < update.add_implied_tags.len()
            invariant
                i <= update.add_implied_tags.len(),
                added == names_of(update.add_implied_tags@),
                self.wf(),
                tag < self@.len(),
                self@ == with_implied(aliased, tag, added.take(i as int)),
            decreases update.add_implied_tags.len() - i,
        {
            let ghost before = self@;
            proof {
                assert(added.take(i + 1).drop_last() =~= added.take(i as int));
                assert(added.take(i + 1).last() == update.add_implied_tags@[i as int]@);
            }
            let name = update.add_implied_tags[i].as_str();
            let to = self.ensure_tag(name);
            proof {
                lemma_with_one_name(before, name@);
                assert(self@ == with_names(before, seq![name@]));
            }
            let done = self.add_implication(tag, to);
            assert(done);
            i += 1;
        }
        assert(added.take(i as int) =~= added);
        let ghost grown = self@;
        let mut k: usize = 0;
        let ghost dropped = names_of(update.remove_implied_tags@);
        assert(dropped.take(0) =~= Seq::<Seq<char>>::empty());
        while k < update.remove_implied_tags.len()
            invariant
                k <= update.remove_implied_tags.len(),
                dropped == names_of(update.remove_implied_tags@),
                self.wf(),
                tag < self@.len(),
                self@ == without_implied(grown, tag, dropped.take(k as int)),
            decreases update.remove_implied_tags.len() - k,
        {
            proof {
                assert(dropped.take(k + 1).drop_last() =~= dropped.take(k as int));
                assert(dropped.take(k + 1).last() == update.remove_implied_tags@[k as int]@);
            }
            match self.find(update.remove_implied_tags[k].as_str()) {
                Some(to) => {
                    let done = self.remove_implication(tag, to);
                    assert(done);
                },
                None => {},
            }
            k += 1;
        }
        assert(dropped.take(k as int) =~= dropped);
        true
    }

    /// Makes `tag` an alias of the canonical tag that `target` stands for.
    /// Tags that were aliases of `tag` follow it, so that aliases stay flat.
    /// Nothing changes, and the answer is `false`, where a number names no
    /// tag or where `target` stands for `tag` itself.
    pub fn set_alias(&mut self, tag: usize, target: usize) -> (ok: bool)
        requires
            old(self).wf(),
        ensures
            final(self).wf(),
            ok == (tag < old(self)@.len() && target < old(self)@.len() && canonical(old(self)@, target) != tag),
            ok ==> final(self)@ == with_alias(old(self)@, tag, canonical(old(self)@, target)),
            !ok ==> final(self)@ == old(self)@,
    {
        let n = self.entries.len();
        if tag >= n || target >= n {
            return false;
        }
        let c = self.canonical_of(target);
        if c == tag {
            return false;
        }
        let ghost before = self@;
        let ghost goal = with_alias(before, tag, c);
        let mut i: usize = 0;
        while i < n
            invariant
                i <= n,
                n == self.entries@.len(),
                n == before.len(),
                graph_wf(before),
                tag < n,
                c < n,
                c != tag,
                before[c as int].alias_of is None,
                goal == with_alias(before, tag, c),
                forall|j: int| 0 <= j < i ==> (#[trigger] self.entries@[j])@ == goal[j],
                forall|j: int| i <= j < n ==> (#[trigger] self.entries@[j])@ == before[j],
            decreases n - i,
        {
            let follows = match self.entries[i].alias_of {
                Some(t) => t == tag,
                None => false,
            };
            if i == tag || follows {
                let ghost snapshot = self.entries@;
                let entry = &self.entries[i];
                let updated = TagEntry {
                    name: entry.name.clone(),
                    alias_of: Some(c),
                    implies: entry.implies.clone(),
                };
                assert(updated.implies@ =~= entry.implies@);
                self.entries.set(i, updated);
                assert(self.entries@[i as int]@ == goal[i as int]);
            }
            i += 1;
        }
        proof {
            assert(self@ =~= goal);
            assert(graph_wf(goal)) by {
                assert forall|a: int, b: int| 0 <= a < b < goal.len() implies (#[trigger] goal[a]).name != (
                #[trigger] goal[b]).name by {
                    assert(goal[a].name == before[a].name && goal[b].name == before[b].name);
                }
                assert forall|a: int| 0 <= a < goal.len() implies match (#[trigger] goal[a]).alias_of {
                    Some(t) => t < goal.len() && goal[t as int].alias_of is None,
                    None => true,
                } by {
                    if a == tag || before[a].alias_of == Some(tag) {
                        assert(goal[a].alias_of == Some(c));
                        assert(goal[c as int] == before[c as int]);
                    } else {
                        assert(goal[a] == before[a]);
                        if before[a].alias_of is Some {
                            let t = before[a].alias_of.unwrap();
                            assert(t != tag);
                            assert(before[t as int].alias_of is None);
                            assert(goal[t as int] == before[t as int]);
                        }
                    }
                }
                assert forall|a: int, k: int| 0 <= a < goal.len() && 0 <= k < goal[a].implies.len() implies (
                #[trigger] goal[a].implies[k]) < goal.len() by {
                    assert(goal[a].implies == before[a].implies);
                }
            }
        }
        true
    }

    /// Makes `tag` canonical again. The answer is `false` where the number
    /// names no tag.
    pub fn clear_alias(&mut self, tag: usize) -> (ok: bool)
        requires
            old(self).wf(),
        ensures
            final(self).wf(),
            ok == (tag < old(self)@.len()),
            ok ==> final(self)@ == old(self)@.update(
                tag as int,
                TagNode { alias_of: None, ..old(self)@[tag as int] },
            ),
            !ok ==> final(self)@ == old(self)@,
    {
        if tag >= self.entries.len() {
            return false;
        }
        let ghost before = self@;
        let entry = &self.entries[tag];
        let updated = TagEntry { name: entry.name.clone(), alias_of: None, implies: entry.implies.clone() };
        assert(updated.implies@ =~= entry.implies@);
        self.entries.set(tag, updated);
        proof {
            let goal = before.update(tag as int, TagNode { alias_of: None, ..before[tag as int] });
            assert(self@ =~= goal);
            assert(graph_wf(goal)) by {
                assert forall|a: int, b: int| 0 <= a < b < goal.len() implies (#[trigger] goal[a]).name != (
                #[trigger] goal[b]).name by {
                    assert(goal[a].name == before[a].name && goal[b].name == before[b].name);
                }
                assert forall|a: int| 0 <= a < goal.len() implies match (#[trigger] goal[a]).alias_of {
                    Some(t) => t < goal.len() && goal[t as int].alias_of is None,
                    None => true,
                } by {
                    if a != tag {
                        assert(goal[a] == before[a]);
                        if before[a].alias_of is Some {
                            let t = before[a].alias_of.unwrap();
                            assert(before[t as int].alias_of is None);
                        }
                    }
                }
                assert forall|a: int, k: int| 0 <= a < goal.len() && 0 <= k < goal[a].implies.len() implies (
                #[trigger] goal[a].implies[k]) < goal.len() by {
                    assert(goal[a].implies == before[a].implies);
                }
            }
        }
        true
    }

    /// Lets `from` imply `to`. An implication that is there already is not
    /// added again. The answer is `false`, and nothing changes, where a
    /// number names no tag.
    pub fn add_implication(&mut self, from: usize, to: usize) -> (ok: bool)
        requires
            old(self).wf(),
        ensures
            final(self).wf(),
            ok == (from < old(self)@.len() && to < old(self)@.len()),
            ok ==> final(self)@ == with_implication(old(self)@, from, to),
            !ok ==> final(self)@ == old(self)@,
    {
        let n = self.entries.len();
        if from >= n || to >= n {
            return false;
        }
        let ghost before = self@;
        assert(before[from as int] == self.entries@[from as int]@);
        if crate::index::has_tag(&self.entries[from].implies, to) {
            return true;
        }
        let entry = &self.entries[from];
        let mut implies = entry.implies.clone();
        assert(implies@ =~= entry.implies@);
        implies.push(to);
        let updated = TagEntry { name: entry.name.clone(), alias_of: entry.alias_of, implies };
        self.entries.set(from, updated);
        proof {
            let goal = with_implication(before, from, to);
            assert(self@ =~= goal);
            assert(graph_wf(goal)) by {
                assert forall|a: int, b: int| 0 <= a < b < goal.len() implies (#[trigger] goal[a]).name != (
                #[trigger] goal[b]).name by {
                    assert(goal[a].name == before[a].name && goal[b].name == before[b].name);
                }
                assert forall|a: int| 0 <= a < goal.len() implies match (#[trigger] goal[a]).alias_of {
                    Some(t) => t < goal.len() && goal[t as int].alias_of is None,
                    None => true,
                } by {
                    assert(goal[a].alias_of == before[a].alias_of);
                    if before[a].alias_of is Some {
                        let t = before[a].alias_of.unwrap();
                        assert(goal[t as int].alias_of == before[t as int].alias_of);
                    }
                }
                assert forall|a: int, k: int| 0 <= a < goal.len() && 0 <= k < goal[a].implies.len() implies (
                #[trigger] goal[a].implies[k]) < goal.len() by {
                    if a == from {
                        if k < before[a].implies.len() {
                            assert(goal[a].implies[k] == before[a].implies[k]);
                        }
                    } else {
                        assert(goal[a] == before[a]);
                    }
                }
            }
        }
        true
    }

    /// Lets `from` imply `to` no longer. The answer is `false`, and nothing
    /// changes, where `from` names no tag.
    pub fn remove_implication(&mut self, from: usize, to: usize) -> (ok: bool)
        requires
            old(self).wf(),
        ensures
            final(self).wf(),
            ok == (from < old(self)@.len()),
            ok ==> final(self)@ == without_implication(old(self)@, from, to),
            !ok ==> final(self)@ == old(self)@,
    {
        let n = self.entries.len();
        if from >= n {
            return false;
        }
        let ghost before = self@;
        assert(before[from as int] == self.entries@[from as int]@);
        let ghost keep = other_than(to);
        let entry = &self.entries[from];
        assert forall|k: int| 0 <= k < entry.implies@.len() implies entry.implies@[k] < n by {
            assert(before[from as int].implies[k] == entry.implies@[k]);
        }
        let mut implies: Vec<usize> = Vec::new();
        let mut i: usize = 0;
        proof {
            reveal(Seq::filter);
            assert(entry.implies@.take(0) =~= Seq::<usize>::empty());
        }
        while i < entry.implies.len()
            invariant
                i <= entry.implies@.len(),
                keep == other_than(to),
                implies@ == entry.implies@.take(i as int).filter(keep),
                forall|k: int| 0 <= k < implies@.len() ==> implies@[k] < n,
                forall|k: int| 0 <= k < entry.implies@.len() ==> entry.implies@[k] < n,
            decreases entry.implies@.len() - i,
        {
            proof {
                reveal(Seq::filter);
                assert(entry.implies@.take(i + 1).drop_last() =~= entry.implies@.take(i as int));
                assert(entry.implies@.take(i + 1).last() == entry.implies@[i as int]);
            }
            if entry.implies[i] != to {
                implies.push(entry.implies[i]);
            }
            i += 1;
        }
        assert(entry.implies@.take(i as int) =~= entry.implies@);
        let updated = TagEntry { name: entry.name.clone(), alias_of: entry.alias_of, implies };
        self.entries.set(from, updated);
        proof {
            let goal = without_implication(before, from, to);
            assert(self@ =~= goal);
            assert(graph_wf(goal)) by {
                assert forall|a: int, b: int| 0 <= a < b < goal.len() implies (#[trigger] goal[a]).name != (
                #[trigger] goal[b]).name by {
                    assert(goal[a].name == before[a].name && goal[b].name == before[b].name);
                }
                assert forall|a: int| 0 <= a < goal.len() implies match (#[trigger] goal[a]).alias_of {
                    Some(t) => t < goal.len() && goal[t as int].alias_of is None,
                    None => true,
                } by {
                    assert(goal[a].alias_of == before[a].alias_of);
                    if before[a].alias_of is Some {
                        let t = before[a].alias_of.unwrap();
                        assert(goal[t as int].alias_of == before[t as int].alias_of);
                    }
                }
                assert forall|a: int, k: int| 0 <= a < goal.len() && 0 <= k < goal[a].implies.len() implies (
                #[trigger] goal[a].implies[k]) < goal.len() by {
                    if a != from {
                        assert(goal[a] == before[a]);
                    }
                }
            }
        }
        true
    }
}

} // verus!
