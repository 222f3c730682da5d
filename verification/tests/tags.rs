use blazebooru::catalog::PostCatalog;
use blazebooru::error::CoreError;
use blazebooru::store::models::{NewPost, UpdatePost, UpdateTag};
use blazebooru::tags::TagGraph;

fn names(list: &[&str]) -> Vec<String> {
    list.iter().map(|s| s.to_string()).collect()
}

fn sorted(mut v: Vec<usize>) -> Vec<usize> {
    v.sort();
    v
}

fn sorted_names(v: &[String]) -> Vec<String> {
    let mut v = v.to_vec();
    v.sort();
    v
}

fn record() -> NewPost {
    NewPost {
        user_id: Some(1),
        title: None,
        description: None,
        source: None,
        filename: Some("picture.png".to_string()),
        size: Some(3),
        width: Some(1),
        height: Some(1),
        hash: Some("digest".to_string()),
        ext: Some("png".to_string()),
        tn_ext: Some("jpg".to_string()),
    }
}

fn imply(from: &str, to: &[&str]) -> UpdateTag {
    UpdateTag { alias_of_tag: None, add_implied_tags: names(to), remove_implied_tags: vec![] }
}

#[test]
fn implications_in_a_circle() {
    let mut graph = TagGraph::new();
    let a = graph.ensure_tag("a");
    let b = graph.ensure_tag("b");
    assert!(graph.add_implication(a, b));
    assert!(graph.add_implication(b, a));
    assert_eq!(sorted(graph.expand_implications(&vec![a])), vec![a, b]);
    assert_eq!(sorted(graph.expand_implications(&vec![b])), vec![a, b]);
}

#[test]
fn post_tagged_in_a_circle() {
    let mut catalog = PostCatalog::new();
    catalog.create_post(record(), &names(&["a", "b"]), "ann".to_string(), 0).unwrap();
    assert!(catalog.update_tag(0, &imply("a", &["b"]), 1));
    assert!(catalog.update_tag(1, &imply("b", &["a"]), 1));
    let id = catalog.create_post(record(), &names(&["a"]), "ann".to_string(), 0).unwrap();
    let post = catalog.get_view_post(id).unwrap();
    assert_eq!(sorted_names(&post.tags), names(&["a", "b"]));
    assert_eq!(catalog.requested_tags(1), &names(&["a"]));
}

#[test]
fn closure_follows_chains_and_resolves_aliases() {
    let mut graph = TagGraph::new();
    let kitten = graph.ensure_tag("kitten");
    let cat = graph.ensure_tag("cat");
    let animal = graph.ensure_tag("animal");
    let feline = graph.ensure_tag("feline");
    let plant = graph.ensure_tag("plant");
    assert!(graph.add_implication(kitten, feline));
    assert!(graph.set_alias(feline, cat));
    assert!(graph.add_implication(cat, animal));
    assert_eq!(sorted(graph.expand_implications(&vec![kitten])), vec![kitten, cat, animal]);
    assert_eq!(sorted(graph.expand_implications(&vec![feline])), vec![cat, animal]);
    assert_eq!(sorted(graph.expand_implications(&vec![animal])), vec![animal]);
    assert_eq!(sorted(graph.expand_implications(&vec![plant, plant, 99])), vec![plant]);
    assert_eq!(graph.expand_implications(&vec![]), vec![]);
}

#[test]
fn names_resolve_to_canonical_tags() {
    let mut graph = TagGraph::new();
    let cat = graph.ensure_tag("cat");
    let feline = graph.ensure_tag("feline");
    assert_eq!(graph.ensure_tag("cat"), cat);
    assert_eq!(graph.len(), 2);
    assert!(graph.set_alias(feline, cat));
    assert_eq!(graph.canonicalize("cat"), Ok(cat));
    assert_eq!(graph.canonicalize("feline"), Ok(cat));
    assert_eq!(graph.canonicalize("dog"), Err(CoreError::UnknownTag));
    assert_eq!(graph.find("feline"), Some(feline));
    assert_eq!(graph.find("dog"), None);
    assert_eq!(graph.canonical_of(feline), cat);
    assert_eq!(graph.resolve_all(&names(&["feline", "cat"])), Ok(vec![cat, cat]));
    assert_eq!(graph.resolve_all(&names(&["cat", "dog"])), Err(CoreError::UnknownTag));
    assert_eq!(graph.names_for(&vec![feline, cat]), names(&["feline", "cat"]));
    assert_eq!(graph.entry(cat).unwrap().name, "cat");
    assert!(graph.entry(2).is_none());
}

#[test]
fn aliases_stay_flat() {
    let mut graph = TagGraph::new();
    let a = graph.ensure_tag("a");
    let b = graph.ensure_tag("b");
    let c = graph.ensure_tag("c");
    assert!(graph.set_alias(a, b));
    // `b` becomes an alias of `c`, and `a` follows it.
    assert!(graph.set_alias(b, c));
    assert_eq!(graph.entry(a).unwrap().alias_of, Some(c));
    assert_eq!(graph.entry(b).unwrap().alias_of, Some(c));
    // `c` cannot become an alias of what stands for `c`.
    assert!(!graph.set_alias(c, a));
    assert!(!graph.set_alias(c, c));
    assert!(!graph.set_alias(c, 7));
    assert!(!graph.set_alias(7, c));
    assert_eq!(graph.entry(c).unwrap().alias_of, None);
    assert!(graph.clear_alias(a));
    assert_eq!(graph.entry(a).unwrap().alias_of, None);
    assert!(!graph.clear_alias(3));
}

#[test]
fn implications_are_kept_once() {
    let mut graph = TagGraph::new();
    let a = graph.ensure_tag("a");
    let b = graph.ensure_tag("b");
    let c = graph.ensure_tag("c");
    assert!(graph.add_implication(a, b));
    assert!(graph.add_implication(a, b));
    assert!(graph.add_implication(a, c));
    assert!(!graph.add_implication(a, 3));
    assert!(!graph.add_implication(3, a));
    assert_eq!(graph.entry(a).unwrap().implies, vec![b, c]);
    assert!(graph.remove_implication(a, b));
    assert!(graph.remove_implication(a, 17));
    assert!(!graph.remove_implication(3, a));
    assert_eq!(graph.entry(a).unwrap().implies, vec![c]);
    assert_eq!(graph.ensure_all(&names(&["c", "d", "a", "d"])), vec![c, 3, a, 3]);
    assert_eq!(graph.len(), 4);
}

#[test]
fn tag_as_callers_see_it() {
    let mut catalog = PostCatalog::new();
    catalog.create_post(record(), &names(&["kitten"]), "ann".to_string(), 0).unwrap();
    let change = UpdateTag {
        alias_of_tag: None,
        add_implied_tags: names(&["cat", "cute"]),
        remove_implied_tags: vec![],
    };
    assert!(catalog.update_tag(0, &change, 1));
    let change = UpdateTag {
        alias_of_tag: Some("cat".to_string()),
        add_implied_tags: vec![],
        remove_implied_tags: vec![],
    };
    // A tag made from the change: "feline" did not exist.
    let feline = catalog.tags().len() as i32;
    assert!(!catalog.update_tag(feline, &change, 1));
    catalog.create_post(record(), &names(&["feline"]), "ann".to_string(), 0).unwrap();
    assert!(catalog.update_tag(feline, &change, 1));
    let shown = catalog.get_view_tag(feline).unwrap();
    assert_eq!(shown.id, feline);
    assert_eq!(shown.tag, "feline");
    assert_eq!(shown.alias_of_tag, Some("cat".to_string()));
    let kitten = catalog.get_view_tag(0).unwrap();
    assert_eq!(kitten.tag, "kitten");
    assert_eq!(kitten.alias_of_tag, None);
    assert_eq!(kitten.implied_tags, names(&["cat", "cute"]));
    assert!(catalog.get_view_tag(-1).is_none());
    assert!(catalog.get_view_tag(99).is_none());
    let all = catalog.get_view_tags();
    assert_eq!(all.iter().map(|t| t.tag.clone()).collect::<Vec<_>>(), names(&["kitten", "cat", "cute", "feline"]));
    // Take an implication away, and clear the alias.
    let change = UpdateTag {
        alias_of_tag: None,
        add_implied_tags: vec![],
        remove_implied_tags: names(&["cute", "unheard"]),
    };
    assert!(catalog.update_tag(0, &change, 1));
    assert_eq!(catalog.get_view_tag(0).unwrap().implied_tags, names(&["cat"]));
    assert!(catalog.update_tag(feline, &change, 1));
    assert_eq!(catalog.get_view_tag(feline).unwrap().alias_of_tag, None);
    // A tag cannot become an alias of itself.
    let change = UpdateTag {
        alias_of_tag: Some("cat".to_string()),
        add_implied_tags: vec![],
        remove_implied_tags: vec![],
    };
    assert!(!catalog.update_tag(1, &change, 1));
}

#[test]
fn query_for_a_tag_finds_posts_that_imply_it() {
    let mut catalog = PostCatalog::new();
    catalog.create_post(record(), &names(&["animal", "cat", "kitten", "dog"]), "ann".to_string(), 0).unwrap();
    assert!(catalog.update_tag(2, &imply("kitten", &["cat"]), 1));
    assert!(catalog.update_tag(1, &imply("cat", &["animal"]), 1));
    assert!(catalog.update_tag(3, &imply("dog", &["animal"]), 1));
    let kitten = catalog.create_post(record(), &names(&["kitten"]), "ann".to_string(), 0).unwrap();
    let cat = catalog.create_post(record(), &names(&["cat"]), "ann".to_string(), 0).unwrap();
    let dog = catalog.create_post(record(), &names(&["dog"]), "ann".to_string(), 0).unwrap();
    let ids = |catalog: &PostCatalog, required: &[&str], forbidden: &[&str]| -> Vec<i32> {
        catalog
            .get_view_posts(&names(required), &names(forbidden), 0, 100)
            .unwrap()
            .iter()
            .map(|p| p.id)
            .collect()
    };
    assert_eq!(ids(&catalog, &["animal"], &[]), vec![dog, cat, kitten, 1]);
    assert_eq!(ids(&catalog, &["cat"], &[]), vec![cat, kitten, 1]);
    assert_eq!(ids(&catalog, &["kitten"], &[]), vec![kitten, 1]);
    // To forbid a tag leaves out the posts that imply it, and no others.
    assert_eq!(ids(&catalog, &["animal"], &["cat"]), vec![dog]);
    assert_eq!(ids(&catalog, &["animal"], &["kitten"]), vec![dog, cat]);
    assert_eq!(ids(&catalog, &[], &["animal"]), Vec::<i32>::new());
    assert_eq!(
        catalog.get_view_posts(&names(&["bird"]), &names(&[]), 0, 100).err(),
        Some(CoreError::UnknownTag)
    );
    assert_eq!(
        catalog.calculate_pages(&names(&[]), &names(&["bird"]), 2, 1, None),
        Err(CoreError::UnknownTag)
    );
    assert_eq!(
        catalog.calculate_last_page(&names(&["bird"]), &names(&[]), 2),
        Err(CoreError::UnknownTag)
    );
    let filter = catalog.resolve_filter(&names(&["kitten"]), &names(&["dog"])).unwrap();
    assert_eq!(sorted(filter.required), vec![0, 1, 2]);
    assert_eq!(filter.forbidden, vec![3]);
}

#[test]
fn changing_a_post() {
    let mut catalog = PostCatalog::new();
    let mut first = record();
    first.title = Some("before".to_string());
    first.source = Some("somewhere".to_string());
    let id = catalog.create_post(first, &names(&["cat", "grey"]), "ann".to_string(), 7).unwrap();
    let change = UpdatePost {
        id: Some(id),
        title: Some("after".to_string()),
        description: Some("a cat".to_string()),
        source: None,
        add_tags: names(&["asleep", "cat"]),
        remove_tags: names(&["grey", "unheard"]),
    };
    assert!(catalog.update_post(&change, 2));
    let post = catalog.get_view_post(id).unwrap();
    assert_eq!(post.title, Some("after".to_string()));
    assert_eq!(post.description, Some("a cat".to_string()));
    assert_eq!(post.source, Some("somewhere".to_string()));
    assert_eq!(post.hash, "digest");
    assert_eq!(post.created_at, 7);
    assert_eq!(post.tags, names(&["cat", "asleep"]));
    assert_eq!(catalog.requested_tags(0), &names(&["cat", "asleep"]));
    assert_eq!(catalog.index().tags_of(id), Some(&vec![0, 2]));
    let nobody = UpdatePost { id: Some(5), ..change };
    assert!(!catalog.update_post(&nobody, 2));
    let nothing = UpdatePost { id: None, ..nobody };
    assert!(!catalog.update_post(&nothing, 2));
    assert_eq!(catalog.position_of(id), Some(0));
    assert_eq!(catalog.position_of(5), None);
}

#[test]
fn tag_of_a_graph_as_callers_see_it() {
    let mut graph = TagGraph::new();
    let kitten = graph.ensure_tag("kitten");
    let change = UpdateTag {
        alias_of_tag: Some("cat".to_string()),
        add_implied_tags: names(&["cute", "small", "cute"]),
        remove_implied_tags: names(&["small"]),
    };
    assert!(graph.update_tag(kitten, &change));
    assert!(!graph.update_tag(9, &change));
    let shown = graph.view_tag(kitten).unwrap();
    assert_eq!(shown.id, 0);
    assert_eq!(shown.tag, "kitten");
    assert_eq!(shown.alias_of_tag, Some("cat".to_string()));
    assert_eq!(shown.implied_tags, names(&["cute"]));
    assert!(graph.view_tag(9).is_none());
    // "cat" stands for itself: it cannot become an alias of "kitten".
    let back = UpdateTag {
        alias_of_tag: Some("kitten".to_string()),
        add_implied_tags: vec![],
        remove_implied_tags: vec![],
    };
    assert!(!graph.update_tag(1, &back));
    assert_eq!(graph.canonicalize("kitten"), Ok(1));
}
