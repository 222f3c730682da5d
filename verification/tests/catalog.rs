use blazebooru::catalog::PostCatalog;
use blazebooru::error::CoreError;
use blazebooru::models::export as em;
use blazebooru::models::local as lm;
use blazebooru::models::view as vm;
use blazebooru::store::models as dbm;
use blazebooru::store::transform::dbm_update_post_from_vm;

fn names(list: &[&str]) -> Vec<String> {
    list.iter().map(|s| s.to_string()).collect()
}

fn record(hash: &str) -> dbm::NewPost {
    dbm::NewPost {
        user_id: Some(3),
        title: Some("title".to_string()),
        description: None,
        source: None,
        filename: Some("picture.png".to_string()),
        size: Some(3),
        width: Some(640),
        height: Some(480),
        hash: Some(hash.to_string()),
        ext: Some("png".to_string()),
        tn_ext: Some("jpg".to_string()),
    }
}

fn view_row() -> dbm::ViewPost {
    dbm::ViewPost {
        id: Some(4),
        created_at: Some(1_700_000_000),
        user_id: Some(2),
        user_name: Some("ann".to_string()),
        title: Some("title".to_string()),
        description: None,
        source: Some("source".to_string()),
        filename: Some("cat.png".to_string()),
        size: Some(10),
        width: Some(20),
        height: Some(30),
        hash: Some("abc".to_string()),
        ext: Some("png".to_string()),
        tn_ext: Some("jpg".to_string()),
        tags: Some(names(&["cat"])),
    }
}

#[test]
fn post_is_written_as_it_was_given() {
    let mut catalog = PostCatalog::new();
    assert_eq!(catalog.len(), 0);
    let id = catalog.create_post(record("abc"), &names(&["cat", "grey", "cat"]), "ann".to_string(), 17).unwrap();
    assert_eq!(id, 1);
    let post = catalog.get_view_post(1).unwrap();
    assert_eq!(post.id, 1);
    assert_eq!(post.created_at, 17);
    assert_eq!(post.user_id, 3);
    assert_eq!(post.user_name, "ann");
    assert_eq!(post.title, Some("title".to_string()));
    assert_eq!(post.description, None);
    assert_eq!(post.filename, "picture.png");
    assert_eq!((post.size, post.width, post.height), (3, 640, 480));
    assert_eq!(post.hash, "abc");
    assert_eq!(post.ext, "png");
    assert_eq!(post.tn_ext, "jpg");
    assert_eq!(post.tags, names(&["cat", "grey"]));
    assert_eq!(catalog.requested_tags(0), &names(&["cat", "grey", "cat"]));
    assert!(catalog.get_view_post(2).is_none());
    assert!(catalog.get_view_post(0).is_none());
    assert_eq!(catalog.tags().len(), 2);
    assert_eq!(catalog.index().newest_id(), Some(1));
}

#[test]
fn post_that_lacks_a_field_is_refused() {
    let mut catalog = PostCatalog::new();
    let mut row = record("abc");
    row.hash = None;
    assert!(!row.is_complete());
    assert_eq!(catalog.create_post(row, &names(&["cat"]), "ann".to_string(), 0), Err(CoreError::BadUpload));
    let mut row = record("abc");
    row.user_id = None;
    assert_eq!(catalog.create_post(row, &names(&["cat"]), "ann".to_string(), 0), Err(CoreError::BadUpload));
    assert_eq!(catalog.len(), 0);
    assert_eq!(catalog.tags().len(), 0);
    // The identifier that was not given out is given to the next post.
    assert_eq!(catalog.create_post(record("abc"), &names(&[]), "ann".to_string(), 0), Ok(1));
}

#[test]
fn listing_is_newest_first() {
    let mut catalog = PostCatalog::new();
    for i in 1..=9 {
        let tags: &[&str] = if i % 3 == 0 { &["dog"] } else { &["cat"] };
        catalog.create_post(record("abc"), &names(tags), "ann".to_string(), 0).unwrap();
    }
    let ids = |start_id: i32, limit: i32| -> Vec<i32> {
        catalog
            .get_view_posts(&names(&["cat"]), &names(&[]), start_id, limit)
            .unwrap()
            .iter()
            .map(|p| p.id)
            .collect()
    };
    assert_eq!(ids(i32::MAX, i32::MAX), vec![8, 7, 5, 4, 2, 1]);
    // A start that is not positive stands for the newest post.
    assert_eq!(ids(0, 100), vec![8, 7, 5, 4, 2, 1]);
    assert_eq!(ids(-3, 2), vec![8, 7]);
    assert_eq!(ids(5, 3), vec![5, 4, 2]);
    assert_eq!(ids(6, 3), vec![5, 4, 2]);
    assert_eq!(ids(1, 3), vec![1]);
    assert_eq!(ids(5, 0), Vec::<i32>::new());
    assert_eq!(ids(5, -1), Vec::<i32>::new());
    let no_cat: Vec<i32> = catalog
        .get_view_posts(&names(&[]), &names(&["cat"]), 0, 2)
        .unwrap()
        .iter()
        .map(|p| p.id)
        .collect();
    assert_eq!(no_cat, vec![9, 6]);
}

#[test]
fn page_is_listed_from_its_boundary() {
    let mut catalog = PostCatalog::new();
    for _ in 0..45 {
        catalog.create_post(record("abc"), &names(&["cat"]), "ann".to_string(), 0).unwrap();
    }
    let pages = catalog.calculate_pages(&names(&["cat"]), &names(&[]), 20, 3, None).unwrap();
    let second = catalog.get_view_posts(&names(&["cat"]), &names(&[]), pages[1].start_id, 20).unwrap();
    assert_eq!(second.len(), 20);
    assert_eq!(second[0].id, 25);
    assert_eq!(second[19].id, 6);
    let third = catalog.get_view_posts(&names(&["cat"]), &names(&[]), pages[2].start_id, 20).unwrap();
    assert_eq!(third.iter().map(|p| p.id).collect::<Vec<_>>(), vec![5, 4, 3, 2, 1]);
}

#[test]
fn rows_become_records() {
    let post = vm::Post::from(view_row());
    assert_eq!(post.id, 4);
    assert_eq!(post.created_at, 1_700_000_000);
    assert_eq!(post.user_id, 2);
    assert_eq!(post.user_name, "ann");
    assert_eq!(post.title, Some("title".to_string()));
    assert_eq!(post.description, None);
    assert_eq!(post.source, Some("source".to_string()));
    assert_eq!(post.filename, "cat.png");
    assert_eq!((post.size, post.width, post.height), (10, 20, 30));
    assert_eq!((post.hash.as_str(), post.ext.as_str(), post.tn_ext.as_str()), ("abc", "png", "jpg"));
    assert_eq!(post.tags, names(&["cat"]));
    let mut row = view_row();
    assert!(row.is_complete());
    row.id = None;
    assert!(!row.is_complete());
    assert!(row.is_exportable());
    let exported = em::Post::from(row);
    assert_eq!(exported.user_name, "ann");
    assert_eq!(exported.created_at, 1_700_000_000);
    assert_eq!(exported.filename, "cat.png");
    assert_eq!(exported.hash, "abc");
    assert_eq!(exported.tags, names(&["cat"]));
    let mut row = view_row();
    row.tags = None;
    assert!(!row.is_exportable());
}

#[test]
fn users_comments_and_tokens_become_records() {
    let row = || dbm::User {
        id: 5,
        created_at: 1,
        updated_at: 2,
        name: "ann".to_string(),
        password_hash: "secret".to_string(),
    };
    let user = lm::User::from(row());
    assert_eq!((user.id, user.created_at, user.updated_at, user.name.as_str()), (5, 1, 2, "ann"));
    let user = vm::User::from(row());
    assert_eq!((user.id, user.created_at, user.name.as_str()), (5, 1, "ann"));
    let comment = vm::Comment::from(dbm::PostComment {
        id: 1,
        created_at: 2,
        updated_at: 3,
        user_id: Some(4),
        user_name: None,
        post_id: 5,
        comment: "nice".to_string(),
    });
    assert_eq!((comment.id, comment.created_at, comment.updated_at), (1, 2, 3));
    assert_eq!((comment.user_id, comment.user_name, comment.comment.as_str()), (Some(4), None, "nice"));
    let token = lm::CreateRefreshTokenResult::from(dbm::CreateRefreshTokenResult {
        token: Some(77),
        session: Some(8),
    });
    assert_eq!(token, lm::CreateRefreshTokenResult { token: 77, session: 8 });
    let renewed = lm::RefreshRefreshTokenResult::from(dbm::RefreshRefreshTokenResult {
        token: Some(77),
        session: Some(8),
        user_id: Some(9),
    });
    assert_eq!(renewed, Some(lm::RefreshRefreshTokenResult { token: 77, session: 8, user_id: 9 }));
    let refused = lm::RefreshRefreshTokenResult::from(dbm::RefreshRefreshTokenResult {
        token: Some(77),
        session: None,
        user_id: Some(9),
    });
    assert_eq!(refused, None);
}

#[test]
fn boundaries_tags_and_changes_become_records() {
    let page = vm::PageInfo::from(dbm::PageInfo { no: Some(3), start_id: Some(5) });
    assert_eq!(page, vm::PageInfo { no: 3, start_id: 5 });
    assert_eq!(dbm::PageInfo::from(page), dbm::PageInfo { no: Some(3), start_id: Some(5) });
    assert_eq!(vm::PageInfo::or_none(dbm::PageInfo { no: Some(3), start_id: Some(5) }), page);
    assert_eq!(vm::PageInfo::or_none(dbm::PageInfo { no: None, start_id: None }), vm::PageInfo::none());
    assert_eq!(vm::PageInfo::or_none(dbm::PageInfo { no: Some(3), start_id: None }), vm::PageInfo::none());
    let row = dbm::ViewTag {
        id: Some(1),
        tag: Some("kitten".to_string()),
        alias_of_tag: None,
        implied_tags: Some(names(&["cat"])),
    };
    assert!(row.is_complete());
    let tag = vm::Tag::from(row);
    assert_eq!((tag.id, tag.tag.as_str(), tag.alias_of_tag), (1, "kitten", None));
    assert_eq!(tag.implied_tags, names(&["cat"]));
    let change = dbm::UpdateTag::from(vm::UpdateTag {
        alias_of_tag: Some("cat".to_string()),
        add_implied_tags: names(&["a"]),
        remove_implied_tags: names(&["b"]),
    });
    assert_eq!(change.alias_of_tag, Some("cat".to_string()));
    assert_eq!((change.add_implied_tags, change.remove_implied_tags), (names(&["a"]), names(&["b"])));
    let change = dbm_update_post_from_vm(
        6,
        vm::UpdatePost {
            title: Some("t".to_string()),
            description: None,
            source: Some("s".to_string()),
            add_tags: names(&["a"]),
            remove_tags: names(&["b"]),
        },
    );
    assert_eq!(change.id, Some(6));
    assert_eq!((change.title, change.description, change.source), (Some("t".to_string()), None, Some("s".to_string())));
    assert_eq!((change.add_tags, change.remove_tags), (names(&["a"]), names(&["b"])));
}
