use blazebooru::booru::BlazeBooruCore;
use blazebooru::catalog::PostCatalog;
use blazebooru::auth::AuthError;
use blazebooru::error::{ApiError, CoreError, StoreError};
use blazebooru::hash::{hash_chunks, ContentHasher};
use blazebooru::image::{
    extension_of, hashed_file, is_preserve_original, move_file, original_name, plan_thumbnail,
    process_file, process_image, promotion, temp_file, thumbnail_name, BlobStore, MoveStep,
    Promotion, ThumbnailAction, THUMBNAIL_SIZE,
};
use blazebooru::models::local::{HashedFile, NewPost};
use blazebooru::paths::{choose_setting, join_path, StorageLayout};
use blazebooru::post::{create_post, import_post, pixel_column, size_column};

const EMPTY_DIGEST: &str = "af1349b9f5f9a1a6a0404dea36dcc9499bcb25c9adc112b7cc9a93cae41f3262";

fn upload(chunks: &[&[u8]], temp: &str) -> HashedFile {
    let chunks: Vec<Vec<u8>> = chunks.iter().map(|c| c.to_vec()).collect();
    let result = hash_chunks(&chunks).unwrap();
    hashed_file(result, temp.to_string())
}

#[test]
fn digest_of_nothing() {
    let result = hash_chunks(&vec![]).unwrap();
    assert_eq!(result.hash, EMPTY_DIGEST);
    assert_eq!(result.size, 0);
    let hasher = ContentHasher::new();
    assert_eq!(hasher.finish().hash, EMPTY_DIGEST);
    assert_eq!(hasher.size(), 0);
}

#[test]
fn digest_is_that_of_the_content() {
    let result = hash_chunks(&vec![b"abc".to_vec()]).unwrap();
    assert_eq!(result.hash, blake3::hash(b"abc").to_hex().to_string());
    assert_eq!(result.hash.len(), 64);
    assert_ne!(result.hash, EMPTY_DIGEST);
    assert_eq!(result.size, 3);
}

#[test]
fn digest_does_not_show_the_chunks() {
    let whole = hash_chunks(&vec![b"hello world".to_vec()]).unwrap();
    let parts = hash_chunks(&vec![b"hel".to_vec(), vec![], b"lo wor".to_vec(), b"ld".to_vec()]).unwrap();
    assert_eq!(whole.hash, parts.hash);
    assert_eq!(whole.size, 11);
    assert_eq!(parts.size, 11);
    let other = hash_chunks(&vec![b"hello world!".to_vec()]).unwrap();
    assert_ne!(whole.hash, other.hash);
}

#[test]
fn hasher_takes_chunks_one_by_one() {
    let mut hasher = ContentHasher::new();
    assert!(hasher.has_room_for(5));
    hasher.update(b"ab");
    assert_eq!(hasher.size(), 2);
    assert_eq!(hasher.finish().hash, blake3::hash(b"ab").to_hex().to_string());
    assert!(hasher.try_update(b"c"));
    assert!(!hasher.has_room_for(usize::MAX));
    let result = hasher.finish();
    assert_eq!(result.hash, blake3::hash(b"abc").to_hex().to_string());
    assert_eq!(result.size, 3);
}

#[test]
fn extension_is_what_follows_the_last_dot() {
    assert_eq!(extension_of("cat.png"), Some("png".to_string()));
    assert_eq!(extension_of("cat.tar.gz"), Some("gz".to_string()));
    assert_eq!(extension_of(".hidden"), Some("hidden".to_string()));
    assert_eq!(extension_of("cat."), Some("".to_string()));
    assert_eq!(extension_of("cat"), None);
    assert_eq!(extension_of(""), None);
    assert_eq!(extension_of("b\u{e4}r.jp\u{e9}g"), Some("jp\u{e9}g".to_string()));
}

#[test]
fn names_of_stored_files() {
    assert_eq!(original_name("abc123", "png"), "abc123.png");
    assert_eq!(thumbnail_name("abc123"), "abc123.jpg");
    assert_eq!(extension_of(&original_name("abc123", "png")), Some("png".to_string()));
    assert_eq!(THUMBNAIL_SIZE, 200);
}

#[test]
fn paths_are_joined_with_one_slash() {
    assert_eq!(join_path("/files", "temp"), "/files/temp");
    assert_eq!(join_path("/files/", "temp"), "/files/temp");
    assert_eq!(join_path("", "temp"), "temp");
    assert_eq!(join_path("/", "temp"), "/temp");
    assert_eq!(join_path("files", ""), "files/");
}

#[test]
fn layout_of_an_installation() {
    let layout = StorageLayout::new("/srv/booru");
    assert_eq!(layout.temp_path, "/srv/booru/temp");
    assert_eq!(layout.public_path, "/srv/booru/public");
    assert_eq!(layout.public_original_path, "/srv/booru/public/o");
    assert_eq!(layout.public_thumbnail_path, "/srv/booru/public/t");
}

#[test]
fn environment_goes_before_settings() {
    let env = Some("from env".to_string());
    let config = Some("from config".to_string());
    assert_eq!(choose_setting(env.clone(), config.clone()), env);
    assert_eq!(choose_setting(None, config.clone()), config);
    assert_eq!(choose_setting(env.clone(), None), env);
    assert_eq!(choose_setting(None, None), None);
}

#[test]
fn temporary_files_have_random_names() {
    let first = temp_file("/srv/booru/temp");
    let second = temp_file("/srv/booru/temp");
    assert!(first.starts_with("/srv/booru/temp/"));
    assert_eq!(first.len(), "/srv/booru/temp/".len() + 36);
    assert_ne!(first, second);
}

#[test]
fn upload_without_extension_is_refused() {
    let file = upload(&[b"abc"], "/tmp/x");
    assert_eq!(process_file(&file, "picture", "/o").err(), Some(CoreError::BadUpload));
    assert_eq!(CoreError::BadUpload.status(), 400);
}

#[test]
fn upload_belongs_under_its_digest() {
    let file = upload(&[b"abc"], "/tmp/x");
    let plan = process_file(&file, "my.cat.png", "/srv/public/o").unwrap();
    assert_eq!(plan.hash, file.hash);
    assert_eq!(plan.ext, "png");
    assert_eq!(plan.original_image_path, format!("/srv/public/o/{}.png", file.hash));
}

#[test]
fn what_to_do_with_a_temporary_file() {
    assert_eq!(promotion(false), Promotion::Store);
    assert_eq!(promotion(true), Promotion::Discard);
    assert_eq!(move_file(true), MoveStep::Done);
    assert_eq!(move_file(false), MoveStep::CopyThenRemove);
}

#[test]
fn thumbnails_are_never_made_larger() {
    assert_eq!(plan_thumbnail(false, 200, 200, 200), ThumbnailAction::Encode);
    assert_eq!(plan_thumbnail(false, 201, 200, 200), ThumbnailAction::Resize);
    assert_eq!(plan_thumbnail(false, 200, 201, 200), ThumbnailAction::Resize);
    assert_eq!(plan_thumbnail(false, 1, 1, 200), ThumbnailAction::Encode);
    assert_eq!(plan_thumbnail(true, 4000, 3000, 200), ThumbnailAction::Keep);
    assert_eq!(plan_thumbnail(true, 1, 1, 200), ThumbnailAction::Keep);
}

#[test]
fn thumbnail_is_made_once() {
    let mut thumbnails = BlobStore::new();
    let (first, action) = thumbnails.ensure_thumbnail("abc123", 640, 480, THUMBNAIL_SIZE);
    assert_eq!(first, "abc123.jpg");
    assert_eq!(action, ThumbnailAction::Resize);
    assert_eq!(thumbnails.len(), 1);
    let (second, action) = thumbnails.ensure_thumbnail("abc123", 640, 480, THUMBNAIL_SIZE);
    assert_eq!(second, first);
    assert_eq!(action, ThumbnailAction::Keep);
    assert_eq!(thumbnails.len(), 1);
    let (_, action) = thumbnails.ensure_thumbnail("def456", 64, 48, THUMBNAIL_SIZE);
    assert_eq!(action, ThumbnailAction::Encode);
    assert_eq!(thumbnails.len(), 2);
}

#[test]
fn image_and_its_thumbnail() {
    let file = upload(&[b"abc"], "/tmp/x");
    let plan = process_file(&file, "cat.gif", "/o").unwrap();
    let (image, path) = process_image(&plan, "/srv/public/t", 640, 480);
    assert_eq!(image.width, 640);
    assert_eq!(image.height, 480);
    assert_eq!(image.tn_ext, "jpg");
    assert_eq!(path, format!("/srv/public/t/{}.jpg", file.hash));
    assert!(is_preserve_original("gif"));
    assert!(!is_preserve_original("png"));
    assert!(!is_preserve_original("GIF"));
    assert!(!is_preserve_original(""));
}

#[test]
fn same_content_uploaded_twice() {
    let layout = StorageLayout::new("/srv");
    let mut originals = BlobStore::new();
    let mut thumbnails = BlobStore::new();
    let mut catalog = PostCatalog::new();
    let mut ids = vec![];
    let mut digests = vec![];
    for (name, temp) in [("one.png", "/srv/temp/1"), ("two.png", "/srv/temp/2")] {
        let file = upload(&[&[1u8, 2, 3]], temp);
        assert_eq!(file.size, 3);
        let plan = process_file(&file, name, &layout.public_original_path).unwrap();
        let stored = originals.promote(&plan.original_image_path);
        let (image, _) = process_image(&plan, &layout.public_thumbnail_path, 1, 1);
        thumbnails.ensure_thumbnail(&plan.hash, 1, 1, THUMBNAIL_SIZE);
        let post = NewPost {
            user_id: 1,
            title: None,
            description: None,
            source: None,
            filename: name.to_string(),
            file,
            tags: vec!["cat".to_string()],
        };
        let (row, tags) = create_post(post, plan, image);
        let id = catalog.create_post(row, &tags, "ann".to_string(), 0).unwrap();
        ids.push((id, stored));
        digests.push(catalog.get_view_post(id).unwrap().hash.clone());
    }
    let digest = blake3::hash(&[1u8, 2, 3]).to_hex().to_string();
    assert_eq!(ids, vec![(1, Promotion::Store), (2, Promotion::Discard)]);
    assert_eq!(digests, vec![digest.clone(), digest.clone()]);
    assert_eq!(originals.len(), 1);
    assert!(originals.holds(&format!("/srv/public/o/{digest}.png")));
    assert!(!originals.holds(&format!("/srv/public/o/{digest}.jpg")));
    assert_eq!(thumbnails.len(), 1);
    assert_eq!(catalog.get_view_post_by_hash(&digest).unwrap().id, 1);
    assert!(catalog.get_view_post_by_hash("other").is_none());
    assert_eq!(catalog.len(), 2);
}

#[test]
fn row_of_an_upload() {
    let file = HashedFile { hash: "abc".to_string(), size: 5_000_000_000, path: "/tmp/x".to_string() };
    let plan = process_file(&file, "cat.png", "/o").unwrap();
    let (image, _) = process_image(&plan, "/t", 640, u32::MAX);
    let post = NewPost {
        user_id: 7,
        title: Some("title".to_string()),
        description: None,
        source: Some("source".to_string()),
        filename: "cat.png".to_string(),
        file,
        tags: vec!["cat".to_string(), "grey".to_string()],
    };
    let (row, tags) = create_post(post, plan, image);
    assert!(row.is_complete());
    assert_eq!(row.user_id, Some(7));
    assert_eq!(row.title, Some("title".to_string()));
    assert_eq!(row.description, None);
    assert_eq!(row.source, Some("source".to_string()));
    assert_eq!(row.filename, Some("cat.png".to_string()));
    assert_eq!(row.size, Some(i32::MAX));
    assert_eq!(row.width, Some(640));
    assert_eq!(row.height, Some(i32::MAX));
    assert_eq!(row.hash, Some("abc".to_string()));
    assert_eq!(row.ext, Some("png".to_string()));
    assert_eq!(row.tn_ext, Some("jpg".to_string()));
    assert_eq!(tags, vec!["cat".to_string(), "grey".to_string()]);
    assert_eq!(size_column(10_000_000), 10_000_000);
    assert_eq!(size_column(i32::MAX as u64 + 1), i32::MAX);
    assert_eq!(pixel_column(200), 200);
}

#[test]
fn row_of_an_imported_post() {
    let post = blazebooru::models::export::Post {
        created_at: 5,
        user_name: "bob".to_string(),
        title: None,
        description: Some("text".to_string()),
        source: None,
        filename: "dog.jpg".to_string(),
        size: 10,
        width: 20,
        height: 30,
        hash: "abc".to_string(),
        ext: "jpg".to_string(),
        tn_ext: "jpg".to_string(),
        tags: vec!["dog".to_string()],
    };
    let (row, tags) = import_post(post, 4);
    assert!(row.is_complete());
    assert_eq!(row.user_id, Some(4));
    assert_eq!(row.description, Some("text".to_string()));
    assert_eq!(row.filename, Some("dog.jpg".to_string()));
    assert_eq!((row.size, row.width, row.height), (Some(10), Some(20), Some(30)));
    assert_eq!(row.hash, Some("abc".to_string()));
    assert_eq!(tags, vec!["dog".to_string()]);
}

#[test]
fn failures_and_their_status() {
    assert_eq!(CoreError::Io.status(), 500);
    assert_eq!(CoreError::ImageDecode.status(), 400);
    assert_eq!(CoreError::UnknownTag.status(), 400);
    assert_eq!(CoreError::NotFound.status(), 404);
    assert_eq!(ApiError::Internal.status(), 500);
    assert_eq!(ApiError::Auth(AuthError::ExpiredToken).status(), 401);
    assert_eq!(ApiError::Auth(AuthError::InvalidToken).status(), 400);
    assert_eq!(ApiError::Auth(AuthError::TokenCreation).status(), 400);
    assert_eq!(ApiError::BadRequest.status(), 400);
    assert_eq!(ApiError::NotFound.status(), 404);
    assert_eq!(ApiError::Unauthorized.status(), 401);
    assert_eq!(ApiError::from_core(CoreError::Io), ApiError::Internal);
    assert_eq!(ApiError::from_core(CoreError::NotFound), ApiError::NotFound);
    assert_eq!(ApiError::from_core(CoreError::UnknownTag), ApiError::BadRequest);
    assert_eq!(ApiError::from_core(CoreError::BadUpload), ApiError::BadRequest);
    assert_eq!(ApiError::from_core(CoreError::ImageDecode), ApiError::BadRequest);
    let failure = StoreError::Failed("connection refused".to_string());
    assert_eq!(failure.message(), "connection refused");
    assert_eq!(failure.as_core_error(), CoreError::Io);
}

#[test]
fn core_stores_the_same_content_once() {
    let mut core = BlazeBooruCore::new("/srv");
    assert_eq!(core.temp_path, "/srv/temp");
    assert_eq!(core.public_original_path, "/srv/public/o");
    assert_eq!(core.public_thumbnail_path, "/srv/public/t");
    let mut ids = vec![];
    for name in ["one.png", "two.png"] {
        let post = NewPost {
            user_id: 1,
            title: None,
            description: None,
            source: None,
            filename: name.to_string(),
            file: upload(&[&[1u8, 2, 3]], "/srv/temp/x"),
            tags: vec!["cat".to_string()],
        };
        ids.push(core.create_post(post, 640, 480, "ann".to_string(), 0).unwrap());
    }
    let digest = blake3::hash(&[1u8, 2, 3]).to_hex().to_string();
    assert_eq!(ids, vec![1, 2]);
    assert_eq!(core.originals.len(), 1);
    assert!(core.originals.holds(&format!("{digest}.png")));
    assert_eq!(core.thumbnails.len(), 1);
    assert!(core.thumbnails.holds(&format!("{digest}.jpg")));
    for id in ids {
        let post = core.store.get_view_post(id).unwrap();
        assert_eq!(post.hash, digest);
        assert_eq!((post.ext.as_str(), post.tn_ext.as_str()), ("png", "jpg"));
        assert_eq!((post.size, post.width, post.height), (3, 640, 480));
    }
    // The same content under another extension is another file.
    let post = NewPost {
        user_id: 1,
        title: None,
        description: None,
        source: None,
        filename: "three.gif".to_string(),
        file: upload(&[&[1u8, 2, 3]], "/srv/temp/x"),
        tags: vec![],
    };
    assert_eq!(core.create_post(post, 1, 1, "ann".to_string(), 0), Ok(3));
    assert_eq!(core.originals.len(), 2);
    assert_eq!(core.thumbnails.len(), 1);
}

#[test]
fn core_refuses_an_upload_without_extension() {
    let mut core = BlazeBooruCore::new("/srv");
    let post = NewPost {
        user_id: 1,
        title: None,
        description: None,
        source: None,
        filename: "picture".to_string(),
        file: upload(&[b"abc"], "/srv/temp/x"),
        tags: vec!["cat".to_string()],
    };
    assert_eq!(core.create_post(post, 1, 1, "ann".to_string(), 0), Err(CoreError::BadUpload));
    assert_eq!(core.originals.len(), 0);
    assert_eq!(core.thumbnails.len(), 0);
    assert_eq!(core.store.len(), 0);
    assert_eq!(core.store.tags().len(), 0);
}
