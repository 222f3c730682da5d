//! The core in one piece: an upload becomes a stored original, a thumbnail
//! and a post.
//!
//! The directories of originals and thumbnails are kept as the names of
//! the files in them, and the posts in a catalogue in memory. Writing a
//! post brings the file to its place first, sees to the thumbnail next and
//! writes the row last: a row is never there without its file, while a file
//! may be there without a row.

use vstd::prelude::*;
use crate::catalog::{PostCatalog, created};
use crate::error::CoreError;
use crate::image::{
    BlobStore, ProcessFileResult, ProcessImageResult, THUMBNAIL_SIZE, blob_name, extension, original_name,
    process_file, process_image, thumbnail_ext,
};
use crate::models::local as lm;
use crate::names::names_of;
use crate::paths::StorageLayout;
use crate::post::{column, create_post};
use crate::store::models as dbm;

verus! {

/// Whether `row` is the row that is stored for the upload `post`, its file
/// having the extension `ext` and its image being `width` by `height`
/// pixels.
pub open spec fn row_of(row: dbm::NewPost, post: lm::NewPost, ext: Seq<char>, width: u32, height: u32) -> bool {
    &&& row.user_id == Some(post.user_id)
    &&& row.title == post.title
    &&& row.description == post.description
    &&& row.source == post.source
    &&& row.filename == Some(post.filename)
    &&& row.size == Some(column(post.file.size as int))
    &&& row.width == Some(column(width as int))
    &&& row.height == Some(column(height as int))
    &&& row.hash is Some
    &&& row.hash.unwrap()@ == post.file.hash@
    &&& row.ext is Some
    &&& row.ext.unwrap()@ == ext
    &&& row.tn_ext is Some
    &&& row.tn_ext.unwrap()@ == thumbnail_ext()
}

/// The directories of an installation, what is stored in them, and the
/// posts.
pub struct BlazeBooruCore {
    pub temp_path: String,
    pub public_path: String,
    pub public_original_path: String,
    pub public_thumbnail_path: String,
    /// The names of the files in the directory of originals.
    pub originals: BlobStore,
    /// The names of the files in the directory of thumbnails.
    pub thumbnails: BlobStore,
    pub store: PostCatalog,
}

impl BlazeBooruCore {
    /// What holds of the parts holds of the whole.
    pub open spec fn wf(&self) -> bool {
        self.originals.wf() && self.thumbnails.wf() && self.store.wf()
    }

    /// A core without files or posts, with its directories below
    /// `files_path`.
    pub fn new(files_path: &str) -> (r: BlazeBooruCore)
        ensures
            r.wf(),
            r.originals@ == Set::<Seq<char>>::empty(),
            r.thumbnails@ == Set::<Seq<char>>::empty(),
            r.store.entries().len() == 0,
            r.store.last_id() == 0,
            (StorageLayout {
                temp_path: r.temp_path,
                public_path: r.public_path,
                public_original_path: r.public_original_path,
                public_thumbnail_path: r.public_thumbnail_path,
            }).is_below(files_path@),
    {
        let layout = StorageLayout::new(files_path);
        BlazeBooruCore {
            temp_path: layout.temp_path,
            public_path: layout.public_path,
            public_original_path: layout.public_original_path,
            public_thumbnail_path: layout.public_thumbnail_path,
            originals: BlobStore::new(),
            thumbnails: BlobStore::new(),
            store: PostCatalog::new(),
        }
    }

    /// Makes a post of an upload whose image is `width` by `height` pixels.
    ///
    /// An upload whose file name has no extension is refused, and nothing
    /// changes. Otherwise the content is stored under its digest and
    /// extension, unless it is stored already, and its thumbnail is seen
    /// to; then the post is written. Where the post cannot be written the
    /// files stay, and no post is there.
    pub fn create_post(
        &mut self,
        post: lm::NewPost,
        width: u32,
        height: u32,
        user_name: String,
        created_at: i64,
    ) -> (r: Result<i32, CoreError>)
        requires
            old(self).wf(),
        ensures
            final(self).wf(),
            final(self).temp_path == old(self).temp_path,
            final(self).public_path == old(self).public_path,
            final(self).public_original_path == old(self).public_original_path,
            final(self).public_thumbnail_path == old(self).public_thumbnail_path,
            extension(post.filename@) is None ==> r is Err && r.unwrap_err() == CoreError::BadUpload && *final(self)
                == *old(self),
            extension(post.filename@) matches Some(ext) ==> {
                &&& final(self).originals@ == old(self).originals@.insert(blob_name(post.file.hash@, ext))
                &&& final(self).thumbnails@ == old(self).thumbnails@.insert(
                    blob_name(post.file.hash@, thumbnail_ext()),
                )
                &&& r is Ok == (old(self).store.last_id() < i32::MAX)
                &&& r matches Err(e) ==> e == CoreError::Io && final(self).store == old(self).store
                &&& r matches Ok(id) ==> exists|row: dbm::NewPost| #[trigger]
                    row_of(row, post, ext, width, height) && created(
                        old(self).store,
                        final(self).store,
                        row,
                        names_of(post.tags@),
                        user_name,
                        created_at,
                        id,
                    )
            },
    {
        let file: ProcessFileResult = match process_file(
            &post.file,
            post.filename.as_str(),
            self.public_original_path.as_str(),
        ) {
            Ok(file) => file,
            Err(e) => {
                return Err(e);
            },
        };
        let ghost ext = file.ext@;
        let name = original_name(file.hash.as_str(), file.ext.as_str());
        let _ = self.originals.promote(name.as_str());
        let (image, _): (ProcessImageResult, String) = process_image(
            &file,
            self.public_thumbnail_path.as_str(),
            width,
            height,
        );
        let _ = self.thumbnails.ensure_thumbnail(file.hash.as_str(), width, height, THUMBNAIL_SIZE);
        let (row, names) = create_post(post, file, image);
        assert(row_of(row, post, ext, width, height));
        self.store.create_post(row, &names, user_name, created_at)
    }
}

} // verus!
