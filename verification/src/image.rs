//! From an uploaded file to a stored original and its thumbnail.
//!
//! An original is stored under its digest and its extension; the same
//! bytes uploaded twice are stored once. A thumbnail is stored under the
//! digest of its original and is made once. This module decides names and
//! what is to be done; reading, moving and encoding files is the caller's
//! work.

use vstd::prelude::*;
use crate::error::CoreError;
use crate::hash::HashResult;
use crate::models::local::HashedFile;
use crate::paths::{join_path, joined_path};

verus! {

/// The longest side, in pixels, that a thumbnail may have.
pub const THUMBNAIL_SIZE: u32 = 200;

/// The position of the last `.` in a name; -1 where it has none.
pub open spec fn last_dot(name: Seq<char>) -> int
    decreases name.len(),
{
    if name.len() == 0 {
        -1
    } else if name.last() == '.' {
        name.len() - 1
    } else {
        last_dot(name.drop_last())
    }
}

/// The extension of a file name: what follows its last `.`, if it has one.
pub open spec fn extension(name: Seq<char>) -> Option<Seq<char>> {
    if last_dot(name) < 0 {
        None
    } else {
        Some(name.skip(last_dot(name) + 1))
    }
}

/// The name under which a content with this digest and extension is
/// stored.
pub open spec fn blob_name(digest: Seq<char>, ext: Seq<char>) -> Seq<char> {
    digest + seq!['.'] + ext
}

/// The extension of every thumbnail.
pub open spec fn thumbnail_ext() -> Seq<char> {
    seq!['j', 'p', 'g']
}

/// Where the last `.` of a name is: at `at`, if a `.` stands there and
/// none behind it.
pub proof fn lemma_last_dot_at(name: Seq<char>, at: int)
    requires
        -1 <= at < name.len(),
        at >= 0 ==> name[at] == '.',
        forall|j: int| at < j < name.len() ==> name[j] != '.',
    ensures
        last_dot(name) == at,
    decreases name.len(),
{
    if name.len() > 0 && at < name.len() - 1 {
        let front = name.drop_last();
        assert(name.last() == name[name.len() - 1]);
        lemma_last_dot_at(front, at);
    }
}

/// A stored name gives its extension back: digest and extension are read
/// off the name of a blob, as long as the extension itself holds no `.`.
pub proof fn law_blob_name_round_trip(digest: Seq<char>, ext: Seq<char>)
    requires
        !ext.contains('.'),
    ensures
        extension(blob_name(digest, ext)) == Some(ext),
        last_dot(blob_name(digest, ext)) == digest.len(),
        blob_name(digest, ext).take(digest.len() as int) == digest,
{
    let name = blob_name(digest, ext);
    assert forall|j: int| digest.len() < j < name.len() implies name[j] != '.' by {
        assert(name[j] == ext[j - digest.len() - 1]);
        assert(ext.contains(ext[j - digest.len() - 1]));
    }
    lemma_last_dot_at(name, digest.len() as int);
    assert(name.skip(digest.len() as int + 1) =~= ext);
    assert(name.take(digest.len() as int) =~= digest);
}

/// Two contents are stored under one name only if they have the same
/// digest and the same extension.
pub proof fn law_blob_name_injective(d1: Seq<char>, e1: Seq<char>, d2: Seq<char>, e2: Seq<char>)
    requires
        !e1.contains('.'),
        !e2.contains('.'),
        blob_name(d1, e1) == blob_name(d2, e2),
    ensures
        d1 == d2,
        e1 == e2,
{
    law_blob_name_round_trip(d1, e1);
    law_blob_name_round_trip(d2, e2);
}

/// The extension of a file name: what follows its last `.`.
pub fn extension_of(filename: &str) -> (r: Option<String>)
    ensures
        r is Some == extension(filename@) is Some,
        r matches Some(ext) ==> Some(ext@) == extension(filename@),
{
    let n = filename.unicode_len();
    let mut i: usize = n;
    while i > 0
        invariant
            i <= n,
            n == filename@.len(),
            forall|j: int| i <= j < n ==> filename@[j] != '.',
        decreases i,
    {
        i -= 1;
        if filename.get_char(i) == '.' {
            proof {
                lemma_last_dot_at(filename@, i as int);
            }
            let ext = filename.substring_char(i + 1, n);
            assert(filename@.subrange(i + 1, n as int) =~= filename@.skip(i + 1));
            return Some(String::from_str(ext));
        }
    }
    proof {
        lemma_last_dot_at(filename@, -1);
    }
    None
}

/// The name under which a content with this digest and extension is
/// stored: digest, `.`, extension.
pub fn original_name(digest: &str, ext: &str) -> (r: String)
    ensures
        r@ == blob_name(digest@, ext@),
{
    let mut r = String::from_str(digest);
    proof {
        reveal_strlit(".");
        assert("."@ =~= seq!['.']);
    }
    r.append(".");
    r.append(ext);
    r
}

/// The name under which the thumbnail of a content is stored.
pub fn thumbnail_name(digest: &str) -> (r: String)
    ensures
        r@ == blob_name(digest@, thumbnail_ext()),
{
    proof {
        reveal_strlit("jpg");
        assert("jpg"@ =~= thumbnail_ext());
    }
    original_name(digest, "jpg")
}

/// Where an upload belongs.
#[derive(Debug)]
pub struct ProcessFileResult {
    pub hash: String,
    pub ext: String,
    pub original_image_path: String,
}

/// What is known of an image once its thumbnail is seen to.
#[derive(Debug)]
pub struct ProcessImageResult {
    pub width: u32,
    pub height: u32,
    pub tn_ext: String,
}

/// What to do with the temporary file of an upload.
#[derive(Clone, Copy, Debug, PartialEq, Eq, Structural)]
pub enum Promotion {
    /// The content is new: move the temporary file to its place.
    Store,
    /// The content is stored already: delete the temporary file.
    Discard,
}

/// What to do after trying to rename a file to its new place.
#[derive(Clone, Copy, Debug, PartialEq, Eq, Structural)]
pub enum MoveStep {
    /// The file is in place.
    Done,
    /// It could not be renamed: copy it, then delete the source.
    CopyThenRemove,
}

/// What to do for the thumbnail of an image.
#[derive(Clone, Copy, Debug, PartialEq, Eq, Structural)]
pub enum ThumbnailAction {
    /// There is one: leave it, and do not open the original.
    Keep,
    /// The image is small enough: encode it again as it is.
    Encode,
    /// A side of the image is too long: scale it down, then encode it.
    Resize,
}

/// Where the file of an upload belongs: below `destination_path`, under
/// its digest and the extension of the name it was uploaded with. A name
/// without extension is refused.
pub fn process_file(file: &HashedFile, filename: &str, destination_path: &str) -> (r: Result<
    ProcessFileResult,
    CoreError,
>)
    ensures
        r is Ok == extension(filename@) is Some,
        r matches Err(e) ==> e == CoreError::BadUpload,
        r matches Ok(plan) ==> {
            &&& plan.hash@ == file.hash@
            &&& Some(plan.ext@) == extension(filename@)
            &&& plan.original_image_path@ == joined_path(destination_path@, blob_name(file.hash@, plan.ext@))
        },
{
    match extension_of(filename) {
        None => Err(CoreError::BadUpload),
        Some(ext) => {
            let name = original_name(file.hash.as_str(), ext.as_str());
            let original_image_path = join_path(destination_path, name.as_str());
            Ok(ProcessFileResult { hash: file.hash.clone(), ext, original_image_path })
        },
    }
}

/// What to do with the temporary file, given whether its content is stored
/// already.
pub open spec fn promotion_for(already_stored: bool) -> Promotion {
    if already_stored {
        Promotion::Discard
    } else {
        Promotion::Store
    }
}

/// What to do for the thumbnail of an image of `width` by `height` pixels,
/// given whether there is one already.
pub open spec fn thumbnail_action_for(present: bool, width: u32, height: u32, max_dimension: u32) -> ThumbnailAction {
    if present {
        ThumbnailAction::Keep
    } else if width > max_dimension || height > max_dimension {
        ThumbnailAction::Resize
    } else {
        ThumbnailAction::Encode
    }
}

/// What to do with the temporary file, given whether its content is stored
/// already. That the place is taken is no failure: whoever stored the
/// content first, it is there.
pub fn promotion(already_stored: bool) -> (r: Promotion)
    ensures
        r == promotion_for(already_stored),
{
    if already_stored {
        Promotion::Discard
    } else {
        Promotion::Store
    }
}

/// What to do after trying to rename a file to its new place.
pub fn move_file(renamed: bool) -> (r: MoveStep)
    ensures
        r == (if renamed {
            MoveStep::Done
        } else {
            MoveStep::CopyThenRemove
        }),
{
    if renamed {
        MoveStep::Done
    } else {
        MoveStep::CopyThenRemove
    }
}

/// What to do for the thumbnail of an image of `width` by `height` pixels,
/// given whether there is one already. An image is scaled only where a
/// side is longer than `max_dimension`: it is never made larger.
pub fn plan_thumbnail(present: bool, width: u32, height: u32, max_dimension: u32) -> (r: ThumbnailAction)
    ensures
        r == thumbnail_action_for(present, width, height, max_dimension),
{
    if present {
        ThumbnailAction::Keep
    } else if width > max_dimension || height > max_dimension {
        ThumbnailAction::Resize
    } else {
        ThumbnailAction::Encode
    }
}

/// Where the thumbnail of a stored original belongs, and what is known of
/// the image: its size in pixels and the extension of its thumbnail.
pub fn process_image(file: &ProcessFileResult, thumbnail_path: &str, width: u32, height: u32) -> (r: (
    ProcessImageResult,
    String,
))
    ensures
        r.0.width == width,
        r.0.height == height,
        r.0.tn_ext@ == thumbnail_ext(),
        r.1@ == joined_path(thumbnail_path@, blob_name(file.hash@, thumbnail_ext())),
{
    proof {
        reveal_strlit("jpg");
        assert("jpg"@ =~= thumbnail_ext());
    }
    let name = thumbnail_name(file.hash.as_str());
    let path = join_path(thumbnail_path, name.as_str());
    (ProcessImageResult { width, height, tn_ext: String::from_str("jpg") }, path)
}

/// Whether files with this extension are shown as they were uploaded:
/// animations, which a thumbnail's encoding would bring to a halt.
pub fn is_preserve_original(ext: &str) -> (r: bool)
    ensures
        r == (ext@ == seq!['g', 'i', 'f']),
{
    proof {
        reveal_strlit("gif");
        assert("gif"@ =~= seq!['g', 'i', 'f']);
    }
    let gif = String::from_str("gif");
    let given = String::from_str(ext);
    given == gif
}

/// The names under which contents are stored in one directory.
pub struct BlobStore {
    names: Vec<String>,
}

impl View for BlobStore {
    type V = Set<Seq<char>>;

    closed spec fn view(&self) -> Set<Seq<char>> {
        crate::names::names_of(self.names@).to_set()
    }
}

impl BlobStore {
    /// No name is kept twice.
    pub closed spec fn wf(&self) -> bool {
        crate::names::names_of(self.names@).no_duplicates()
    }

    /// The number of names kept.
    pub closed spec fn count(&self) -> nat {
        self.names@.len()
    }

    /// A directory without files.
    pub fn new() -> (r: BlobStore)
        ensures
            r.wf(),
            r@ == Set::<Seq<char>>::empty(),
            r.count() == 0,
    {
        let r = BlobStore { names: Vec::new() };
        assert(r@ =~= Set::<Seq<char>>::empty());
        r
    }

    /// The number of files.
    pub fn len(&self) -> (n: usize)
        ensures
            n == self.count(),
    {
        self.names.len()
    }

    /// Whether a file with this name is there.
    pub fn holds(&self, name: &str) -> (r: bool)
        ensures
            r == self@.contains(name@),
    {
        crate::names::contains_name(&self.names, name)
    }

    /// Brings a content to its place under `name`: it is stored where the
    /// name is free, and discarded where the name is taken.
    pub fn promote(&mut self, name: &str) -> (r: Promotion)
        requires
            old(self).wf(),
        ensures
            final(self).wf(),
            r == promotion_for(old(self)@.contains(name@)),
            final(self)@ == old(self)@.insert(name@),
            final(self).count() == old(self).count() + (if old(self)@.contains(name@) {
                0nat
            } else {
                1nat
            }),
    {
        let action = promotion(self.holds(name));
        match action {
            Promotion::Discard => {
                assert(self@.insert(name@) =~= self@);
            },
            Promotion::Store => {
                let ghost before = crate::names::names_of(self.names@);
                self.names.push(String::from_str(name));
                proof {
                    let after = crate::names::names_of(self.names@);
                    assert(after =~= before.push(name@));
                    assert forall|i: int, j: int| 0 <= i < after.len() && 0 <= j < after.len() && i
                        != j implies after[i] != after[j] by {
                        if i < before.len() {
                            assert(before.contains(before[i]));
                        }
                        if j < before.len() {
                            assert(before.contains(before[j]));
                        }
                    }
                    assert forall|n: Seq<char>| after.to_set().contains(n) == before.to_set().insert(
                        name@,
                    ).contains(n) by {
                        if after.contains(n) {
                            let k = choose|k: int| 0 <= k < after.len() && after[k] == n;
                            if k < before.len() {
                                assert(before[k] == n);
                            }
                        }
                        if before.contains(n) {
                            let k = choose|k: int| 0 <= k < before.len() && before[k] == n;
                            assert(after[k] == n);
                        }
                        if n == name@ {
                            assert(after[before.len() as int] == n);
                        }
                    }
                    assert(after.to_set() =~= before.to_set().insert(name@));
                }
            },
        }
        action
    }

    /// Sees to the thumbnail of the content with this digest: where there
    /// is one it is kept, and otherwise one is made and stored.
    pub fn ensure_thumbnail(&mut self, digest: &str, width: u32, height: u32, max_dimension: u32) -> (r: (
        String,
        ThumbnailAction,
    ))
        requires
            old(self).wf(),
        ensures
            final(self).wf(),
            r.0@ == blob_name(digest@, thumbnail_ext()),
            r.1 == thumbnail_action_for(old(self)@.contains(r.0@), width, height, max_dimension),
            final(self)@ == old(self)@.insert(r.0@),
    {
        let name = thumbnail_name(digest);
        let action = plan_thumbnail(self.holds(name.as_str()), width, height, max_dimension);
        let _ = self.promote(name.as_str());
        (name, action)
    }
}

/// The same content brought to its place twice is stored once: whatever
/// the directory held before, the second time the content is discarded, and
/// the directory stays as the first time left it.
pub proof fn law_promotion_is_idempotent(store: Set<Seq<char>>, digest: Seq<char>, ext: Seq<char>)
    ensures
        promotion_for(store.insert(blob_name(digest, ext)).contains(blob_name(digest, ext))) == Promotion::Discard,
        store.insert(blob_name(digest, ext)).insert(blob_name(digest, ext)) == store.insert(
            blob_name(digest, ext),
        ),
{
    let name = blob_name(digest, ext);
    assert(store.insert(name).insert(name) =~= store.insert(name));
}

/// A thumbnail is made once: once the thumbnail of a content has been seen
/// to, seeing to it again keeps what is there, whatever size the image is
/// said to have, and changes nothing in the directory.
pub proof fn law_thumbnail_made_once(
    store: Set<Seq<char>>,
    digest: Seq<char>,
    width: u32,
    height: u32,
    max_dimension: u32,
)
    ensures
        thumbnail_action_for(
            store.insert(blob_name(digest, thumbnail_ext())).contains(blob_name(digest, thumbnail_ext())),
            width,
            height,
            max_dimension,
        ) == ThumbnailAction::Keep,
        store.insert(blob_name(digest, thumbnail_ext())).insert(blob_name(digest, thumbnail_ext()))
            == store.insert(blob_name(digest, thumbnail_ext())),
{
    let name = blob_name(digest, thumbnail_ext());
    assert(store.insert(name).insert(name) =~= store.insert(name));
}

/// `uuid::Uuid::new_v4` written out with `to_string`: a name made of
/// random bits. Which name it is nobody can say; written with hyphens, as
/// `to_string` does, it has 36 characters.
#[verifier::external_body]
fn random_name() -> (name: String)
    ensures
        name@.len() == 36,
{
    uuid::Uuid::new_v4().to_string()
}

/// The place for an upload in flight: a file with a random name of 36
/// characters in the directory for temporary files.
pub fn temp_file(temp_path: &str) -> (r: String)
    ensures
        exists|name: Seq<char>| name.len() == 36 && r@ == joined_path(temp_path@, name),
{
    let name = random_name();
    join_path(temp_path, name.as_str())
}

/// An upload that has been written to `path` and hashed on the way.
pub fn hashed_file(result: HashResult, path: String) -> (r: HashedFile)
    ensures
        r.hash == result.hash,
        r.size == result.size,
        r.path == path,
{
    HashedFile { hash: result.hash, size: result.size as u64, path }
}

} // verus!
