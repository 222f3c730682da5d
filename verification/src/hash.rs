//! The digest of a file's content, computed while the content streams by.
//!
//! The digest is BLAKE3, written as 64 hexadecimal digits. The hash function
//! itself is the `blake3` crate's: this module feeds it the chunks of a
//! stream, counts the bytes, and says what the result is the digest of.

use vstd::prelude::*;

verus! {

/// The digest of a content and the number of its bytes.
#[derive(Debug)]
pub struct HashResult {
    pub hash: String,
    pub size: usize,
}

/// The `blake3` crate's incremental hasher. Verus sees nothing inside it.
#[verifier::external_type_specification]
#[verifier::external_body]
pub struct ExHasher(blake3::Hasher);

/// The bytes that a hasher has been fed so far, in the order they came.
pub uninterp spec fn absorbed(hasher: blake3::Hasher) -> Seq<u8>;

/// The BLAKE3 digest of `content`, as lower-case hexadecimal digits.
pub uninterp spec fn blake3_hex(content: Seq<u8>) -> Seq<char>;

/// `blake3::Hasher::new`: a hasher for the regular hash function, which has
/// been fed nothing yet.
#[verifier::external_body]
fn hasher_new() -> (hasher: blake3::Hasher)
    ensures
        absorbed(hasher) == Seq::<u8>::empty(),
{
    blake3::Hasher::new()
}

/// `blake3::Hasher::update`: adds `input` behind the bytes that the hasher
/// has been fed before. It may be called any number of times.
#[verifier::external_body]
fn hasher_update(hasher: &mut blake3::Hasher, input: &[u8])
    ensures
        absorbed(*final(hasher)) == absorbed(*old(hasher)) + input@,
{
    hasher.update(input);
}

/// `blake3::Hasher::finalize`, written out with `Hash::to_hex`: the digest
/// of all the bytes that the hasher has been fed. The hasher is left as it
/// is.
#[verifier::external_body]
fn hasher_hex(hasher: &blake3::Hasher) -> (digest: String)
    ensures
        digest@ == blake3_hex(absorbed(*hasher)),
{
    hasher.finalize().to_hex().to_string()
}

/// All the bytes of a sequence of chunks, in their order.
pub open spec fn joined(chunks: Seq<Seq<u8>>) -> Seq<u8>
    decreases chunks.len(),
{
    if chunks.len() == 0 {
        Seq::empty()
    } else {
        joined(chunks.drop_last()) + chunks.last()
    }
}

/// The chunks of a list of buffers.
pub open spec fn chunks_of(buffers: Seq<Vec<u8>>) -> Seq<Seq<u8>> {
    Seq::new(buffers.len(), |i: int| buffers[i]@)
}

/// A content that is being hashed chunk by chunk.
pub struct ContentHasher {
    hasher: blake3::Hasher,
    size: usize,
}

impl ContentHasher {
    /// The content so far.
    pub closed spec fn content(&self) -> Seq<u8> {
        absorbed(self.hasher)
    }

    /// The count of bytes is the length of the content.
    pub closed spec fn wf(&self) -> bool {
        self.size == absorbed(self.hasher).len()
    }

    /// Begins with the empty content.
    pub fn new() -> (r: ContentHasher)
        ensures
            r.wf(),
            r.content() == Seq::<u8>::empty(),
    {
        ContentHasher { hasher: hasher_new(), size: 0 }
    }

    /// The number of bytes so far.
    pub fn size(&self) -> (n: usize)
        requires
            self.wf(),
        ensures
            n == self.content().len(),
    {
        self.size
    }

    /// Whether a further chunk of `len` bytes can still be counted.
    pub fn has_room_for(&self, len: usize) -> (r: bool)
        requires
            self.wf(),
        ensures
            r == (self.content().len() + len <= usize::MAX),
    {
        len <= usize::MAX - self.size
    }

    /// Adds a chunk behind the content so far.
    pub fn update(&mut self, chunk: &[u8])
        requires
            old(self).wf(),
            old(self).content().len() + chunk@.len() <= usize::MAX,
        ensures
            final(self).wf(),
            final(self).content() == old(self).content() + chunk@,
    {
        hasher_update(&mut self.hasher, chunk);
        self.size = self.size + chunk.len();
    }

    /// Adds a chunk behind the content so far, unless the count of bytes
    /// would no longer fit; the answer is `false` then, and nothing
    /// changes.
    pub fn try_update(&mut self, chunk: &[u8]) -> (ok: bool)
        requires
            old(self).wf(),
        ensures
            final(self).wf(),
            ok == (old(self).content().len() + chunk@.len() <= usize::MAX),
            ok ==> final(self).content() == old(self).content() + chunk@,
            !ok ==> final(self).content() == old(self).content(),
    {
        if self.has_room_for(chunk.len()) {
            self.update(chunk);
            true
        } else {
            false
        }
    }

    /// The digest and the size of the content so far.
    pub fn finish(&self) -> (r: HashResult)
        requires
            self.wf(),
        ensures
            r.hash@ == blake3_hex(self.content()),
            r.size == self.content().len(),
    {
        HashResult { hash: hasher_hex(&self.hasher), size: self.size }
    }
}

/// The digest and the size of a content that comes in chunks. `None` where
/// the content has more bytes than can be counted.
pub fn hash_chunks(chunks: &Vec<Vec<u8>>) -> (r: Option<HashResult>)
    ensures
        r is Some == (joined(chunks_of(chunks@)).len() <= usize::MAX),
        r matches Some(result) ==> result.hash@ == blake3_hex(joined(chunks_of(chunks@))) && result.size
            == joined(chunks_of(chunks@)).len(),
{
    let mut hasher = ContentHasher::new();
    let mut i: usize = 0;
    let ghost all = chunks_of(chunks@);
    assert(all.take(0) =~= Seq::<Seq<u8>>::empty());
    while i < chunks.len()
        invariant
            i <= chunks.len(),
            all == chunks_of(chunks@),
            hasher.wf(),
            hasher.content() == joined(all.take(i as int)),
        decreases chunks.len() - i,
    {
        proof {
            assert(all.take(i + 1).drop_last() =~= all.take(i as int));
            assert(all.take(i + 1).last() == chunks@[i as int]@);
        }
        if !hasher.try_update(chunks[i].as_slice()) {
            proof {
                lemma_joined_grows(all, i + 1);
            }
            return None;
        }
        i += 1;
    }
    assert(all.take(i as int) =~= all);
    Some(hasher.finish())
}

/// The first chunks of a content hold no more bytes than all of them.
pub proof fn lemma_joined_grows(chunks: Seq<Seq<u8>>, k: int)
    requires
        0 <= k <= chunks.len(),
    ensures
        joined(chunks.take(k)).len() <= joined(chunks).len(),
    decreases chunks.len() - k,
{
    if k < chunks.len() {
        lemma_joined_grows(chunks, k + 1);
        assert(chunks.take(k + 1).drop_last() =~= chunks.take(k));
    } else {
        assert(chunks.take(k) =~= chunks);
    }
}

/// How a content is cut into chunks does not show in its digest: two
/// uploads of the same bytes report the same digest and the same size.
pub proof fn law_same_content_same_digest(first: Seq<Seq<u8>>, second: Seq<Seq<u8>>)
    requires
        joined(first) == joined(second),
    ensures
        blake3_hex(joined(first)) == blake3_hex(joined(second)),
        joined(first).len() == joined(second).len(),
{
}

} // verus!
