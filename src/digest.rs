//! The digest engine: a file's content is streamed in chunks through SHA-1,
//! and the number of bytes streamed is counted.

use vstd::prelude::*;

verus! {

/// Size of the chunks in which content is read. Any size of at least one
/// byte gives the same digest; a chunk shorter than this ends the stream.
pub const CHUNK_SIZE: usize = 8192;

#[verifier::external_type_specification]
#[verifier::external_body]
pub struct ExSha1(sha1::Sha1);

/// Whether hasher `h` is in the state that giving it the bytes `b`, in
/// order, from a fresh start leads to. Different inputs may lead to the same
/// state, so this is a relation and not a function of the hasher.
pub uninterp spec fn sha1_absorbed(h: sha1::Sha1, b: Seq<u8>) -> bool;

/// The digest of some bytes as `sha1::Digest` displays it.
pub uninterp spec fn sha1_hex(b: Seq<u8>) -> Seq<char>;

pub open spec fn is_lower_hex(c: char) -> bool {
    ('0' <= c <= '9') || ('a' <= c <= 'f')
}

/// Content longer than this cannot be digested: the hasher counts its
/// input in bits in a `u64`.
pub open spec fn hashable_len(n: nat) -> bool {
    n <= usize::MAX && n < 0x2000_0000_0000_0000
}

/// Relies on `sha1::Sha1::new`: a hasher that has been given nothing.
#[verifier::external_body]
fn sha1_new() -> (r: sha1::Sha1)
    ensures
        sha1_absorbed(r, Seq::<u8>::empty()),
{
    sha1::Sha1::new()
}

/// Relies on `sha1::Sha1::update`: the state after the data follows the
/// state before it. Its byte counter is a `u64`.
#[verifier::external_body]
fn sha1_update(h: &mut sha1::Sha1, data: &[u8])
    requires
        exists|b: Seq<u8>| #[trigger]
            sha1_absorbed(*old(h), b) && b.len() + data@.len() <= u64::MAX,
    ensures
        forall|b: Seq<u8>| #[trigger]
            sha1_absorbed(*old(h), b) ==> sha1_absorbed(*final(h), b + data@),
{
    h.update(data)
}

/// Relies on `sha1::Sha1::digest` and `Display` of `sha1::Digest`: forty
/// lowercase hex digits, the digest of what the hasher was given. It counts
/// that input in bits in a `u64`.
#[verifier::external_body]
fn sha1_hex_digest(h: &sha1::Sha1) -> (r: String)
    requires
        exists|b: Seq<u8>| #[trigger] sha1_absorbed(*h, b) && hashable_len(b.len()),
    ensures
        forall|b: Seq<u8>| #[trigger] sha1_absorbed(*h, b) ==> r@ == sha1_hex(b),
        r@.len() == 40,
        forall|i: int| 0 <= i < r@.len() ==> is_lower_hex(#[trigger] r@[i]),
{
    h.digest().to_string()
}

/// What digesting some content gives: its hex digest and its length.
pub open spec fn digest_record(content: Seq<u8>) -> (Seq<char>, nat) {
    (sha1_hex(content), content.len())
}

/// A digest in progress: the content streamed so far is its view.
pub struct DigestStream {
    hasher: sha1::Sha1,
    count: usize,
    content: Ghost<Seq<u8>>,
}

impl View for DigestStream {
    type V = Seq<u8>;

    closed spec fn view(&self) -> Seq<u8> {
        self.content@
    }
}

impl DigestStream {
    pub closed spec fn wf(&self) -> bool {
        &&& sha1_absorbed(self.hasher, self.content@)
        &&& self.count == self.content@.len()
        &&& hashable_len(self.count as nat)
    }

    pub fn new() -> (r: Self)
        ensures
            r.wf(),
            r@ == Seq::<u8>::empty(),
    {
        DigestStream { hasher: sha1_new(), count: 0, content: Ghost(Seq::empty()) }
    }

    /// Number of bytes streamed so far.
    pub fn count(&self) -> (r: usize)
        requires
            self.wf(),
        ensures
            r == self@.len(),
    {
        self.count
    }

    /// Whether `n` more bytes can still be digested.
    pub fn has_room(&self, n: usize) -> (r: bool)
        requires
            self.wf(),
        ensures
            r == hashable_len(self@.len() + n as nat),
    {
        self.count <= usize::MAX - n && ((self.count + n) as u64) < 0x2000_0000_0000_0000u64
    }

    /// Stream one chunk. Returns whether the stream has ended: a chunk
    /// shorter than `CHUNK_SIZE` is the last one.
    pub fn absorb(&mut self, chunk: &[u8]) -> (done: bool)
        requires
            old(self).wf(),
            hashable_len(old(self)@.len() + chunk@.len()),
        ensures
            final(self).wf(),
            final(self)@ == old(self)@ + chunk@,
            done == (chunk@.len() < CHUNK_SIZE),
    {
        assert(sha1_absorbed(self.hasher, self.content@));
        sha1_update(&mut self.hasher, chunk);
        self.count = self.count + chunk.len();
        self.content = Ghost(self.content@ + chunk@);
        chunk.len() < CHUNK_SIZE
    }

    /// The hex digest of the streamed content and its length in bytes.
    pub fn finish(&self) -> (r: (String, usize))
        requires
            self.wf(),
        ensures
            (r.0@, r.1 as nat) == digest_record(self@),
            r.0@.len() == 40,
            forall|i: int| 0 <= i < r.0@.len() ==> is_lower_hex(#[trigger] r.0@[i]),
    {
        assert(sha1_absorbed(self.hasher, self.content@));
        (sha1_hex_digest(&self.hasher), self.count)
    }
}

/// Two streams over the same content, however it was split into chunks,
/// record the same digest and the same byte count: what `finish` reports
/// depends on the content streamed alone.
pub proof fn lemma_digest_deterministic(a: DigestStream, b: DigestStream)
    requires
        a.wf(),
        b.wf(),
        a@ == b@,
    ensures
        digest_record(a@) == digest_record(b@),
{
}

} // verus!
