//! Content digests: SHA-256 over a file's full byte stream, written as
//! lower-case hexadecimal.
//!
//! The digest itself is computed by the `sha2` crate and encoded by the `hex`
//! crate. What this module proves is everything around those calls: that
//! feeding a content chunk by chunk, whatever the chunk size, yields the
//! digest of the whole content.
use sha2::Digest;
use vstd::prelude::*;
use vstd::slice::slice_subrange;

verus! {

/// SHA-256 is defined for messages shorter than 2^64 bits; the `sha2` crate
/// counts the message length in a `u64` of bits, so a hasher is never handed
/// this many bytes or more.
pub const MAX_CONTENT_BYTES: u64 = 0x2000_0000_0000_0000;

/// A running SHA-256 computation of the `sha2` crate.
///
/// The value is opaque to the verifier. All that is known of it is the byte
/// string it has absorbed so far, [`sha256_absorbed`].
#[verifier::external_body]
pub struct Sha256State {
    inner: sha2::Sha256,
}

/// The bytes a running SHA-256 computation has absorbed, in order.
pub uninterp spec fn sha256_absorbed(state: Sha256State) -> Seq<u8>;

/// The SHA-256 digest of a message.
pub uninterp spec fn sha256(message: Seq<u8>) -> Seq<u8>;

/// The lower-case hexadecimal digit of a value below sixteen.
pub open spec fn hex_digit(nibble: int) -> char {
    seq!['0', '1', '2', '3', '4', '5', '6', '7', '8', '9', 'a', 'b', 'c', 'd', 'e', 'f'][nibble]
}

/// Two lower-case hexadecimal digits per byte, high nibble first.
pub open spec fn hex_string(bytes: Seq<u8>) -> Seq<char> {
    Seq::new(
        2 * bytes.len(),
        |i: int|
            if i % 2 == 0 {
                hex_digit(bytes[i / 2] as int / 16)
            } else {
                hex_digit(bytes[i / 2] as int % 16)
            },
    )
}

/// The digest string of a content: its SHA-256 digest in hexadecimal.
pub open spec fn content_digest(content: Seq<u8>) -> Seq<char> {
    hex_string(sha256(content))
}

/// The number of bytes in a SHA-256 digest.
pub const DIGEST_BYTES: usize = 32;

/// Whether a character is a lower-case hexadecimal digit.
pub open spec fn is_hex_digit(c: char) -> bool {
    ('0' <= c && c <= '9') || ('a' <= c && c <= 'f')
}

/// Whether a text has the form of a digest string: two lower-case
/// hexadecimal digits for each byte of a SHA-256 digest.
pub open spec fn is_digest_text(text: Seq<char>) -> bool {
    &&& text.len() == 2 * DIGEST_BYTES
    &&& forall|i: int| 0 <= i < text.len() ==> is_hex_digit(#[trigger] text[i])
}

/// The hexadecimal form of a byte string is twice as long as the byte
/// string and holds lower-case hexadecimal digits only.
pub proof fn lemma_hex_string_shape(bytes: Seq<u8>)
    ensures
        hex_string(bytes).len() == 2 * bytes.len(),
        forall|i: int| 0 <= i < 2 * bytes.len() ==> is_hex_digit(#[trigger] hex_string(bytes)[i]),
{
    assert forall|i: int| 0 <= i < 2 * bytes.len() implies is_hex_digit(
        #[trigger] hex_string(bytes)[i],
    ) by {
        let byte = bytes[i / 2] as int;
        let nibble = if i % 2 == 0 {
            byte / 16
        } else {
            byte % 16
        };
        assert(0 <= nibble < 16);
        assert(hex_string(bytes)[i] == hex_digit(nibble));
        assert(is_hex_digit(hex_digit(nibble)));
    }
}

/// `sha2::Sha256::new`: a fresh computation, which has absorbed nothing.
#[verifier::external_body]
fn sha256_new() -> (state: Sha256State)
    ensures
        sha256_absorbed(state) == Seq::<u8>::empty(),
{
    Sha256State { inner: sha2::Sha256::new() }
}

/// `sha2::Digest::update`: the computation absorbs `data` after what it had
/// absorbed before. The total stays below the message length SHA-256 is
/// defined for.
#[verifier::external_body]
fn sha256_update(state: &mut Sha256State, data: &[u8])
    requires
        sha256_absorbed(*old(state)).len() + data@.len() < MAX_CONTENT_BYTES,
    ensures
        sha256_absorbed(*final(state)) == sha256_absorbed(*old(state)) + data@,
{
    state.inner.update(data);
}

/// `sha2::Digest::finalize`: the SHA-256 digest of everything absorbed,
/// which is 32 bytes long.
#[verifier::external_body]
fn sha256_finalize(state: Sha256State) -> (digest: Vec<u8>)
    requires
        sha256_absorbed(state).len() < MAX_CONTENT_BYTES,
    ensures
        digest@ == sha256(sha256_absorbed(state)),
        digest@.len() == DIGEST_BYTES,
{
    state.inner.finalize().to_vec()
}

/// `hex::encode`: each byte becomes two lower-case hexadecimal digits, the
/// high nibble first.
#[verifier::external_body]
fn hex_encode(bytes: &[u8]) -> (text: String)
    ensures
        text@ == hex_string(bytes@),
{
    hex::encode(bytes)
}

/// A streaming digest of one file's content.
///
/// Memory use does not depend on the content's size: the caller reads the
/// file in chunks and hands each chunk over.
pub struct ContentHasher {
    state: Sha256State,
    length: u64,
}

impl ContentHasher {
    /// The bytes handed over so far.
    pub closed spec fn content(&self) -> Seq<u8> {
        sha256_absorbed(self.state)
    }

    /// The byte count is tracked exactly and stays below the limit.
    pub closed spec fn wf(&self) -> bool {
        &&& self.length == self.content().len()
        &&& self.length < MAX_CONTENT_BYTES
    }

    /// A hasher that has seen no content yet.
    pub fn new() -> (hasher: ContentHasher)
        ensures
            hasher.wf(),
            hasher.content() == Seq::<u8>::empty(),
    {
        ContentHasher { state: sha256_new(), length: 0 }
    }

    /// The number of bytes handed over so far.
    pub fn len(&self) -> (n: u64)
        requires
            self.wf(),
        ensures
            n == self.content().len(),
            n < MAX_CONTENT_BYTES,
    {
        self.length
    }

    /// Whether a further chunk of `count` bytes still fits.
    pub open spec fn admits(&self, count: nat) -> bool {
        self.content().len() + count < MAX_CONTENT_BYTES
    }

    /// Hands over the next chunk of the content.
    ///
    /// Returns `false`, and leaves the hasher as it was, exactly when the
    /// chunk would take the content to the length limit or beyond.
    pub fn absorb(&mut self, chunk: &[u8]) -> (accepted: bool)
        requires
            old(self).wf(),
        ensures
            final(self).wf(),
            accepted == old(self).admits(chunk@.len()),
            accepted ==> final(self).content() == old(self).content() + chunk@,
            !accepted ==> *final(self) == *old(self),
    {
        let room: u64 = MAX_CONTENT_BYTES - 1 - self.length;
        if chunk.len() as u64 > room {
            return false;
        }
        sha256_update(&mut self.state, chunk);
        self.length = self.length + chunk.len() as u64;
        true
    }

    /// Ends the stream and returns the digest string of the whole content:
    /// 64 lower-case hexadecimal digits.
    pub fn finish(self) -> (digest: String)
        requires
            self.wf(),
        ensures
            digest@ == content_digest(self.content()),
            is_digest_text(digest@),
    {
        let raw = sha256_finalize(self.state);
        proof {
            lemma_hex_string_shape(raw@);
        }
        hex_encode(raw.as_slice())
    }
}

/// The digest string of an in-memory content, read in chunks of
/// `buffer_size` bytes as a file is.
///
/// The result does not depend on `buffer_size`, and is 64 lower-case
/// hexadecimal digits whatever the content.
pub fn hash_content(content: &[u8], buffer_size: usize) -> (digest: String)
    requires
        buffer_size > 0,
        content@.len() < MAX_CONTENT_BYTES,
    ensures
        digest@ == content_digest(content@),
        is_digest_text(digest@),
{
    let mut hasher = ContentHasher::new();
    let total: usize = content.len();
    let mut offset: usize = 0;
    while offset < total
        invariant
            hasher.wf(),
            offset <= total,
            total == content@.len(),
            total < MAX_CONTENT_BYTES,
            buffer_size > 0,
            hasher.content() == content@.subrange(0, offset as int),
        decreases total - offset,
    {
        let rest: usize = total - offset;
        let count: usize = if rest < buffer_size { rest } else { buffer_size };
        let chunk = slice_subrange(content, offset, offset + count);
        let accepted = hasher.absorb(chunk);
        assert(accepted);
        assert(content@.subrange(0, offset as int) + chunk@ == content@.subrange(
            0,
            offset + count,
        ));
        offset = offset + count;
    }
    assert(content@.subrange(0, offset as int) == content@);
    hasher.finish()
}

} // verus!
