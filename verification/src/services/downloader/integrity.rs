//! The integrity check of the downloaded model: its SHA-256 digest, taken
//! chunk by chunk as the file is read, against the published hash.

use crate::services::downloader::{hash_matches, same_ignoring_ascii_case};
use sha2::Digest;
use vstd::prelude::*;

verus! {

/// A running SHA-256 hasher. Verus refuses to declare `sha2::Sha256` (an
/// alias of a wrapper type with typenum parameters), so the hasher is held
/// in a private field that only the wrappers below touch.
#[verifier::external_body]
pub struct Sha256State {
    inner: sha2::Sha256,
}

/// The bytes that a SHA-256 hasher has taken in so far, in order.
pub uninterp spec fn sha256_taken(h: Sha256State) -> Seq<u8>;

/// The SHA-256 digest of `data` written as 64 lower-case hex digits.
pub uninterp spec fn sha256_hex(data: Seq<u8>) -> Seq<char>;

/// A hasher that has taken in nothing.
///
/// Trusted: calls `Sha256::new` (digest's `Digest::new`), a fresh hasher.
#[verifier::external_body]
fn sha256_new() -> (h: Sha256State)
    ensures
        sha256_taken(h) == Seq::<u8>::empty(),
{
    Sha256State { inner: sha2::Sha256::new() }
}

/// Feeds bytes to a hasher.
///
/// Trusted: calls `Digest::update`, which appends `data` to the input
/// processed so far.
#[verifier::external_body]
fn sha256_update(h: &mut Sha256State, data: &[u8])
    ensures
        sha256_taken(*final(h)) == sha256_taken(*old(h)) + data@,
{
    h.inner.update(data)
}

/// The digest of everything a hasher took in, in lower-case hex.
///
/// Trusted: calls `Digest::finalize` and formats the digest with `{:x}`
/// (two lower-case hex digits per byte); the result is named `sha256_hex`
/// of the bytes taken in.
#[verifier::external_body]
fn sha256_finalize_hex(h: Sha256State) -> (r: String)
    ensures
        r@ == sha256_hex(sha256_taken(h)),
{
    format!("{:x}", h.inner.finalize())
}

/// The SHA-256 digest of a file, taken over the chunks in which it is read.
pub struct FileHasher {
    state: Sha256State,
}

impl View for FileHasher {
    type V = Seq<u8>;

    closed spec fn view(&self) -> Seq<u8> {
        sha256_taken(self.state)
    }
}

impl FileHasher {
    /// A hasher that has read nothing.
    pub fn new() -> (r: Self)
        ensures
            r@ == Seq::<u8>::empty(),
    {
        FileHasher { state: sha256_new() }
    }

    /// Takes in the next chunk of the file.
    pub fn update(&mut self, chunk: &[u8])
        ensures
            final(self)@ == old(self)@ + chunk@,
    {
        sha256_update(&mut self.state, chunk);
    }

    /// The hex digest of all the bytes read, as `calculate_file_hash` gives
    /// it.
    pub fn finish(self) -> (r: String)
        ensures
            r@ == sha256_hex(self@),
    {
        sha256_finalize_hex(self.state)
    }
}

/// Whether the bytes read so far hash to the published hash, hex digits
/// compared without case.
pub fn model_hash_matches(hasher: FileHasher, expected_hash: &str) -> (r: bool)
    ensures
        r == same_ignoring_ascii_case(sha256_hex(hasher@), expected_hash@),
{
    let local = hasher.finish();
    hash_matches(local.as_str(), expected_hash)
}

} // verus!
