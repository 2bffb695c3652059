//! A resource: one document as it was read from disk.
//!
//! Reading is the caller's business; what is decided here is how a resource
//! is identified (its canonical path), how a change of content is detected
//! (a SHA-256 checksum of the raw bytes), how the bytes are read as text, and
//! which title a document without a heading gets (its file name without the
//! markdown suffix).

use vstd::prelude::*;
use crate::text::{chars_of, split_chars, string_of, views};
use crate::walker::{chars_end_with, components, ends_with, markdown_suffix};

verus! {

/// The SHA-256 digest of a byte sequence.
pub uninterp spec fn sha256(data: Seq<u8>) -> Seq<u8>;

/// The text that a byte sequence decodes to as UTF-8, with U+FFFD in place
/// of every part that is no valid UTF-8.
pub uninterp spec fn lossy_text(bytes: Seq<u8>) -> Seq<char>;

/// Calls `sha2::Sha256::digest` (the `Digest` trait's one-shot function) and
/// copies the digest into a vector. Trusted: the result is the SHA-256
/// digest of exactly the bytes given, a function of those bytes alone.
#[verifier::external_body]
fn sha256_digest(data: &Vec<u8>) -> (digest: Vec<u8>)
    ensures
        digest@ == sha256(data@),
{
    <sha2::Sha256 as sha2::Digest>::digest(data.as_slice()).to_vec()
}

/// Calls `String::from_utf8_lossy` and takes ownership of its result.
/// Trusted: the text is the lossy UTF-8 decoding of exactly the bytes given,
/// a function of those bytes alone.
#[verifier::external_body]
fn decode_lossy(bytes: &Vec<u8>) -> (text: String)
    ensures
        text@ == lossy_text(bytes@),
{
    String::from_utf8_lossy(bytes.as_slice()).into_owned()
}

/// The file name of `path` without the markdown suffix, where it has one.
pub open spec fn stem(path: Seq<char>) -> Seq<char> {
    let name = components(path).last();
    if ends_with(name, markdown_suffix()) {
        name.take(name.len() - markdown_suffix().len())
    } else {
        name
    }
}

/// One document as read from disk.
#[derive(Debug)]
pub struct Resource {
    /// Canonical absolute path: the identity of the resource.
    pub path: String,
    /// Raw content.
    pub content: Vec<u8>,
    /// SHA-256 digest of the content.
    pub checksum: Vec<u8>,
    /// Time of last modification, in seconds since the epoch.
    pub modified: u64,
}

impl Resource {
    /// A resource is well formed when its checksum is that of its content.
    pub open spec fn wf(&self) -> bool {
        self.checksum@ == sha256(self.content@)
    }

    /// The resource with this path, content and modification time; its
    /// checksum is computed from the content.
    pub fn new(path: String, content: Vec<u8>, modified: u64) -> (r: Resource)
        ensures
            r.wf(),
            r.path == path,
            r.content == content,
            r.modified == modified,
    {
        let checksum = sha256_digest(&content);
        Resource { path, content, checksum, modified }
    }

    /// The content as text.
    pub fn text(&self) -> (t: String)
        ensures
            t@ == lossy_text(self.content@),
    {
        decode_lossy(&self.content)
    }

    /// The title of the resource where its text has no heading.
    pub fn fallback_title(&self) -> (t: String)
        ensures
            t@ == stem(self.path@),
    {
        let chars = chars_of(self.path.as_str());
        let parts = split_chars(&chars, '/');
        let suffix = chars_of(".md");
        assert(parts.len() >= 1) by {
            assert(views(parts@).len() == parts.len());
        }
        let name = &parts[parts.len() - 1];
        assert(name@ == components(self.path@).last()) by {
            assert(views(parts@)[parts.len() - 1] == name@);
        }
        proof {
            reveal_strlit(".md");
        }
        if chars_end_with(name, &suffix) {
            assert(name@.subrange(0, name.len() - 3) == name@.take(name.len() - 3));
            string_of(name, 0, name.len() - 3)
        } else {
            assert(name@.subrange(0, name.len() as int) == name@);
            string_of(name, 0, name.len())
        }
    }

    /// Whether the content differs from the one a checksum was taken of.
    pub fn changed_since(&self, checksum: &Vec<u8>) -> (b: bool)
        ensures
            b == (self.checksum@ != checksum@),
    {
        !eq_bytes(&self.checksum, checksum)
    }
}

/// Whether `a` and `b` hold the same bytes.
pub fn eq_bytes(a: &Vec<u8>, b: &Vec<u8>) -> (r: bool)
    ensures
        r == (a@ == b@),
{
    if a.len() != b.len() {
        return false;
    }
    let mut i: usize = 0;
    while i < a.len()
        invariant
            i <= a.len() == b.len(),
            forall|j: int| 0 <= j < i ==> a@[j] == b@[j],
        decreases a.len() - i,
    {
        if a[i] != b[i] {
            return false;
        }
        i += 1;
    }
    assert(a@ =~= b@);
    true
}

} // verus!
