//! Digests of source text.

use std::hash::Hasher;
use vstd::prelude::*;

verus! {

/// A way to give every text a 64-bit digest. The digest depends on the text
/// alone, so that equal texts always get equal digests; different texts may
/// get equal digests too.
pub trait ContentHasher: Send + Sync {
    /// The digest that this hasher gives to a text.
    spec fn digest(&self, content: Seq<char>) -> u64;

    /// The digest of `content`.
    fn hash(&self, content: &str) -> (digest: u64)
        ensures
            digest == self.digest(content@),
    ;
}

/// The digest that the Fx algorithm of `rustc_hash` gives to a text, fed to
/// a fresh hasher as one slice of its UTF-8 bytes. It is fixed for one build
/// of the library: the algorithm reads the bytes in words of the machine.
pub uninterp spec fn fx_digest(content: Seq<char>) -> u64;

/// Runs `rustc_hash::FxHasher`: `default()` for a fresh hasher, `write` with
/// the bytes of `content`, then `finish`. The crate computes the result from
/// the bytes alone, without a seed; the contract gives that result its name.
#[verifier::external_body]
fn fx_hash(content: &str) -> (digest: u64)
    ensures
        digest == fx_digest(content@),
{
    let mut hasher = rustc_hash::FxHasher::default();
    hasher.write(content.as_bytes());
    hasher.finish()
}

/// The default hasher: fast, and not meant to resist an adversary.
#[derive(Debug, PartialEq, Eq, Clone, Copy)]
pub struct FxHasher;

impl FxHasher {
    /// The hasher. It holds nothing: every digest starts afresh.
    pub fn new() -> (hasher: Self)
        ensures
            hasher == FxHasher,
    {
        FxHasher
    }
}

impl Default for FxHasher {
    fn default() -> (hasher: Self)
        ensures
            hasher == FxHasher,
    {
        FxHasher::new()
    }
}

impl ContentHasher for FxHasher {
    open spec fn digest(&self, content: Seq<char>) -> u64 {
        fx_digest(content)
    }

    fn hash(&self, content: &str) -> (digest: u64) {
        fx_hash(content)
    }
}

} // verus!
