//! The hashing capability injected into a tree at construction, and the
//! item-side counterpart: a byte view that the tree hashes.

use vstd::prelude::*;

verus! {

/// A deterministic mapping from byte sequences to digest byte sequences.
///
/// The tree stores one value of an implementing type for its whole lifetime
/// and invokes it on every leaf creation and on every internal combine.
/// `hash_spec` is the mathematical function the implementation computes;
/// `hash` must return exactly that.
pub trait Hasher {
    spec fn hash_spec(&self, input: Seq<u8>) -> Seq<u8>;

    fn hash(&self, input: &[u8]) -> (r: Vec<u8>)
        ensures
            r@ == self.hash_spec(input@),
    ;
}

/// An item that can be inserted into a tree: it exposes the byte sequence
/// that is fed to the hash function.
pub trait HashInput {
    spec fn bytes(&self) -> Seq<u8>;

    fn byte_view(&self) -> (r: &[u8])
        ensures
            r@ == self.bytes(),
    ;
}

/// The digest that the MD5 algorithm assigns to a byte sequence.
/// Its value is determined by the input bytes alone; it is not given
/// a definition here.
pub uninterp spec fn md5_of(input: Seq<u8>) -> Seq<u8>;

/// Relies on md5::compute: a 16-byte digest that depends on the input
/// bytes alone.
#[verifier::external_body]
fn md5_digest(input: &[u8]) -> (r: Vec<u8>)
    ensures
        r@ == md5_of(input@),
        r@.len() == 16,
{
    md5::compute(input).0.to_vec()
}

/// The MD5 hash function, packaged as a `Hasher` capability.
pub struct Md5Hasher;

impl Hasher for Md5Hasher {
    open spec fn hash_spec(&self, input: Seq<u8>) -> Seq<u8> {
        md5_of(input)
    }

    fn hash(&self, input: &[u8]) -> (r: Vec<u8>) {
        md5_digest(input)
    }
}

impl HashInput for Vec<u8> {
    open spec fn bytes(&self) -> Seq<u8> {
        self@
    }

    fn byte_view(&self) -> (r: &[u8]) {
        self.as_slice()
    }
}

} // verus!
