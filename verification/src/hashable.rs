use vstd::prelude::*;

verus! {

/// The digest that the canonical hasher assigns to a byte sequence.
///
/// The digest is a pure function of the input bytes; nothing further is
/// assumed of it here (in particular, no algebraic properties).
pub uninterp spec fn digest_of(bytes: Seq<u8>) -> Seq<u8>;

/// Relies on crypto_hash::digest with the SHA-256 algorithm: a 32-byte
/// digest that depends on the input bytes alone.
#[verifier::external_body]
fn sha256_digest(bytes: &Vec<u8>) -> (r: Vec<u8>)
    ensures
        r@ == digest_of(bytes@),
        r@.len() == 32,
{
    crypto_hash::digest(crypto_hash::Algorithm::SHA256, bytes)
}

/// An entity with a deterministic byte encoding, hashed by digesting that
/// encoding.
pub trait Hashable: Sized {
    /// The canonical byte encoding, as a mathematical sequence.
    spec fn spec_bytes(&self) -> Seq<u8>;

    /// The canonical byte encoding.
    fn bytes(&self) -> (r: Vec<u8>)
        ensures
            r@ == self.spec_bytes(),
    ;

    /// The digest of the canonical byte encoding.
    fn hash(&self) -> (r: crate::Hash)
        ensures
            r@ == digest_of(self.spec_bytes()),
            r@.len() == 32,
    {
        let b = self.bytes();
        sha256_digest(&b)
    }
}

} // verus!
