//! The hash engine: a deterministic SHA-256 digest of a string's bytes,
//! computed by the `ring` crate behind a single trusted wrapper.

use vstd::prelude::*;

verus! {

/// The SHA-256 digest of a string. The digest is a pure function of the
/// input characters: the engine hashes the UTF-8 bytes of the string, and
/// UTF-8 encoding is itself deterministic.
pub uninterp spec fn sha256_of(s: Seq<char>) -> Seq<u8>;

/// An input short enough for the hash engine: SHA-256 is defined for inputs
/// below 2^61 bytes, and a character encodes to at most four bytes, so any
/// string of fewer than 2^59 characters is accepted.
pub open spec fn hash_input_ok(s: Seq<char>) -> bool {
    s.len() < 0x0800_0000_0000_0000
}

/// Relies on ring's `digest::Context` with `digest::SHA256`: the digest is a
/// function of the input bytes alone, and a SHA-256 digest is 32 bytes long.
/// The precondition keeps the input below SHA-256's length limit, past which
/// `finish` would not return a digest.
#[verifier::external_body]
pub fn calculate_hash(data: String) -> (r: Vec<u8>)
    requires
        hash_input_ok(data@),
    ensures
        r@ == sha256_of(data@),
        r@.len() == 32,
{
    let mut context = ring::digest::Context::new(&ring::digest::SHA256);
    context.update(data.as_bytes());
    context.finish().as_ref().to_vec()
}

} // verus!
