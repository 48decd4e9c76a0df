//! SHA-1, by which pieces and torrents are told apart.

use crypto::digest::Digest;
use crypto::sha1::Sha1;
use vstd::prelude::*;

verus! {

/// The SHA-1 digest of `data`: twenty bytes.
pub uninterp spec fn sha1_digest(data: Seq<u8>) -> Seq<u8>;

/// The longest input, in bytes, whose length in bits the digest can count.
pub open spec fn sha1_limit() -> int {
    0x2000_0000_0000_0000
}

/// `crypto::sha1::Sha1`, fed through `crypto::digest::Digest::input` and read
/// with `Digest::result`: the SHA-1 digest of `data`, twenty bytes long. The
/// digest counts its input in a 64-bit number of bits and gives up beyond
/// that, so longer inputs are left out.
#[verifier::external_body]
pub(crate) fn sha1(data: &[u8]) -> (digest: Vec<u8>)
    requires
        data@.len() < sha1_limit(),
    ensures
        digest@ == sha1_digest(data@),
        digest@.len() == 20,
{
    let mut hasher = Sha1::new();
    hasher.input(data);
    let mut digest = vec![0u8; 20];
    hasher.result(&mut digest);
    digest
}

} // verus!
