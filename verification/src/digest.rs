//! SHA-1 digests, as the format stores them: twenty raw bytes.

use vstd::prelude::*;
use crypto::digest::Digest;
use crypto::sha1::Sha1 as Sha1Hasher;
use crate::error::Error;

verus! {

/// A stored or computed SHA-1 digest.
pub type Sha1 = [u8; 20];

/// The first length, in bytes, that the hasher does not take: its bit counter
/// has 64 bits.
pub const SHA1_INPUT_LIMIT: u64 = 0x2000_0000_0000_0000;

/// The SHA-1 digest of `data`. Nothing is stated of it but that it is a
/// function of the bytes.
pub uninterp spec fn spec_sha1(data: Seq<u8>) -> Seq<u8>;

/// `crypto::sha1::Sha1` of rust-crypto, fed once and read once: `new`, `input`
/// with all of `data`, then `result` into twenty bytes. The contract names what
/// comes out. The bound keeps the hasher's bit counter from overflowing, on
/// which `input` panics.
#[verifier::external_body]
fn sha1_raw(data: &[u8]) -> (digest: Sha1)
    requires
        data@.len() < SHA1_INPUT_LIMIT,
    ensures
        digest@ == spec_sha1(data@),
{
    let mut hasher = Sha1Hasher::new();
    hasher.input(data);
    let mut digest: Sha1 = [0u8; 20];
    hasher.result(&mut digest);
    digest
}

/// Whether `data` is short enough to be hashed.
pub open spec fn spec_hashable(data: Seq<u8>) -> bool {
    data.len() < SHA1_INPUT_LIMIT
}

/// The SHA-1 digest of `data`, or `Oversize` where the data is too long to be
/// hashed.
pub fn sha1_of(data: &[u8]) -> (r: Result<Sha1, Error>)
    ensures
        match r {
            Ok(digest) => spec_hashable(data@) && digest@ == spec_sha1(data@),
            Err(e) => e == Error::Oversize && !spec_hashable(data@),
        },
{
    if data.len() as u64 >= SHA1_INPUT_LIMIT {
        return Err(Error::Oversize);
    }
    Ok(sha1_raw(data))
}

/// Whether two digests hold the same bytes.
pub fn digest_eq(a: &Sha1, b: &Sha1) -> (r: bool)
    ensures
        r == (a@ == b@),
{
    let mut i: usize = 0;
    while i < 20
        invariant
            i <= 20,
            forall|j: int| 0 <= j < i ==> a@[j] == b@[j],
        decreases 20 - i,
    {
        if a[i] != b[i] {
            return false;
        }
        i += 1;
    }
    assert(a@ =~= b@);
    true
}

/// Whether a digest is all zero: the mark of an entry that was never hashed.
pub open spec fn spec_is_null_digest(digest: Seq<u8>) -> bool {
    forall|j: int| 0 <= j < digest.len() ==> digest[j] == 0
}

/// Whether `digest` is all zero.
pub fn is_null_digest(digest: &Sha1) -> (r: bool)
    ensures
        r == spec_is_null_digest(digest@),
{
    let mut i: usize = 0;
    while i < 20
        invariant
            i <= 20,
            forall|j: int| 0 <= j < i ==> digest@[j] == 0,
        decreases 20 - i,
    {
        if digest[i] != 0 {
            return false;
        }
        i += 1;
    }
    true
}

} // verus!
