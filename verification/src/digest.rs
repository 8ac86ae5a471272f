//! The checksum engine: one 32-byte digest over the whole archive with both
//! checksum storage fields replaced by zeros, so the digest can be verified
//! against an archive that stores it.
use vstd::prelude::*;

use crate::bytes::{extend_range, push_zeros, zeros};

verus! {

/// The 32-byte digest of `data`. The digest function is the one fact this
/// crate takes on trust about hashing; nothing else is assumed of it.
pub uninterp spec fn digest_of(data: Seq<u8>) -> Seq<u8>;

/// Relies on `blake3::hash`: a 32-byte digest that is a function of the
/// input bytes alone.
#[verifier::external_body]
pub(crate) fn blake3_digest(data: &Vec<u8>) -> (r: Vec<u8>)
    ensures
        r@ == digest_of(data@),
        r@.len() == 32,
{
    blake3::hash(data.as_slice()).as_bytes().to_vec()
}

/// The bytes the whole-archive digest is computed over: the archive with the
/// header checksum field (bytes 36..68) and the end-record checksum field
/// (the 32 bytes starting 44 from the end) both replaced by zeros.
pub open spec fn checksum_input(b: Seq<u8>) -> Seq<u8>
    recommends
        b.len() >= 576,
{
    b.subrange(0, 36) + zeros(32) + b.subrange(68, b.len() - 44) + zeros(32) + b.subrange(
        b.len() - 12,
        b.len() as int,
    )
}

/// Compute the whole-archive digest of `bytes`: hash the archive with both
/// checksum fields zero-filled.
pub fn calculate_archive_checksum(bytes: &Vec<u8>) -> (r: Vec<u8>)
    requires
        bytes.len() >= 576,
    ensures
        r@ == digest_of(checksum_input(bytes@)),
        r@.len() == 32,
{
    let n = bytes.len();
    let mut z: Vec<u8> = Vec::new();
    extend_range(&mut z, bytes, 0, 36);
    push_zeros(&mut z, 32);
    extend_range(&mut z, bytes, 68, n - 44);
    push_zeros(&mut z, 32);
    extend_range(&mut z, bytes, n - 12, n);
    proof {
        assert(z@ =~= checksum_input(bytes@));
    }
    blake3_digest(&z)
}

/// Two archives that differ only inside the two checksum storage fields have
/// the same digest input: backpatching the digest does not invalidate it.
pub proof fn lemma_checksum_input_ignores_fields(a: Seq<u8>, b: Seq<u8>)
    requires
        a.len() == b.len(),
        a.len() >= 576,
        forall|j: int|
            0 <= j < a.len() && !(36 <= j < 68) && !(a.len() - 44 <= j < a.len() - 12) ==> a[j]
                == b[j],
    ensures
        checksum_input(a) == checksum_input(b),
{
    assert(a.subrange(0, 36) =~= b.subrange(0, 36));
    assert(a.subrange(68, a.len() - 44) =~= b.subrange(68, b.len() - 44));
    assert(a.subrange(a.len() - 12, a.len() as int) =~= b.subrange(b.len() - 12, b.len() as int));
}

/// Checksum determinism: the digest is a function of the archive bytes, so
/// computing it over an in-memory buffer and over the same bytes read back
/// from disk gives the same value.
pub proof fn lemma_checksum_deterministic(a: Seq<u8>, b: Seq<u8>)
    requires
        a =~= b,
    ensures
        digest_of(checksum_input(a)) == digest_of(checksum_input(b)),
{
    assert(a == b);
}

/// Tamper visibility: flipping any byte of the data or index section changes
/// the bytes the whole-archive digest is computed over, so a stored digest
/// can no longer be reproduced without a digest collision.
pub proof fn lemma_tamper_changes_checksum_input(b: Seq<u8>, i: int, v: u8)
    requires
        b.len() >= 576,
        512 <= i < b.len() - 64,
        v != b[i],
    ensures
        checksum_input(b.update(i, v)) != checksum_input(b),
{
    let t = b.update(i, v);
    assert(checksum_input(t).len() == checksum_input(b).len());
    // Byte i lies in the middle segment, which starts at archive offset 68
    // and is reproduced unchanged at the same offset of the digest input.
    assert(checksum_input(t)[i] == t.subrange(68, t.len() - 44)[i - 68]);
    assert(checksum_input(b)[i] == b.subrange(68, b.len() - 44)[i - 68]);
    assert(checksum_input(t)[i] == v);
    assert(checksum_input(b)[i] == b[i]);
}

} // verus!
