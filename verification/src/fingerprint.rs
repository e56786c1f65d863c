//! 64-bit FNV-1a content fingerprint.
//!
//! The fingerprint is used only as a cheap equality check across reloads of
//! the task file: two loads with the same bytes get the same fingerprint,
//! so an unchanged file can be recognized without keeping the old bytes.

use vstd::prelude::*;

verus! {

pub const FNV_OFFSET_BASIS: u64 = 0xcbf29ce484222325;

pub const FNV_PRIME: u64 = 0x100000001b3;

/// One FNV-1a round: fold a byte into the running hash over the wrapping
/// 64-bit domain.
pub open spec fn fnv1a_step(hash: u64, byte: u8) -> u64 {
    (((hash ^ (byte as u64)) as nat * FNV_PRIME as nat) % 0x10000000000000000) as u64
}

/// The FNV-1a hash of a byte sequence, starting from the offset basis and
/// folding the bytes in from first to last.
pub open spec fn fnv1a_spec(bytes: Seq<u8>) -> u64
    decreases bytes.len(),
{
    if bytes.len() == 0 {
        FNV_OFFSET_BASIS
    } else {
        fnv1a_step(fnv1a_spec(bytes.drop_last()), bytes.last())
    }
}

/// The fingerprint is a pure function of the bytes: equal inputs give equal
/// fingerprints, whatever else differs between the two loads.
pub proof fn lemma_fingerprint_deterministic(a: Seq<u8>, b: Seq<u8>)
    requires
        a == b,
    ensures
        fnv1a_spec(a) == fnv1a_spec(b),
{
}

pub fn fnv1a_64(bytes: &[u8]) -> (r: u64)
    ensures
        r == fnv1a_spec(bytes@),
{
    let mut hash: u64 = FNV_OFFSET_BASIS;
    let n: usize = bytes.len();
    let mut i: usize = 0;
    while i < n
        invariant
            n == bytes@.len(),
            i <= n,
            hash == fnv1a_spec(bytes@.take(i as int)),
        decreases n - i,
    {
        let b: u8 = bytes[i];
        hash = hash ^ (b as u64);
        hash = hash.wrapping_mul(FNV_PRIME);
        proof {
            assert(bytes@.take(i + 1 as int).drop_last() =~= bytes@.take(i as int));
            assert(bytes@.take(i + 1 as int).last() == b);
        }
        i = i + 1;
    }
    proof {
        assert(bytes@.take(n as int) =~= bytes@);
    }
    hash
}

} // verus!
