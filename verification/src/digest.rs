//! Content digests for card identity.
//!
//! A card's identity is a 64-bit digest of a fixed, order-stable byte
//! encoding of its content (see `card`). The digest is the FNV-1a hash,
//! written out in full here, so that determinism is literal: the digest is a
//! mathematical function of the input bytes and of nothing else.

use vstd::prelude::*;

verus! {

/// FNV-1a 64-bit offset basis.
pub const FNV_OFFSET_BASIS: u64 = 0xcbf2_9ce4_8422_2325;

/// FNV-1a 64-bit prime.
pub const FNV_PRIME: u64 = 0x0000_0100_0000_01b3;

/// One FNV-1a round: fold one byte into the running state.
pub open spec fn fnv_step(h: u64, b: u8) -> u64 {
    vstd::wrapping::u64_specs::wrapping_mul(h ^ (b as u64), FNV_PRIME)
}

/// FNV-1a state after folding every byte of `s` into `h`, in order.
pub open spec fn fnv_from(h: u64, s: Seq<u8>) -> u64
    decreases s.len(),
{
    if s.len() == 0 {
        h
    } else {
        fnv_from(fnv_step(h, s[0]), s.skip(1))
    }
}

/// The digest of a byte sequence: FNV-1a from the offset basis.
pub open spec fn digest64(s: Seq<u8>) -> u64 {
    fnv_from(FNV_OFFSET_BASIS, s)
}

/// A card's content-addressed identifier.
#[derive(Clone, Copy, Debug, PartialEq, Eq, Structural, Hash)]
pub struct CardHash {
    pub value: u64,
}

/// Compute the digest of `bytes`.
pub fn digest_bytes(bytes: &Vec<u8>) -> (r: CardHash)
    ensures
        r.value == digest64(bytes@),
{
    let mut h: u64 = FNV_OFFSET_BASIS;
    let mut i: usize = 0;
    proof {
        assert(bytes@.skip(0) =~= bytes@);
    }
    while i < bytes.len()
        invariant
            i <= bytes@.len(),
            digest64(bytes@) == fnv_from(h, bytes@.skip(i as int)),
        decreases bytes@.len() - i,
    {
        let b = bytes[i];
        proof {
            assert(bytes@.skip(i as int)[0] == bytes@[i as int]);
            assert(bytes@.skip(i as int).skip(1) =~= bytes@.skip(i as int + 1));
        }
        h = (h ^ (b as u64)).wrapping_mul(FNV_PRIME);
        i = i + 1;
    }
    proof {
        assert(bytes@.skip(bytes@.len() as int) =~= Seq::<u8>::empty());
    }
    CardHash { value: h }
}

} // verus!
