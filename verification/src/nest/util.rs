//! Seeded hashing for deterministic tie-breaks.
use vstd::prelude::*;
use vstd::std_specs::hash::DefaultHasherAdditionalSpecFns;
use std::collections::hash_map::DefaultHasher;
use std::hash::Hasher;

verus! {

/// Byte `k` of `seed`, counted from the least significant.
pub open spec fn seed_byte(seed: u64, k: nat) -> u8 {
    ((seed >> ((8 * k) as u64)) & 0xff) as u8
}

/// The eight bytes of `seed`, the least significant first.
pub open spec fn seed_bytes(seed: u64) -> Seq<u8> {
    Seq::new(8, |k: int| seed_byte(seed, k as nat))
}

/// The hash of `value` under `seed`: what the default hasher of the
/// standard library makes of the bytes of the seed, the bytes of the value
/// and one closing byte.
pub open spec fn seeded_hash(value: Seq<char>, seed: u64) -> u64 {
    DefaultHasher::spec_finish(
        seq![seed_bytes(seed), vstd::utf8::encode_utf8(value), seq![0xffu8]],
    )
}

/// Hashes `value` under `seed`. Equal arguments give equal hashes.
pub fn hash_with_seed(value: &str, seed: u64) -> (h: u64)
    ensures
        h == seeded_hash(value@, seed),
{
    let mut hasher = DefaultHasher::new();
    let mut bytes: Vec<u8> = Vec::new();
    let mut k: u64 = 0;
    while k < 8
        invariant
            k <= 8,
            bytes.len() == k,
            forall|j: int| 0 <= j < k ==> bytes@[j] == seed_byte(seed, j as nat),
        decreases 8 - k,
    {
        bytes.push(((seed >> (8 * k)) & 0xff) as u8);
        k = k + 1;
    }
    assert(bytes@ =~= seed_bytes(seed));
    hasher.write(bytes.as_slice());
    hasher.write(value.as_bytes());
    let closing: Vec<u8> = vec![0xffu8];
    assert(closing@ =~= seq![0xffu8]);
    hasher.write(closing.as_slice());
    assert(hasher@ =~= seq![seed_bytes(seed), vstd::utf8::encode_utf8(value@), seq![0xffu8]]);
    hasher.finish()
}

} // verus!
