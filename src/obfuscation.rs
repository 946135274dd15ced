//! Keyed byte whitening ("frobnication").
//!
//! Frobnication is not encryption; the goal is not to make it impossible for
//! an attacker to read the data. The goal is to make it hard to accidentally
//! interpret the data as something else: if a field value consistently
//! matched the start sequence, synchronisation could fail. Whitening the
//! payload protects against this.

use vstd::prelude::*;

verus! {

/// Value mixed into the caller's seed before the warm-up rounds.
pub const SEED_MASK: u8 = 0x42;

/// Number of generator rounds discarded before the first data byte.
pub const WARM_UP_ROUNDS: u8 = 8;

/// One step of the key generator.
pub open spec fn key_step(x: u8) -> u8 {
    (x << 1u8) ^ (if (x >> 7u8) != 0 { 0x69u8 } else { 0u8 })
}

/// The generator state after `n` steps from the masked seed.
pub open spec fn key_state(seed: u8, n: nat) -> u8
    decreases n,
{
    if n == 0 {
        seed ^ 0x42u8
    } else {
        key_step(key_state(seed, (n - 1) as nat))
    }
}

/// The key byte mixed into the data byte at position `i`.
pub open spec fn key_byte(seed: u8, i: int) -> u8 {
    key_state(seed, (9 + i) as nat)
}

/// `data` with each byte mixed with the key stream of `seed`.
pub open spec fn frobnicated(data: Seq<u8>, seed: u8) -> Seq<u8> {
    Seq::new(data.len(), |i: int| data[i] ^ key_byte(seed, i))
}

fn next_key(x: u8) -> (r: u8)
    ensures
        r == key_step(x),
{
    (x << 1u8) ^ (if (x >> 7u8) != 0 {
        0x69u8
    } else {
        0u8
    })
}

/// Obscures the encoding, in place. Applying it twice with the same seed
/// restores the data.
pub fn frobnicate(data: &mut [u8], seed: u8)
    ensures
        final(data)@ == frobnicated(old(data)@, seed),
{
    let mut key: u8 = seed ^ SEED_MASK;
    let mut round: u8 = 0;
    while round < WARM_UP_ROUNDS
        invariant
            round <= 8,
            key == key_state(seed, round as nat),
        decreases 8 - round,
    {
        key = next_key(key);
        round += 1;
    }
    let mut i: usize = 0;
    while i < data.len()
        invariant
            i <= data@.len(),
            data@.len() == old(data)@.len(),
            key == key_state(seed, (8 + i) as nat),
            forall|j: int| 0 <= j < i ==> data@[j] == old(data)@[j] ^ key_byte(seed, j),
            forall|j: int| i <= j < data@.len() ==> data@[j] == old(data)@[j],
        decreases data@.len() - i,
    {
        key = next_key(key);
        data[i] = data[i] ^ key;
        i += 1;
    }
    assert(data@ =~= frobnicated(old(data)@, seed));
}

/// Frobnicating twice with the same seed gives back the original bytes.
pub proof fn lemma_frobnicate_involution(data: Seq<u8>, seed: u8)
    ensures
        frobnicated(frobnicated(data, seed), seed) == data,
{
    assert forall|i: int| 0 <= i < data.len() implies frobnicated(
        frobnicated(data, seed),
        seed,
    )[i] == data[i] by {
        let x = data[i];
        let k = key_byte(seed, i);
        assert((x ^ k) ^ k == x) by (bit_vector);
    }
    assert(frobnicated(frobnicated(data, seed), seed) =~= data);
}

} // verus!
