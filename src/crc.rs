//! CRC32C (Castagnoli, reflected polynomial `0x82F63B78`), computed bit by
//! bit without a lookup table.

use vstd::prelude::*;

verus! {

/// The reflected Castagnoli polynomial.
pub const POLYNOMIAL: u32 = 0x82F63B78;

/// One shift of the CRC register.
pub open spec fn crc_bit(acc: u32) -> u32 {
    if acc & 1 == 1 {
        0x82F63B78u32 ^ (acc >> 1)
    } else {
        acc >> 1
    }
}

/// `n` shifts of the CRC register.
pub open spec fn crc_bits(acc: u32, n: nat) -> u32
    decreases n,
{
    if n == 0 {
        acc
    } else {
        crc_bit(crc_bits(acc, (n - 1) as nat))
    }
}

/// The register contribution of one byte shifted out.
pub open spec fn crc_byte(byte: u8) -> u32 {
    crc_bits(byte as u32, 8)
}

/// Folds one byte into the (uncomplemented) running register.
pub open spec fn register_step(acc: u32, byte: u8) -> u32 {
    (acc >> 8) ^ crc_byte((acc as u8) ^ byte)
}

/// Folds a sequence of bytes, first to last, into the running register.
pub open spec fn register_fold(acc: u32, bytes: Seq<u8>) -> u32
    decreases bytes.len(),
{
    if bytes.len() == 0 {
        acc
    } else {
        register_step(register_fold(acc, bytes.drop_last()), bytes.last())
    }
}

/// The checksum obtained by continuing from checksum `seed` over `bytes`.
pub open spec fn checksum_update(seed: u32, bytes: Seq<u8>) -> u32 {
    !register_fold(!seed, bytes)
}

/// The CRC32C checksum of `bytes`.
pub open spec fn checksum(bytes: Seq<u8>) -> u32 {
    checksum_update(0, bytes)
}

/// Result of shifting out one byte on a CRC32C register.
fn crc32c_byte(byte: u8) -> (r: u32)
    ensures
        r == crc_byte(byte),
{
    let mut acc: u32 = byte as u32;
    let mut i: u32 = 0;
    while i < 8
        invariant
            i <= 8,
            acc == crc_bits(byte as u32, i as nat),
        decreases 8 - i,
    {
        acc = if acc & 1 == 1 {
            POLYNOMIAL ^ (acc >> 1)
        } else {
            acc >> 1
        };
        i += 1;
    }
    acc
}

/// Checksum of bytes, using CRC32C.
pub fn crc32c(bytes: &[u8]) -> (r: u32)
    ensures
        r == checksum(bytes@),
{
    crc32c_update(0, bytes)
}

/// Continues a CRC32C checksum: `seed` is the checksum of the bytes that came
/// before `bytes`.
pub fn crc32c_update(seed: u32, bytes: &[u8]) -> (r: u32)
    ensures
        r == checksum_update(seed, bytes@),
{
    let mut acc: u32 = !seed;
    let mut i: usize = 0;
    while i < bytes.len()
        invariant
            i <= bytes@.len(),
            acc == register_fold(!seed, bytes@.take(i as int)),
        decreases bytes@.len() - i,
    {
        acc = (acc >> 8) ^ crc32c_byte((acc as u8) ^ bytes[i]);
        assert(bytes@.take(i + 1).drop_last() =~= bytes@.take(i as int));
        i += 1;
    }
    assert(bytes@.take(i as int) =~= bytes@);
    !acc
}

/// Continues a CRC32C checksum over one more byte.
pub(crate) fn crc32c_update_byte(seed: u32, byte: u8) -> (r: u32)
    ensures
        r == checksum_update(seed, seq![byte]),
{
    let acc: u32 = !seed;
    assert(seq![byte].drop_last() =~= Seq::<u8>::empty());
    assert(register_fold(acc, Seq::<u8>::empty()) == acc);
    assert(register_fold(acc, seq![byte]) == register_step(acc, byte));
    !((acc >> 8) ^ crc32c_byte((acc as u8) ^ byte))
}

/// Folding two byte sequences one after the other is folding their
/// concatenation.
pub proof fn lemma_register_fold_append(acc: u32, a: Seq<u8>, b: Seq<u8>)
    ensures
        register_fold(acc, a + b) == register_fold(register_fold(acc, a), b),
    decreases b.len(),
{
    if b.len() == 0 {
        assert(a + b =~= a);
    } else {
        assert((a + b).drop_last() =~= a + b.drop_last());
        lemma_register_fold_append(acc, a, b.drop_last());
    }
}

/// The checksum can be computed incrementally: continuing the checksum of
/// `a` over `b` gives the checksum of `a` followed by `b`.
pub proof fn lemma_checksum_resumable(seed: u32, a: Seq<u8>, b: Seq<u8>)
    ensures
        checksum_update(seed, a + b) == checksum_update(checksum_update(seed, a), b),
{
    let mid = register_fold(!seed, a);
    lemma_register_fold_append(!seed, a, b);
    assert(!!mid == mid) by (bit_vector);
}

/// Eight register shifts, written out.
pub open spec fn crc_bits_8(acc: u32) -> u32 {
    crc_bit(crc_bit(crc_bit(crc_bit(crc_bit(crc_bit(crc_bit(crc_bit(acc))))))))
}

proof fn lemma_crc_bits_8(acc: u32)
    ensures
        crc_bits(acc, 8) == crc_bits_8(acc),
{
    reveal_with_fuel(crc_bits, 9);
}

/// Shifting the register is linear over xor.
proof fn lemma_crc_bits_linear(a: u32, b: u32, n: nat)
    ensures
        crc_bits(a, n) ^ crc_bits(b, n) == crc_bits(a ^ b, n),
    decreases n,
{
    if n > 0 {
        lemma_crc_bits_linear(a, b, (n - 1) as nat);
        let x = crc_bits(a, (n - 1) as nat);
        let y = crc_bits(b, (n - 1) as nat);
        assert(crc_bit(x) ^ crc_bit(y) == crc_bit(x ^ y)) by (bit_vector);
    }
}

/// Shifting never clears a nonzero register.
proof fn lemma_crc_bits_nonzero(a: u32, n: nat)
    requires
        a != 0,
    ensures
        crc_bits(a, n) != 0,
    decreases n,
{
    if n > 0 {
        lemma_crc_bits_nonzero(a, (n - 1) as nat);
        let x = crc_bits(a, (n - 1) as nat);
        assert(x != 0 ==> crc_bit(x) != 0) by (bit_vector);
    }
}

/// Folding the same byte into two registers leaves them apart by eight
/// shifts of their difference.
proof fn lemma_register_step_same_byte(r1: u32, r2: u32, byte: u8)
    ensures
        register_step(r1, byte) ^ register_step(r2, byte) == crc_bits(r1 ^ r2, 8),
{
    let d = r1 ^ r2;
    let p = ((r1 as u8) ^ byte) as u32;
    let q = ((r2 as u8) ^ byte) as u32;
    lemma_crc_bits_linear(p, q, 8);
    assert(p ^ q == (d as u8) as u32) by (bit_vector)
        requires
            d == r1 ^ r2,
            p == ((r1 as u8) ^ byte) as u32,
            q == ((r2 as u8) ^ byte) as u32,
    ;
    lemma_crc_bits_8((d as u8) as u32);
    lemma_crc_bits_8(d);
    assert((d >> 8) ^ crc_bits_8((d as u8) as u32) == crc_bits_8(d)) by (bit_vector);
    let e1 = crc_bits(p, 8);
    let e2 = crc_bits(q, 8);
    assert(((r1 >> 8) ^ e1) ^ ((r2 >> 8) ^ e2) == (d >> 8) ^ (e1 ^ e2)) by (bit_vector)
        requires
            d == r1 ^ r2,
    ;
}

/// Folding two different bytes into the same register gives different
/// registers.
proof fn lemma_register_step_different_bytes(r: u32, x: u8, y: u8)
    requires
        x != y,
    ensures
        register_step(r, x) != register_step(r, y),
{
    let p = ((r as u8) ^ x) as u32;
    let q = ((r as u8) ^ y) as u32;
    lemma_crc_bits_linear(p, q, 8);
    assert(p ^ q != 0) by (bit_vector)
        requires
            x != y,
            p == ((r as u8) ^ x) as u32,
            q == ((r as u8) ^ y) as u32,
    ;
    lemma_crc_bits_nonzero(p ^ q, 8);
    let e1 = crc_bits(p, 8);
    let e2 = crc_bits(q, 8);
    assert(e1 ^ e2 != 0 ==> (r >> 8) ^ e1 != (r >> 8) ^ e2) by (bit_vector);
}

/// Registers folded over two sequences that differ in exactly one byte
/// differ.
proof fn lemma_register_fold_single_difference(acc: u32, x: Seq<u8>, y: Seq<u8>, k: int)
    requires
        x.len() == y.len(),
        0 <= k < x.len(),
        x[k] != y[k],
        forall|i: int| 0 <= i < x.len() && i != k ==> x[i] == y[i],
    ensures
        register_fold(acc, x) != register_fold(acc, y),
    decreases x.len(),
{
    if x.len() == k + 1 {
        assert(x.drop_last() =~= y.drop_last());
        lemma_register_step_different_bytes(register_fold(acc, x.drop_last()), x.last(), y.last());
    } else {
        lemma_register_fold_single_difference(acc, x.drop_last(), y.drop_last(), k);
        let r1 = register_fold(acc, x.drop_last());
        let r2 = register_fold(acc, y.drop_last());
        lemma_register_step_same_byte(r1, r2, x.last());
        assert(r1 != r2 ==> r1 ^ r2 != 0) by (bit_vector);
        lemma_crc_bits_nonzero(r1 ^ r2, 8);
        let s1 = register_step(r1, x.last());
        let s2 = register_step(r2, x.last());
        assert(s1 ^ s2 != 0 ==> s1 != s2) by (bit_vector);
    }
}

/// The checksum detects any change to a single byte.
pub proof fn lemma_checksum_detects_byte_change(bytes: Seq<u8>, k: int, value: u8)
    requires
        0 <= k < bytes.len(),
        value != bytes[k],
    ensures
        checksum(bytes.update(k, value)) != checksum(bytes),
{
    let other = bytes.update(k, value);
    lemma_register_fold_single_difference(!0u32, other, bytes, k);
    let a = register_fold(!0u32, other);
    let b = register_fold(!0u32, bytes);
    assert(a != b ==> !a != !b) by (bit_vector);
}

} // verus!
