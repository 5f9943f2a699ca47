//! Frame integrity checksum: CRC-16/CCITT-FALSE.
//!
//! The register starts at 0xFFFF; each input byte is XORed into the high byte
//! of the register and followed by eight shift steps with polynomial 0x1021.

use vstd::prelude::*;

verus! {

/// One shift step of the CRC register: shift left, and fold in the
/// polynomial when the top bit was set.
pub open spec fn crc16_step(crc: u16) -> u16 {
    if crc & 0x8000 != 0 {
        (crc << 1) ^ 0x1021
    } else {
        crc << 1
    }
}

/// The CRC register after `n` shift steps.
pub open spec fn crc16_steps(crc: u16, n: nat) -> u16
    decreases n,
{
    if n == 0 {
        crc
    } else {
        crc16_steps(crc16_step(crc), (n - 1) as nat)
    }
}

/// The CRC register after one whole input byte.
pub open spec fn crc16_byte(crc: u16, byte: u8) -> u16 {
    crc16_steps(crc ^ ((byte as u16) << 8), 8)
}

/// The CRC register after feeding every byte of `bytes`, starting from `crc`.
pub open spec fn crc16_fold(crc: u16, bytes: Seq<u8>) -> u16
    decreases bytes.len(),
{
    if bytes.len() == 0 {
        crc
    } else {
        crc16_fold(crc16_byte(crc, bytes[0]), bytes.drop_first())
    }
}

/// CRC-16/CCITT-FALSE of a byte sequence.
pub open spec fn crc16_of(bytes: Seq<u8>) -> u16 {
    crc16_fold(0xFFFF, bytes)
}

/// One shift step distributes over XOR.
proof fn lemma_step_additive(a: u16, b: u16)
    by (bit_vector)
    ensures
        crc16_step(a ^ b) == crc16_step(a) ^ crc16_step(b),
{
}

/// A nonzero register never shifts to zero: the polynomial's lowest bit is
/// set, so each step is invertible.
proof fn lemma_step_nonzero(x: u16)
    by (bit_vector)
    ensures
        x != 0 ==> crc16_step(x) != 0,
{
}

proof fn lemma_steps_additive(a: u16, b: u16, n: nat)
    ensures
        crc16_steps(a ^ b, n) == crc16_steps(a, n) ^ crc16_steps(b, n),
    decreases n,
{
    if n > 0 {
        lemma_step_additive(a, b);
        lemma_steps_additive(crc16_step(a), crc16_step(b), (n - 1) as nat);
    }
}

proof fn lemma_steps_nonzero(x: u16, n: nat)
    ensures
        x != 0 ==> crc16_steps(x, n) != 0,
    decreases n,
{
    if n > 0 {
        lemma_step_nonzero(x);
        lemma_steps_nonzero(crc16_step(x), (n - 1) as nat);
    }
}

/// One input byte distributes over XOR of both register and byte.
proof fn lemma_byte_additive(c1: u16, c2: u16, b1: u8, b2: u8)
    ensures
        crc16_byte(c1 ^ c2, b1 ^ b2) == crc16_byte(c1, b1) ^ crc16_byte(c2, b2),
{
    assert((c1 ^ c2) ^ (((b1 ^ b2) as u16) << 8) == (c1 ^ ((b1 as u16) << 8)) ^ (c2 ^ ((b2
        as u16) << 8))) by (bit_vector);
    lemma_steps_additive(c1 ^ ((b1 as u16) << 8), c2 ^ ((b2 as u16) << 8), 8);
}

/// A zero register absorbs a zero byte.
proof fn lemma_byte_zero()
    ensures
        crc16_byte(0, 0) == 0,
{
    assert(0u16 ^ ((0u8 as u16) << 8) == 0) by (bit_vector);
    lemma_steps_zero(8);
}

proof fn lemma_steps_zero(n: nat)
    ensures
        crc16_steps(0, n) == 0,
    decreases n,
{
    if n > 0 {
        assert(crc16_step(0) == 0) by (bit_vector);
        lemma_steps_zero((n - 1) as nat);
    }
}

/// The byte sequences whose corresponding bytes XOR together.
spec fn xor_bytes(m1: Seq<u8>, m2: Seq<u8>) -> Seq<u8> {
    Seq::new(m1.len(), |i: int| m1[i] ^ m2[i])
}

/// The whole fold distributes over XOR of registers and messages.
proof fn lemma_fold_additive(c1: u16, c2: u16, m1: Seq<u8>, m2: Seq<u8>)
    requires
        m1.len() == m2.len(),
    ensures
        crc16_fold(c1 ^ c2, xor_bytes(m1, m2)) == crc16_fold(c1, m1) ^ crc16_fold(c2, m2),
    decreases m1.len(),
{
    if m1.len() == 0 {
    } else {
        lemma_byte_additive(c1, c2, m1[0], m2[0]);
        lemma_fold_additive(crc16_byte(c1, m1[0]), crc16_byte(c2, m2[0]), m1.drop_first(), m2.drop_first());
        assert(xor_bytes(m1, m2).drop_first() =~= xor_bytes(m1.drop_first(), m2.drop_first()));
    }
}

/// From a zero register, a message that holds a single nonzero byte never
/// folds to zero: the nonzero byte lands in the register, and every further
/// step keeps the register nonzero.
proof fn lemma_fold_one_nonzero_byte(m: Seq<u8>, k: int)
    requires
        0 <= k < m.len(),
        m[k] != 0,
        forall|j: int| 0 <= j < m.len() && j != k ==> m[j] == 0,
    ensures
        crc16_fold(0, m) != 0,
    decreases m.len(),
{
    if k == 0 {
        let b0 = m[0];
        assert(((b0 as u16) << 8) != 0 && 0u16 ^ ((b0 as u16) << 8) == ((b0 as u16) << 8))
            by (bit_vector)
            requires
                b0 != 0u8,
        ;
        lemma_steps_nonzero(0u16 ^ ((b0 as u16) << 8), 8);
        lemma_fold_from_nonzero(crc16_byte(0, b0), m.drop_first());
    } else {
        lemma_byte_zero();
        lemma_fold_one_nonzero_byte(m.drop_first(), k - 1);
    }
}

/// From a nonzero register, folding zero bytes keeps the register nonzero.
proof fn lemma_fold_from_nonzero(c: u16, m: Seq<u8>)
    requires
        c != 0,
        forall|j: int| 0 <= j < m.len() ==> m[j] == 0,
    ensures
        crc16_fold(c, m) != 0,
    decreases m.len(),
{
    if m.len() > 0 {
        assert(c ^ ((0u8 as u16) << 8) == c) by (bit_vector);
        lemma_steps_nonzero(c, 8);
        lemma_fold_from_nonzero(crc16_byte(c, 0), m.drop_first());
    }
}

/// Flipping bits of a single byte of the input always changes the checksum:
/// no two inputs of the same length that differ in exactly one byte share a
/// CRC, so any single-bit corruption is detected.
pub proof fn lemma_crc16_detects_byte_change(m1: Seq<u8>, k: int, mask: u8)
    requires
        0 <= k < m1.len(),
        mask != 0,
    ensures
        crc16_of(m1.update(k, m1[k] ^ mask)) != crc16_of(m1),
{
    let m2 = m1.update(k, m1[k] ^ mask);
    let e = xor_bytes(m1, m2);
    assert(0xFFFFu16 ^ 0xFFFFu16 == 0u16) by (bit_vector);
    lemma_fold_additive(0xFFFF, 0xFFFF, m1, m2);
    let bk = m1[k];
    assert(bk ^ (bk ^ mask) == mask && mask != 0u8) by (bit_vector)
        requires
            mask != 0u8,
    ;
    assert(forall|j: int| 0 <= j < m1.len() && j != k ==> #[trigger] m1[j] ^ m2[j] == 0) by {
        assert forall|j: int| 0 <= j < m1.len() && j != k implies #[trigger] m1[j] ^ m2[j]
            == 0 by {
            assert(m2[j] == m1[j]);
            lemma_xor_self(m1[j]);
        }
    }
    lemma_fold_one_nonzero_byte(e, k);
    let f1 = crc16_of(m1);
    let f2 = crc16_of(m2);
    assert(crc16_fold(0, e) == f1 ^ f2);
    assert(f1 ^ f2 != 0 ==> f1 != f2) by (bit_vector);
}

proof fn lemma_xor_self(b: u8)
    by (bit_vector)
    ensures
        b ^ b == 0,
{
}

/// The checksum of the header bytes followed by the payload bytes,
/// computed as the wire format prescribes.
pub fn calculate_crc16(header: &[u8], payload: &[u8]) -> (crc: u16)
    ensures
        crc == crc16_of(header@ + payload@),
{
    let ghost all: Seq<u8> = header@ + payload@;
    let mut crc: u16 = 0xFFFF;
    let mut i: usize = 0;
    proof {
        assert(all.skip(0) =~= all);
    }
    while i < header.len()
        invariant
            i <= header@.len(),
            all == header@ + payload@,
            crc16_fold(crc, all.skip(i as int)) == crc16_of(all),
        decreases header@.len() - i,
    {
        let b = header[i];
        proof {
            assert(all.skip(i as int)[0] == b);
            assert(all.skip(i as int).drop_first() =~= all.skip(i + 1));
        }
        crc = crc16_feed(crc, b);
        i = i + 1;
    }
    let mut j: usize = 0;
    while j < payload.len()
        invariant
            j <= payload@.len(),
            all == header@ + payload@,
            crc16_fold(crc, all.skip(header@.len() + j)) == crc16_of(all),
        decreases payload@.len() - j,
    {
        let b = payload[j];
        proof {
            assert(all.skip(header@.len() + j)[0] == b);
            assert(all.skip(header@.len() + j).drop_first() =~= all.skip(
                header@.len() + j + 1,
            ));
        }
        crc = crc16_feed(crc, b);
        j = j + 1;
    }
    proof {
        assert(all.skip(all.len() as int) =~= Seq::<u8>::empty());
    }
    crc
}

/// Feed a single byte into the CRC register.
fn crc16_feed(crc: u16, byte: u8) -> (r: u16)
    ensures
        r == crc16_byte(crc, byte),
{
    let mut r: u16 = crc ^ ((byte as u16) << 8);
    let ghost start: u16 = r;
    let mut k: usize = 0;
    while k < 8
        invariant
            k <= 8,
            crc16_steps(r, (8 - k) as nat) == crc16_steps(start, 8),
        decreases 8 - k,
    {
        if r & 0x8000 != 0 {
            r = (r << 1) ^ 0x1021;
        } else {
            r = r << 1;
        }
        k = k + 1;
    }
    r
}

} // verus!
