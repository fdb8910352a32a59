//! Kernel entropy: seeding and drawing from the CSPRNG.
pub mod chacha20;

use vstd::prelude::*;
use crate::bytes::{le64, read64};
use crate::entropy::chacha20::{ChaCha20Rng, EntropySource, RESEED_INTERVAL};

verus! {

/// Fill a buffer with random bytes from the generator.
pub fn fill_bytes<E: EntropySource>(rng: &mut ChaCha20Rng, buf: &mut Vec<u8>, src: &mut E)
    requires
        old(rng).wf(),
    ensures
        final(rng).wf(),
        final(buf)@.len() == old(buf)@.len(),
        old(rng).bytes_since_reseed + old(buf)@.len() < RESEED_INTERVAL
            ==> final(buf)@ == old(rng).next_bytes(old(buf)@.len()),
{
    rng.fill(buf, src);
}

/// A random 64-bit value: the next eight generator bytes, little-endian.
pub fn random_u64<E: EntropySource>(rng: &mut ChaCha20Rng, src: &mut E) -> (r: u64)
    requires
        old(rng).wf(),
    ensures
        final(rng).wf(),
        old(rng).bytes_since_reseed + 8 < RESEED_INTERVAL ==> r == le64(old(rng).next_bytes(8), 0),
{
    let mut buf: Vec<u8> = vec![0u8; 8];
    fill_bytes(rng, &mut buf, src);
    read64(buf.as_slice(), 0)
}

/// Weight of bit `n` of a byte.
pub open spec fn bit_weight(n: nat) -> nat
    decreases n,
{
    if n == 0 {
        1
    } else {
        2 * bit_weight((n - 1) as nat)
    }
}

/// The value whose bit `j` (for `j < n`) is the low bit of `d[base + j]`.
pub open spec fn low_bits_value(d: Seq<u64>, base: int, n: nat) -> nat
    decreases n,
{
    if n == 0 {
        0
    } else {
        low_bits_value(d, base, (n - 1) as nat) + (d[base + n - 1] % 2) as nat * bit_weight((n - 1) as nat)
    }
}

/// Fill a 32-byte seed from timing jitter: `deltas` holds 256 cycle-counter
/// differences, each measured around a short busy loop, and bit `j` of byte `i` is
/// the low bit of `deltas[8 * i + j]`.
pub fn seed_from_tsc_jitter(seed: &mut Vec<u8>, deltas: &[u64])
    requires
        old(seed)@.len() == 32,
        deltas@.len() == 256,
    ensures
        final(seed)@.len() == 32,
        forall|i: int| 0 <= i < 32 ==> #[trigger] final(seed)@[i] as nat == low_bits_value(deltas@, 8 * i, 8),
{
    let mut i: usize = 0;
    while i < 32
        invariant
            i <= 32,
            seed@.len() == 32,
            deltas@.len() == 256,
            forall|k: int| 0 <= k < i ==> #[trigger] seed@[k] as nat == low_bits_value(deltas@, 8 * k, 8),
        decreases 32 - i,
    {
        let mut accum: u8 = 0;
        let mut weight: u16 = 1;
        let mut bit: usize = 0;
        while bit < 8
            invariant
                i < 32,
                bit <= 8,
                deltas@.len() == 256,
                weight as nat == bit_weight(bit as nat),
                accum as nat == low_bits_value(deltas@, 8 * i as int, bit as nat),
                (accum as nat) < bit_weight(bit as nat),
                bit_weight(bit as nat) <= 256,
            decreases 8 - bit,
        {
            let low = (deltas[8 * i + bit] % 2) as u8;
            assert(low_bits_value(deltas@, 8 * i as int, (bit + 1) as nat) == low_bits_value(
                deltas@,
                8 * i as int,
                bit as nat,
            ) + (deltas@[8 * i + bit] % 2) as nat * bit_weight(bit as nat));
            let ghost m = (deltas@[8 * i + bit] % 2) as nat;
            assert(m * bit_weight(bit as nat) == if m == 1 { bit_weight(bit as nat) } else { 0 }) by (nonlinear_arith)
                requires
                    m < 2,
            ;
            assert(bit_weight((bit + 1) as nat) == 2 * bit_weight(bit as nat));
            assert(bit < 8 ==> bit_weight((bit + 1) as nat) <= 256) by {
                reveal_with_fuel(bit_weight, 9);
            }
            if low == 1 {
                accum = accum + (weight as u8);
            }
            weight = weight * 2;
            bit = bit + 1;
        }
        seed.set(i, accum);
        i = i + 1;
    }
}

/// Fill a 32-byte seed with four hardware random draws; false when a draw fails.
pub fn seed_from_rdrand<E: EntropySource>(seed: &mut Vec<u8>, src: &mut E) -> (ok: bool)
    requires
        old(seed)@.len() == 32,
    ensures
        final(seed)@.len() == 32,
{
    let mut k: usize = 0;
    while k < 4
        invariant
            k <= 4,
            seed@.len() == 32,
        decreases 4 - k,
    {
        match src.random_u64() {
            Some(v) => {
                let mut j: usize = 0;
                while j < 8
                    invariant
                        j <= 8,
                        k < 4,
                        seed@.len() == 32,
                    decreases 8 - j,
                {
                    seed.set(k * 8 + j, ((v >> (8 * j as u64)) & 0xFF) as u8);
                    j = j + 1;
                }
            },
            None => return false,
        }
        k = k + 1;
    }
    true
}

} // verus!
