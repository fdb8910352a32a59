//! ChaCha20-based CSPRNG: 64-byte keystream blocks served byte by byte, reseeded
//! after every MiB of output.
use vstd::prelude::*;
use crate::bytes::{le32, read32, byte32, byte32_exec};

verus! {

/// Output after which the key is mixed with fresh entropy.
pub const RESEED_INTERVAL: u64 = 1024 * 1024;

/// Bytes in a keystream block.
pub const BLOCK_BYTES: usize = 64;

/// A source of hardware randomness: 64 random bits, or nothing when the hardware has
/// none to give.
pub trait EntropySource {
    fn random_u64(&mut self) -> Option<u64>;
}

/// `x` rotated left by `n` bits.
pub open spec fn rotl(x: u32, n: u32) -> u32 {
    ((x << n) | (x >> ((32 - n) as u32))) as u32
}

fn rotl_exec(x: u32, n: u32) -> (r: u32)
    requires
        0 < n < 32,
    ensures
        r == rotl(x, n),
{
    (x << n) | (x >> (32 - n))
}

/// The ChaCha quarter round on words `a`, `b`, `c`, `d` of `s`.
pub open spec fn qr(s: Seq<u32>, a: int, b: int, c: int, d: int) -> Seq<u32> {
    let sa1 = s[a].wrapping_add(s[b]);
    let sd1 = rotl(s[d] ^ sa1, 16);
    let sc1 = s[c].wrapping_add(sd1);
    let sb1 = rotl(s[b] ^ sc1, 12);
    let sa2 = sa1.wrapping_add(sb1);
    let sd2 = rotl(sd1 ^ sa2, 8);
    let sc2 = sc1.wrapping_add(sd2);
    let sb2 = rotl(sb1 ^ sc2, 7);
    s.update(a, sa2).update(b, sb2).update(c, sc2).update(d, sd2)
}

/// One double round: four column rounds, then four diagonal rounds.
pub open spec fn double_round(s: Seq<u32>) -> Seq<u32> {
    let s = qr(s, 0, 4, 8, 12);
    let s = qr(s, 1, 5, 9, 13);
    let s = qr(s, 2, 6, 10, 14);
    let s = qr(s, 3, 7, 11, 15);
    let s = qr(s, 0, 5, 10, 15);
    let s = qr(s, 1, 6, 11, 12);
    let s = qr(s, 2, 7, 8, 13);
    qr(s, 3, 4, 9, 14)
}

/// `n` double rounds.
pub open spec fn rounds(s: Seq<u32>, n: nat) -> Seq<u32>
    decreases n,
{
    if n == 0 { s } else { double_round(rounds(s, (n - 1) as nat)) }
}

/// The keystream block of a state: 20 rounds, the input added back, little-endian.
pub open spec fn block_bytes(state: Seq<u32>) -> Seq<u8> {
    let w = rounds(state, 10);
    Seq::new(64, |i: int| byte32(w[i / 4].wrapping_add(state[i / 4]), i % 4))
}

/// The state after a block: the 64-bit block counter in words 12 and 13 advanced.
pub open spec fn next_state(state: Seq<u32>) -> Seq<u32> {
    let c = state[12].wrapping_add(1);
    let s = state.update(12, c);
    if c == 0 { s.update(13, state[13].wrapping_add(1)) } else { s }
}

/// The next `n` output bytes of a generator with buffer `buf`, read position `pos`
/// and state `state`: the rest of the buffer, then fresh blocks.
pub open spec fn output(buf: Seq<u8>, pos: int, state: Seq<u32>, n: nat) -> Seq<u8>
    decreases n, (if pos >= 64 { 1int } else { 0int }),
{
    if n == 0 {
        Seq::empty()
    } else if pos >= 64 {
        output(block_bytes(state), 0, next_state(state), n)
    } else {
        seq![buf[pos]] + output(buf, pos + 1, state, (n - 1) as nat)
    }
}

/// ChaCha20 CSPRNG.
pub struct ChaCha20Rng {
    pub state: Vec<u32>,
    pub buffer: Vec<u8>,
    pub buffer_pos: usize,
    pub bytes_since_reseed: u64,
}

fn quarter_round(s: &mut Vec<u32>, a: usize, b: usize, c: usize, d: usize)
    requires
        old(s)@.len() == 16,
        a < 16 && b < 16 && c < 16 && d < 16,
        a != b && a != c && a != d && b != c && b != d && c != d,
    ensures
        final(s)@ == qr(old(s)@, a as int, b as int, c as int, d as int),
{
    let sa1 = s[a].wrapping_add(s[b]);
    let sd1 = rotl_exec(s[d] ^ sa1, 16);
    let sc1 = s[c].wrapping_add(sd1);
    let sb1 = rotl_exec(s[b] ^ sc1, 12);
    let sa2 = sa1.wrapping_add(sb1);
    let sd2 = rotl_exec(sd1 ^ sa2, 8);
    let sc2 = sc1.wrapping_add(sd2);
    let sb2 = rotl_exec(sb1 ^ sc2, 7);
    s.set(a, sa2);
    s.set(b, sb2);
    s.set(c, sc2);
    s.set(d, sd2);
}

fn zero_words(n: usize) -> (v: Vec<u32>)
    ensures
        v@.len() == n,
        forall|i: int| 0 <= i < n ==> #[trigger] v@[i] == 0,
{
    let mut v: Vec<u32> = Vec::new();
    while v.len() < n
        invariant
            v@.len() <= n,
            forall|i: int| 0 <= i < v@.len() ==> #[trigger] v@[i] == 0,
        decreases n - v@.len(),
    {
        v.push(0);
    }
    v
}

impl ChaCha20Rng {
    pub open spec fn wf(&self) -> bool {
        &&& self.state@.len() == 16
        &&& self.buffer@.len() == BLOCK_BYTES
        &&& self.buffer_pos <= BLOCK_BYTES
    }

    /// The next `n` bytes this generator gives when no reseed happens.
    pub open spec fn next_bytes(&self, n: nat) -> Seq<u8> {
        output(self.buffer@, self.buffer_pos as int, self.state@, n)
    }

    /// The initial state for a 32-byte seed: the "expand 32-byte k" constants, the
    /// seed as eight little-endian key words, and zero counter and nonce.
    pub open spec fn seed_state(seed: Seq<u8>) -> Seq<u32> {
        Seq::new(16, |i: int|
            if i == 0 { 0x6170_7865u32 }
            else if i == 1 { 0x3320_646Eu32 }
            else if i == 2 { 0x7962_2D32u32 }
            else if i == 3 { 0x6B20_6574u32 }
            else if i < 12 { le32(seed, 4 * (i - 4)) }
            else { 0u32 })
    }

    /// Create a generator from a 32-byte seed; the first block is generated at once.
    pub fn new(seed: &[u8; 32]) -> (rng: Self)
        ensures
            rng.wf(),
            rng.buffer_pos == 0,
            rng.bytes_since_reseed == 0,
            rng.buffer@ == block_bytes(Self::seed_state(seed@)),
            rng.state@ == next_state(Self::seed_state(seed@)),
    {
        let mut state = zero_words(16);
        state.set(0, 0x6170_7865);
        state.set(1, 0x3320_646E);
        state.set(2, 0x7962_2D32);
        state.set(3, 0x6B20_6574);
        let s = seed.as_slice();
        let mut i: usize = 0;
        while i < 8
            invariant
                i <= 8,
                s@ == seed@,
                s@.len() == 32,
                state@.len() == 16,
                state@[0] == 0x6170_7865u32,
                state@[1] == 0x3320_646Eu32,
                state@[2] == 0x7962_2D32u32,
                state@[3] == 0x6B20_6574u32,
                forall|k: int| 4 <= k < 4 + i ==> #[trigger] state@[k] == le32(seed@, 4 * (k - 4)),
                forall|k: int| 12 <= k < 16 ==> #[trigger] state@[k] == 0,
            decreases 8 - i,
        {
            state.set(4 + i, read32(s, i * 4));
            i = i + 1;
        }
        assert(state@ =~= Self::seed_state(seed@));
        let mut buffer: Vec<u8> = Vec::new();
        while buffer.len() < BLOCK_BYTES
            invariant
                buffer@.len() <= BLOCK_BYTES,
            decreases BLOCK_BYTES - buffer@.len(),
        {
            buffer.push(0);
        }
        let mut rng = ChaCha20Rng { state, buffer, buffer_pos: BLOCK_BYTES, bytes_since_reseed: 0 };
        rng.generate_block();
        rng
    }

    /// Compute the next keystream block into the buffer and advance the counter.
    fn generate_block(&mut self)
        requires
            old(self).wf(),
        ensures
            final(self).wf(),
            final(self).buffer@ == block_bytes(old(self).state@),
            final(self).buffer_pos == 0,
            final(self).state@ == next_state(old(self).state@),
            final(self).bytes_since_reseed == old(self).bytes_since_reseed,
    {
        let mut working = self.state.clone();
        assert(working@ == self.state@);
        let mut r: usize = 0;
        while r < 10
            invariant
                r <= 10,
                working@ == rounds(self.state@, r as nat),
                working@.len() == 16,
                self.state@ == old(self).state@,
            decreases 10 - r,
        {
            quarter_round(&mut working, 0, 4, 8, 12);
            quarter_round(&mut working, 1, 5, 9, 13);
            quarter_round(&mut working, 2, 6, 10, 14);
            quarter_round(&mut working, 3, 7, 11, 15);
            quarter_round(&mut working, 0, 5, 10, 15);
            quarter_round(&mut working, 1, 6, 11, 12);
            quarter_round(&mut working, 2, 7, 8, 13);
            quarter_round(&mut working, 3, 4, 9, 14);
            r = r + 1;
        }
        let ghost w = working@;
        let mut i: usize = 0;
        while i < 64
            invariant
                i <= 64,
                w == rounds(self.state@, 10),
                working@ == w,
                working@.len() == 16,
                self.state@ == old(self).state@,
                self.bytes_since_reseed == old(self).bytes_since_reseed,
                self.state@.len() == 16,
                self.buffer@.len() == 64,
                forall|k: int| 0 <= k < i ==> #[trigger] self.buffer@[k] == byte32(w[k / 4].wrapping_add(self.state@[k / 4]), k % 4),
            decreases 64 - i,
        {
            let word = working[i / 4].wrapping_add(self.state[i / 4]);
            self.buffer.set(i, byte32_exec(word, i % 4));
            i = i + 1;
        }
        assert(self.buffer@ =~= block_bytes(self.state@));
        self.buffer_pos = 0;
        let c = self.state[12].wrapping_add(1);
        self.state.set(12, c);
        if c == 0 {
            let h = self.state[13].wrapping_add(1);
            self.state.set(13, h);
        }
    }

    /// Mix 32 bytes of hardware entropy into the key words, when all four draws
    /// succeed, and restart the reseed count.
    pub fn reseed_from_rdrand<E: EntropySource>(&mut self, src: &mut E)
        requires
            old(self).wf(),
        ensures
            final(self).wf(),
            final(self).bytes_since_reseed == 0,
            final(self).buffer@ == old(self).buffer@,
            final(self).buffer_pos == old(self).buffer_pos,
    {
        let mut extra: Vec<u64> = Vec::new();
        let mut got_entropy = true;
        let mut k: usize = 0;
        while k < 4
            invariant
                k <= 4,
                extra@.len() == k,
            decreases 4 - k,
        {
            match src.random_u64() {
                Some(v) => extra.push(v),
                None => {
                    got_entropy = false;
                    break;
                },
            }
            k = k + 1;
        }
        if got_entropy && extra.len() == 4 {
            let mut i: usize = 0;
            while i < 8
                invariant
                    i <= 8,
                    extra@.len() == 4,
                    self.state@.len() == 16,
                    self.buffer@ == old(self).buffer@,
                    self.buffer_pos == old(self).buffer_pos,
                    self.buffer@.len() == BLOCK_BYTES,
                    self.buffer_pos <= BLOCK_BYTES,
                decreases 8 - i,
            {
                let v = extra[i / 2];
                let word: u32 = if i % 2 == 0 { (v & 0xFFFF_FFFF) as u32 } else { (v >> 32) as u32 };
                let nw = self.state[4 + i] ^ word;
                self.state.set(4 + i, nw);
                i = i + 1;
            }
        }
        self.bytes_since_reseed = 0;
    }

    /// Fill `buf` with random bytes. While the reseed count stays below the interval
    /// the bytes are the generator's keystream.
    pub fn fill<E: EntropySource>(&mut self, buf: &mut Vec<u8>, src: &mut E)
        requires
            old(self).wf(),
        ensures
            final(self).wf(),
            final(buf)@.len() == old(buf)@.len(),
            old(self).bytes_since_reseed + old(buf)@.len() < RESEED_INTERVAL
                ==> final(buf)@ == old(self).next_bytes(old(buf)@.len())
                    && final(self).bytes_since_reseed == old(self).bytes_since_reseed + old(buf)@.len(),
            // the generator moves on by exactly the bytes handed out: what it gives next
            // continues the same stream
            old(self).bytes_since_reseed + old(buf)@.len() < RESEED_INTERVAL
                ==> forall|m: nat| #[trigger] old(self).next_bytes(old(buf)@.len() + m) == final(buf)@ + final(self).next_bytes(m),
    {
        let n = buf.len();
        let mut offset: usize = 0;
        let ghost start = *old(self);
        while offset < n
            invariant
                self.wf(),
                offset <= n,
                n == old(buf)@.len(),
                buf@.len() == n,
                start == *old(self),
                start.bytes_since_reseed + n < RESEED_INTERVAL ==> {
                    &&& self.bytes_since_reseed == start.bytes_since_reseed + offset
                    &&& forall|m: nat| #[trigger] start.next_bytes((offset + m) as nat) == buf@.subrange(0, offset as int) + self.next_bytes(m)
                },
            decreases n - offset,
        {
            if self.buffer_pos >= BLOCK_BYTES {
                let ghost before = *self;
                self.generate_block();
                proof {
                    assert forall|m: nat| #[trigger] self.next_bytes(m) == before.next_bytes(m) by {
                        if m > 0 {
                            assert(before.next_bytes(m) == output(block_bytes(before.state@), 0, next_state(before.state@), m));
                        } else {
                            assert(self.next_bytes(0) =~= before.next_bytes(0));
                        }
                    }
                    if start.bytes_since_reseed + n < RESEED_INTERVAL {
                        assert forall|m: nat| #[trigger] start.next_bytes((offset + m) as nat) == buf@.subrange(0, offset as int) + self.next_bytes(m) by {
                            assert(start.next_bytes((offset + m) as nat) == buf@.subrange(0, offset as int) + before.next_bytes(m));
                            assert(self.next_bytes(m) == before.next_bytes(m));
                        }
                    }
                }
            }
            let available = BLOCK_BYTES - self.buffer_pos;
            let needed = n - offset;
            let to_copy = if available < needed { available } else { needed };
            let ghost pre = *self;
            let ghost bprefix = buf@.subrange(0, offset as int);
            let mut k: usize = 0;
            while k < to_copy
                invariant
                    k <= to_copy,
                    offset + to_copy <= n,
                    self.buffer_pos + to_copy <= BLOCK_BYTES,
                    buf@.len() == n,
                    self.wf(),
                    *self == pre,
                    buf@.subrange(0, offset as int) == bprefix,
                    forall|j: int| 0 <= j < k ==> #[trigger] buf@[offset + j] == self.buffer@[self.buffer_pos + j],
                decreases to_copy - k,
            {
                buf.set(offset + k, self.buffer[self.buffer_pos + k]);
                k = k + 1;
            }
            proof {
                assert forall|j: int| 0 <= j < to_copy implies #[trigger] buf@.subrange(offset as int, offset + to_copy)[j]
                    == pre.buffer@.subrange(pre.buffer_pos as int, pre.buffer_pos + to_copy)[j] by {
                    assert(buf@[offset + j] == self.buffer@[self.buffer_pos + j]);
                }
                assert(buf@.subrange(offset as int, offset + to_copy) =~= pre.buffer@.subrange(pre.buffer_pos as int, pre.buffer_pos + to_copy));
                lemma_output_prefix(pre.buffer@, pre.buffer_pos as int, pre.state@, to_copy as nat);
                assert(buf@.subrange(0, offset + to_copy) =~= bprefix + buf@.subrange(offset as int, offset + to_copy));
                assert forall|m: nat| #[trigger] pre.next_bytes((to_copy + m) as nat)
                    == buf@.subrange(offset as int, offset + to_copy) + output(pre.buffer@, pre.buffer_pos + to_copy, pre.state@, m) by {
                    lemma_output_split(pre.buffer@, pre.buffer_pos as int, pre.state@, to_copy as nat, m);
                }
                if start.bytes_since_reseed + n < RESEED_INTERVAL {
                    assert forall|m: nat| #[trigger] start.next_bytes((offset + to_copy + m) as nat)
                        == buf@.subrange(0, offset + to_copy) + output(pre.buffer@, pre.buffer_pos + to_copy, pre.state@, m) by {
                        assert(start.next_bytes((offset + (to_copy + m)) as nat) == bprefix + pre.next_bytes((to_copy + m) as nat));
                        assert(pre.next_bytes((to_copy + m) as nat)
                            == buf@.subrange(offset as int, offset + to_copy) + output(pre.buffer@, pre.buffer_pos + to_copy, pre.state@, m));
                        assert(offset + (to_copy + m) == offset + to_copy + m);
                        assert(bprefix + (buf@.subrange(offset as int, offset + to_copy) + output(pre.buffer@, pre.buffer_pos + to_copy, pre.state@, m))
                            =~= buf@.subrange(0, offset + to_copy) + output(pre.buffer@, pre.buffer_pos + to_copy, pre.state@, m));
                    }
                }
            }
            self.buffer_pos = self.buffer_pos + to_copy;
            offset = offset + to_copy;
            if self.bytes_since_reseed <= u64::MAX - to_copy as u64 {
                self.bytes_since_reseed = self.bytes_since_reseed + to_copy as u64;
            } else {
                self.bytes_since_reseed = u64::MAX;
            }
            if self.bytes_since_reseed >= RESEED_INTERVAL {
                self.reseed_from_rdrand(src);
            }
        }
        proof {
            assert(buf@.subrange(0, n as int) =~= buf@);
            assert(self.next_bytes(0) =~= Seq::<u8>::empty());
            if start.bytes_since_reseed + n < RESEED_INTERVAL {
                assert(start.next_bytes((n + 0) as nat) == buf@ + self.next_bytes(0));
                assert(buf@ + self.next_bytes(0) =~= buf@);
            }
        }
    }
}

/// Output taken in two parts is the output taken at once.
proof fn lemma_output_split(buf: Seq<u8>, pos: int, state: Seq<u32>, a: nat, b: nat)
    requires
        0 <= pos,
        pos + a <= 64,
        buf.len() == 64,
    ensures
        output(buf, pos, state, a + b) == output(buf, pos, state, a) + output(buf, pos + a, state, b),
    decreases a,
{
    if a == 0 {
        assert(output(buf, pos, state, 0) =~= Seq::<u8>::empty());
        assert(Seq::<u8>::empty() + output(buf, pos, state, b) =~= output(buf, pos, state, b));
    } else {
        lemma_output_split(buf, pos + 1, state, (a - 1) as nat, b);
        assert(output(buf, pos, state, a + b) == seq![buf[pos]] + output(buf, pos + 1, state, (a + b - 1) as nat));
        assert(((a - 1) as nat + b) == (a + b - 1) as nat);
        assert(output(buf, pos, state, a) == seq![buf[pos]] + output(buf, pos + 1, state, (a - 1) as nat));
        assert(seq![buf[pos]] + (output(buf, pos + 1, state, (a - 1) as nat) + output(buf, pos + 1 + (a - 1), state, b))
            =~= (seq![buf[pos]] + output(buf, pos + 1, state, (a - 1) as nat)) + output(buf, pos + a, state, b));
    }
}

/// Output within the buffer is the buffer's bytes.
proof fn lemma_output_prefix(buf: Seq<u8>, pos: int, state: Seq<u32>, a: nat)
    requires
        0 <= pos,
        pos + a <= 64,
        buf.len() == 64,
    ensures
        output(buf, pos, state, a) == buf.subrange(pos, pos + a),
    decreases a,
{
    if a == 0 {
        assert(output(buf, pos, state, 0) =~= buf.subrange(pos, pos));
    } else {
        lemma_output_prefix(buf, pos + 1, state, (a - 1) as nat);
        assert(seq![buf[pos]] + buf.subrange(pos + 1, pos + a) =~= buf.subrange(pos, pos + a));
    }
}

} // verus!
