//! Kernel log ring buffer: the most recent 64 KiB of output.
use vstd::prelude::*;

verus! {

/// Capacity of the log in bytes.
pub const LOG_SIZE: usize = 64 * 1024;

/// The log: a ring of `LOG_SIZE` bytes, the next write position and the number of
/// bytes held.
pub struct KernelLog {
    pub buf: Vec<u8>,
    pub head: usize,
    pub len: usize,
}

/// The last `n` bytes of `s` (all of them when fewer).
pub open spec fn last_bytes(s: Seq<u8>, n: int) -> Seq<u8> {
    if s.len() <= n { s } else { s.subrange(s.len() - n, s.len() as int) }
}

impl KernelLog {
    pub open spec fn wf(&self) -> bool {
        &&& self.buf@.len() == LOG_SIZE
        &&& self.head < LOG_SIZE
        &&& self.len <= LOG_SIZE
        &&& self.len < LOG_SIZE ==> self.head == self.len
    }

    /// The bytes held, oldest first.
    pub open spec fn contents(&self) -> Seq<u8> {
        let start = if self.len < LOG_SIZE { 0 } else { self.head as int };
        Seq::new(self.len as nat, |i: int| self.buf@[(start + i) % (LOG_SIZE as int)])
    }

    /// An empty log.
    pub fn new() -> (l: Self)
        ensures
            l.wf(),
            l.contents() == Seq::<u8>::empty(),
    {
        let mut buf: Vec<u8> = Vec::new();
        while buf.len() < LOG_SIZE
            invariant
                buf@.len() <= LOG_SIZE,
            decreases LOG_SIZE - buf@.len(),
        {
            buf.push(0);
        }
        let l = KernelLog { buf, head: 0, len: 0 };
        assert(l.contents() =~= Seq::<u8>::empty());
        l
    }

    /// Append bytes; once full, the oldest bytes are overwritten.
    pub fn append(&mut self, data: &[u8])
        requires
            old(self).wf(),
        ensures
            final(self).wf(),
            final(self).contents() == last_bytes(old(self).contents() + data@, LOG_SIZE as int),
    {
        let mut i: usize = 0;
        while i < data.len()
            invariant
                self.wf(),
                i <= data@.len(),
                self.contents() == last_bytes(old(self).contents() + data@.take(i as int), LOG_SIZE as int),
            decreases data@.len() - i,
        {
            let ghost before = self.contents();
            let b = data[i];
            self.push_byte(b);
            proof {
                assert(data@.take(i + 1) =~= data@.take(i as int).push(b));
                let all = old(self).contents() + data@.take(i as int);
                assert(old(self).contents() + data@.take(i + 1) =~= all.push(b));
                lemma_last_push(all, b, LOG_SIZE as int);
            }
            i = i + 1;
        }
        assert(data@.take(data@.len() as int) =~= data@);
    }

    fn push_byte(&mut self, b: u8)
        requires
            old(self).wf(),
        ensures
            final(self).wf(),
            final(self).contents() == last_bytes(old(self).contents().push(b), LOG_SIZE as int),
    {
        let head = self.head;
        self.buf.set(head, b);
        self.head = (head + 1) % LOG_SIZE;
        if self.len < LOG_SIZE {
            self.len = self.len + 1;
            assert(self.contents() =~= old(self).contents().push(b)) by {
                assert forall|k: int| 0 <= k < old(self).len implies #[trigger] self.contents()[k] == old(self).contents()[k] by {
                    assert(k % 65536 == k);
                }
            }
        } else {
            let ghost oc = old(self).contents();
            let ghost m = LOG_SIZE as int;
            assert(self.contents() =~= oc.push(b).subrange(1, oc.len() as int + 1)) by {
                assert forall|k: int| 0 <= k < m implies #[trigger] self.contents()[k] == oc.push(b).subrange(1, oc.len() as int + 1)[k] by {
                    let h = head as int;
                    if h + 1 < m {
                        assert(self.head as int == h + 1);
                    } else {
                        assert(self.head as int == 0);
                        assert(h == m - 1);
                        if k < m - 1 {
                            assert((h + k + 1) % m == k);
                        }
                    }
                    if k < m - 1 {
                        assert((self.head + k) % m == (h + k + 1) % m);
                        assert((h + k + 1) % m != h);
                    } else {
                        assert((self.head + k) % m == h);
                    }
                }
            }
        }
    }

    /// Copy the log, oldest first, into the front of `buf`; gives the number of bytes
    /// copied.
    pub fn read(&self, buf: &mut Vec<u8>) -> (n: usize)
        requires
            self.wf(),
        ensures
            n == if old(buf)@.len() < self.len { old(buf)@.len() as int } else { self.len as int },
            final(buf)@.len() == old(buf)@.len(),
            forall|i: int| 0 <= i < n ==> #[trigger] final(buf)@[i] == self.contents()[i],
            forall|i: int| n <= i < old(buf)@.len() ==> #[trigger] final(buf)@[i] == old(buf)@[i],
    {
        let to_copy = if buf.len() < self.len { buf.len() } else { self.len };
        let start = if self.len < LOG_SIZE { 0 } else { self.head };
        let mut i: usize = 0;
        while i < to_copy
            invariant
                self.wf(),
                i <= to_copy,
                to_copy <= buf@.len(),
                to_copy <= self.len,
                buf@.len() == old(buf)@.len(),
                start == if self.len < LOG_SIZE { 0 } else { self.head as int },
                forall|k: int| 0 <= k < i ==> #[trigger] buf@[k] == self.contents()[k],
                forall|k: int| to_copy <= k < old(buf)@.len() ==> #[trigger] buf@[k] == old(buf)@[k],
            decreases to_copy - i,
        {
            buf.set(i, self.buf[(start + i) % LOG_SIZE]);
            i = i + 1;
        }
        to_copy
    }
}

proof fn lemma_last_push(s: Seq<u8>, b: u8, n: int)
    requires
        n > 0,
    ensures
        last_bytes(last_bytes(s, n).push(b), n) == last_bytes(s.push(b), n),
{
    if s.len() + 1 <= n {
    } else if s.len() <= n {
        assert(last_bytes(s, n) == s);
    } else {
        assert(last_bytes(s, n).push(b).subrange(1, n + 1) =~= s.push(b).subrange(s.len() + 1 - n, s.len() as int + 1));
    }
}

/// The log keeps the latest bytes: after appending `d`, the log ends with the last
/// `min(len(d), LOG_SIZE)` bytes of `d`, and it holds at most LOG_SIZE bytes.
pub proof fn law_log_keeps_latest(c: Seq<u8>, d: Seq<u8>)
    ensures
        last_bytes(c + d, LOG_SIZE as int).len() <= LOG_SIZE,
        d.len() <= LOG_SIZE ==> {
            let l = last_bytes(c + d, LOG_SIZE as int);
            l.subrange(l.len() - d.len(), l.len() as int) == d
        },
        d.len() > LOG_SIZE ==> last_bytes(c + d, LOG_SIZE as int) == d.subrange(d.len() - LOG_SIZE, d.len() as int),
{
    let s = c + d;
    let l = last_bytes(s, LOG_SIZE as int);
    if d.len() <= LOG_SIZE {
        assert(l.subrange(l.len() - d.len(), l.len() as int) =~= d);
    } else {
        assert(l =~= d.subrange(d.len() - LOG_SIZE, d.len() as int));
    }
}

} // verus!
