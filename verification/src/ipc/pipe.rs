use vstd::prelude::*;
use crate::errno::Errno;
use vstd::math::min;
use crate::fs::vfs::{InodeType, Stat};

verus! {

/// Capacity of a pipe's buffer in bytes.
pub const PIPE_BUF_SIZE: usize = 65536;

/// Shared pipe state: a ring buffer and the number of open ends of each kind.
pub struct Pipe {
    buf: Vec<u8>,
    head: usize,
    tail: usize,
    count: usize,
    /// Number of open write ends. When 0, reads return EOF.
    writers: usize,
    /// Number of open read ends. When 0, writes return EPIPE.
    readers: usize,
}

/// The bytes in the pipe, oldest first.
pub open spec fn ring_contents(buf: Seq<u8>, tail: int, count: int) -> Seq<u8> {
    Seq::new(count as nat, |i: int| buf[(tail + i) % (PIPE_BUF_SIZE as int)])
}

/// Two positions less than a buffer's length apart fall in different slots.
proof fn lemma_mod_distinct(a: int, b: int)
    requires
        0 <= a < b,
        b - a < PIPE_BUF_SIZE,
    ensures
        a % (PIPE_BUF_SIZE as int) != b % (PIPE_BUF_SIZE as int),
{
    let m = PIPE_BUF_SIZE as int;
    vstd::arithmetic::div_mod::lemma_fundamental_div_mod(a, m);
    vstd::arithmetic::div_mod::lemma_fundamental_div_mod(b, m);
    vstd::arithmetic::div_mod::lemma_mod_bound(a, m);
    vstd::arithmetic::div_mod::lemma_mod_bound(b, m);
    if a % m == b % m {
        assert(m * (b / m) - m * (a / m) == b - a);
        vstd::arithmetic::mul::lemma_mul_is_distributive_sub(m, b / m, a / m);
        if b / m - a / m >= 1 {
            vstd::arithmetic::mul::lemma_mul_inequality(1, b / m - a / m, m);
        } else if b / m - a / m <= 0 {
            vstd::arithmetic::mul::lemma_mul_inequality(b / m - a / m, 0, m);
        }
    }
}

impl Pipe {
    pub closed spec fn wf(&self) -> bool {
        &&& self.buf@.len() == PIPE_BUF_SIZE
        &&& self.head < PIPE_BUF_SIZE
        &&& self.tail < PIPE_BUF_SIZE
        &&& self.count <= PIPE_BUF_SIZE
        &&& self.head as int == (self.tail + self.count) % (PIPE_BUF_SIZE as int)
    }

    /// The bytes waiting in the pipe, oldest first.
    pub closed spec fn contents(&self) -> Seq<u8> {
        ring_contents(self.buf@, self.tail as int, self.count as int)
    }

    pub closed spec fn writers(&self) -> nat {
        self.writers as nat
    }

    pub closed spec fn readers(&self) -> nat {
        self.readers as nat
    }

    /// Create a new pipe and return its shared state with its read end and write end.
    pub fn create() -> (r: (Pipe, PipeReader, PipeWriter))
        ensures
            r.0.wf(),
            r.0.contents() == Seq::<u8>::empty(),
            r.0.readers() == 1,
            r.0.writers() == 1,
    {
        (Self::new_state(), PipeReader, PipeWriter)
    }

    fn new_state() -> (p: Pipe)
        ensures
            p.wf(),
            p.contents() == Seq::<u8>::empty(),
            p.readers() == 1,
            p.writers() == 1,
    {
        let mut buf: Vec<u8> = Vec::new();
        while buf.len() < PIPE_BUF_SIZE
            invariant
                buf@.len() <= PIPE_BUF_SIZE,
            decreases PIPE_BUF_SIZE - buf@.len(),
        {
            buf.push(0);
        }
        let p = Pipe { buf, head: 0, tail: 0, count: 0, writers: 1, readers: 1 };
        assert(p.contents() =~= Seq::<u8>::empty());
        p
    }

    /// Take up to `buf.len()` bytes from the front of the pipe into `buf`. With no data
    /// and no writer left, the read is at end of file and gives `Some(0)`; with no data
    /// and a writer still open, `None` tells the caller that the read would block.
    pub fn read(&mut self, buf: &mut [u8]) -> (r: Option<usize>)
        requires
            old(self).wf(),
        ensures
            final(self).wf(),
            final(self).writers() == old(self).writers(),
            final(self).readers() == old(self).readers(),
            final(buf)@.len() == old(buf)@.len(),
            old(self).contents().len() > 0 ==> {
                let n = min(old(buf)@.len() as int, old(self).contents().len() as int);
                &&& r == Some(n as usize)
                &&& final(buf)@ == old(self).contents().take(n) + old(buf)@.skip(n)
                &&& final(self).contents() == old(self).contents().skip(n)
            },
            old(self).contents().len() == 0 ==> {
                &&& r == (if old(self).writers() == 0 { Some(0usize) } else { None })
                &&& final(buf)@ == old(buf)@
                &&& final(self).contents() == old(self).contents()
            },
    {
        if self.count > 0 {
            let to_read = if buf.len() < self.count { buf.len() } else { self.count };
            let ghost old_contents = self.contents();
            let ghost old_buf = buf@;
            let ghost old_tail = self.tail;
            let mut tail = self.tail;
            let mut i: usize = 0;
            while i < to_read
                invariant
                    self.wf(),
                    self.contents() == old_contents,
                    self.tail == old_tail,
                    to_read <= old_contents.len(),
                    to_read <= buf@.len(),
                    buf@.len() == old_buf.len(),
                    i <= to_read,
                    tail < PIPE_BUF_SIZE,
                    tail as int == (old_tail + i) % (PIPE_BUF_SIZE as int),
                    forall|j: int| 0 <= j < i ==> buf@[j] == old_contents[j],
                    forall|j: int| i <= j < buf@.len() ==> buf@[j] == old_buf[j],
                decreases to_read - i,
            {
                buf[i] = self.buf[tail];
                proof {
                    vstd::arithmetic::div_mod::lemma_add_mod_noop(old_tail + i, 1, PIPE_BUF_SIZE as int);
                }
                tail = (tail + 1) % PIPE_BUF_SIZE;
                i += 1;
            }
            self.tail = tail;
            self.count = self.count - to_read;
            proof {
                assert(buf@ =~= old_contents.take(to_read as int) + old_buf.skip(to_read as int));
                assert forall|j: int| 0 <= j < self.count implies #[trigger] self.contents()[j]
                    == old_contents.skip(to_read as int)[j] by {
                    vstd::arithmetic::div_mod::lemma_add_mod_noop(old_tail + to_read, j, PIPE_BUF_SIZE as int);
                    vstd::arithmetic::div_mod::lemma_mod_twice(old_tail + to_read + j, PIPE_BUF_SIZE as int);
                    vstd::arithmetic::div_mod::lemma_mod_bound(j, PIPE_BUF_SIZE as int);
                    vstd::arithmetic::div_mod::lemma_small_mod(j as nat, PIPE_BUF_SIZE as nat);
                }
                assert(self.contents() =~= old_contents.skip(to_read as int));
                assert(self.head as int == (self.tail + self.count) % (PIPE_BUF_SIZE as int)) by {
                    vstd::arithmetic::div_mod::lemma_add_mod_noop(old_tail + to_read, self.count as int, PIPE_BUF_SIZE as int);
                    if self.count < PIPE_BUF_SIZE {
                        vstd::arithmetic::div_mod::lemma_small_mod(self.count as nat, PIPE_BUF_SIZE as nat);
                    } else {
                        vstd::arithmetic::div_mod::lemma_mod_self_0(PIPE_BUF_SIZE as int);
                    }
                }
            }
            return Some(to_read);
        }
        if self.writers == 0 {
            return Some(0);
        }
        None
    }

    /// Append as much of `data` as fits to the back of the pipe and report how many
    /// bytes went in; with no read end open the write fails with `EPIPE`.
    pub fn write(&mut self, data: &[u8]) -> (r: Result<usize, Errno>)
        requires
            old(self).wf(),
        ensures
            final(self).wf(),
            final(self).writers() == old(self).writers(),
            final(self).readers() == old(self).readers(),
            old(self).readers() == 0 ==> r == Err::<usize, Errno>(Errno::EPIPE) && final(self).contents() == old(self).contents(),
            old(self).readers() > 0 ==> {
                let n = min(data@.len() as int, PIPE_BUF_SIZE - old(self).contents().len());
                &&& r == Ok::<usize, Errno>(n as usize)
                &&& final(self).contents() == old(self).contents() + data@.take(n)
            },
    {
        if self.readers == 0 {
            return Err(Errno::EPIPE);
        }
        let space = PIPE_BUF_SIZE - self.count;
        let to_write = if data.len() < space { data.len() } else { space };
        let ghost old_contents = self.contents();
        let ghost t = self.tail as int;
        let ghost c = self.count as int;
        let ghost w = self.writers;
        let ghost rd = self.readers;
        let mut head = self.head;
        let mut j: usize = 0;
        while j < to_write
            invariant
                self.buf@.len() == PIPE_BUF_SIZE,
                self.tail as int == t,
                self.count as int == c,
                self.writers == w,
                self.readers == rd,
                0 <= t < PIPE_BUF_SIZE,
                c + to_write <= PIPE_BUF_SIZE,
                old_contents.len() == c,
                to_write <= data@.len(),
                j <= to_write,
                head < PIPE_BUF_SIZE,
                head as int == (t + c + j) % (PIPE_BUF_SIZE as int),
                forall|k: int| 0 <= k < c ==> #[trigger] self.buf@[(t + k) % (PIPE_BUF_SIZE as int)] == old_contents[k],
                forall|k: int| c <= k < c + j ==> #[trigger] self.buf@[(t + k) % (PIPE_BUF_SIZE as int)] == data@[k - c],
            decreases to_write - j,
        {
            let ghost prev = self.buf@;
            self.buf.set(head, data[j]);
            proof {
                assert forall|k: int| 0 <= k < c + j implies #[trigger] self.buf@[(t + k) % (PIPE_BUF_SIZE as int)]
                    == prev[(t + k) % (PIPE_BUF_SIZE as int)] by {
                    lemma_mod_distinct(t + k, t + c + j);
                }
                vstd::arithmetic::div_mod::lemma_add_mod_noop(t + c + j, 1, PIPE_BUF_SIZE as int);
            }
            head = (head + 1) % PIPE_BUF_SIZE;
            j += 1;
        }
        self.head = head;
        self.count = self.count + to_write;
        proof {
            assert(self.contents() =~= old_contents + data@.take(to_write as int));
        }
        Ok(to_write)
    }
}

/// Read end of a pipe.
pub struct PipeReader;

/// Write end of a pipe.
pub struct PipeWriter;

impl PipeReader {
    pub fn stat(&self) -> (r: Stat)
        ensures
            r == pipe_stat(0o444),
    {
        Stat {
            inode: 0,
            inode_type: InodeType::Pipe,
            size: 0,
            nlink: 1,
            uid: 0,
            gid: 0,
            mode: 0o444,
            dev: 0,
            rdev: 0,
            blksize: PIPE_BUF_SIZE as u64,
            blocks: 0,
        }
    }

    pub fn inode_type(&self) -> (r: InodeType)
        ensures
            r == InodeType::Pipe,
    {
        InodeType::Pipe
    }

    /// Read from the pipe through this end (see `Pipe::read`).
    pub fn read(&self, pipe: &mut Pipe, buf: &mut [u8]) -> (r: Option<usize>)
        requires
            old(pipe).wf(),
        ensures
            final(pipe).wf(),
            final(pipe).writers() == old(pipe).writers(),
            final(pipe).readers() == old(pipe).readers(),
            final(buf)@.len() == old(buf)@.len(),
            old(pipe).contents().len() > 0 ==> {
                let n = min(old(buf)@.len() as int, old(pipe).contents().len() as int);
                &&& r == Some(n as usize)
                &&& final(buf)@ == old(pipe).contents().take(n) + old(buf)@.skip(n)
                &&& final(pipe).contents() == old(pipe).contents().skip(n)
            },
            old(pipe).contents().len() == 0 ==> {
                &&& r == (if old(pipe).writers() == 0 { Some(0usize) } else { None })
                &&& final(buf)@ == old(buf)@
                &&& final(pipe).contents() == old(pipe).contents()
            },
    {
        pipe.read(buf)
    }

    /// Close this read end.
    pub fn close(self, pipe: &mut Pipe)
        requires
            old(pipe).wf(),
            old(pipe).readers() > 0,
        ensures
            final(pipe).wf(),
            final(pipe).readers() == old(pipe).readers() - 1,
            final(pipe).writers() == old(pipe).writers(),
            final(pipe).contents() == old(pipe).contents(),
    {
        pipe.readers = pipe.readers - 1;
    }
}

impl PipeWriter {
    pub fn stat(&self) -> (r: Stat)
        ensures
            r == pipe_stat(0o222),
    {
        Stat {
            inode: 0,
            inode_type: InodeType::Pipe,
            size: 0,
            nlink: 1,
            uid: 0,
            gid: 0,
            mode: 0o222,
            dev: 0,
            rdev: 0,
            blksize: PIPE_BUF_SIZE as u64,
            blocks: 0,
        }
    }

    pub fn inode_type(&self) -> (r: InodeType)
        ensures
            r == InodeType::Pipe,
    {
        InodeType::Pipe
    }

    /// Write to the pipe through this end (see `Pipe::write`).
    pub fn write(&self, pipe: &mut Pipe, data: &[u8]) -> (r: Result<usize, Errno>)
        requires
            old(pipe).wf(),
        ensures
            final(pipe).wf(),
            final(pipe).writers() == old(pipe).writers(),
            final(pipe).readers() == old(pipe).readers(),
            old(pipe).readers() == 0 ==> r == Err::<usize, Errno>(Errno::EPIPE) && final(pipe).contents() == old(pipe).contents(),
            old(pipe).readers() > 0 ==> {
                let n = min(data@.len() as int, PIPE_BUF_SIZE - old(pipe).contents().len());
                &&& r == Ok::<usize, Errno>(n as usize)
                &&& final(pipe).contents() == old(pipe).contents() + data@.take(n)
            },
    {
        pipe.write(data)
    }

    /// Close this write end.
    pub fn close(self, pipe: &mut Pipe)
        requires
            old(pipe).wf(),
            old(pipe).writers() > 0,
        ensures
            final(pipe).wf(),
            final(pipe).writers() == old(pipe).writers() - 1,
            final(pipe).readers() == old(pipe).readers(),
            final(pipe).contents() == old(pipe).contents(),
    {
        pipe.writers = pipe.writers - 1;
    }
}

/// The stat record of a pipe end with the given permission bits.
pub open spec fn pipe_stat(mode: u32) -> Stat {
    Stat {
        inode: 0,
        inode_type: InodeType::Pipe,
        size: 0,
        nlink: 1,
        uid: 0,
        gid: 0,
        mode: mode,
        dev: 0,
        rdev: 0,
        blksize: PIPE_BUF_SIZE as u64,
        blocks: 0,
    }
}

/// Bytes come out of a pipe as they went in: after writing `d` into an empty pipe
/// (as much as fits) and reading up to `m` bytes, the reader gets the first
/// `min(m, written)` bytes of `d`.
pub proof fn law_pipe_fifo(d: Seq<u8>, m: int)
    requires
        m >= 0,
    ensures
        ({
            let n = min(d.len() as int, PIPE_BUF_SIZE as int);
            let contents = Seq::<u8>::empty() + d.take(n);
            let k = min(m, contents.len() as int);
            &&& contents.take(k) == d.take(k)
            &&& contents.skip(k) == d.take(n).skip(k)
        }),
{
    let n = min(d.len() as int, PIPE_BUF_SIZE as int);
    let contents = Seq::<u8>::empty() + d.take(n);
    let k = min(m, contents.len() as int);
    assert(contents.take(k) =~= d.take(k));
    assert(contents.skip(k) =~= d.take(n).skip(k));
}

} // verus!
