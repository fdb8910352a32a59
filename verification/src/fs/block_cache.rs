//! LRU write-back block cache.
use vstd::prelude::*;
use crate::fs::ext2::dev::{BlockDevice, SECTOR_SIZE};

verus! {

/// Upper bound on the cache size.
pub const MAX_CACHE_BYTES: usize = 16 * 1024 * 1024;

/// A cached block: its number, data, whether it differs from the disk, and when it
/// was last used.
pub struct CacheEntry {
    pub block: u64,
    pub data: Vec<u8>,
    pub dirty: bool,
    pub access_count: u64,
}

/// The cache: entries in increasing block order.
pub struct BlockCache {
    pub entries: Vec<CacheEntry>,
    pub block_size: usize,
    pub total_bytes: usize,
    pub max_bytes: usize,
    pub access_counter: u64,
}

/// Index of the entry with the least access count (the first of equal ones).
pub open spec fn lru_index(e: Seq<CacheEntry>) -> int
    decreases e.len(),
{
    if e.len() <= 1 {
        0
    } else {
        let i = lru_index(e.drop_last());
        if e.last().access_count < e[i].access_count { e.len() - 1 } else { i }
    }
}

/// `d` with its front replaced by `data`.
pub open spec fn overwrite_front(d: Seq<u8>, data: Seq<u8>) -> Seq<u8> {
    data + d.subrange(data.len() as int, d.len() as int)
}

/// What a block holds after `data` is written to it through the cache: the cached
/// copy with its front overwritten, or `data` padded with zeros to `bs` bytes.
pub open spec fn after_write(prev: Option<(Seq<u8>, bool)>, data: Seq<u8>, bs: nat) -> Seq<u8> {
    match prev {
        Some((d, _)) => overwrite_front(d, data),
        None => data + Seq::new((bs - data.len()) as nat, |i: int| 0u8),
    }
}

/// A read after a write gives back the written bytes at the front of the block, and
/// the block keeps its size.
pub proof fn law_read_after_write(prev: Option<(Seq<u8>, bool)>, data: Seq<u8>, bs: nat)
    requires
        data.len() <= bs,
        prev matches Some((d, _)) ==> d.len() == bs,
    ensures
        after_write(prev, data, bs).len() == bs,
        after_write(prev, data, bs).subrange(0, data.len() as int) == data,
{
    assert(after_write(prev, data, bs).subrange(0, data.len() as int) =~= data);
}

impl BlockCache {
    pub open spec fn wf(&self) -> bool {
        &&& self.block_size > 0
        &&& self.max_bytes >= self.block_size
        &&& self.total_bytes == self.entries@.len() * self.block_size
        &&& self.total_bytes <= self.max_bytes
        &&& forall|i: int, j: int| 0 <= i < j < self.entries@.len() ==> self.entries@[i].block < self.entries@[j].block
        &&& forall|i: int| 0 <= i < self.entries@.len() ==> (#[trigger] self.entries@[i]).data@.len() == self.block_size
    }

    /// What the cache holds for `block`: its data and dirty flag.
    pub open spec fn cached(&self, block: u64) -> Option<(Seq<u8>, bool)> {
        if exists|i: int| 0 <= i < self.entries@.len() && (#[trigger] self.entries@[i]).block == block {
            let i = choose|i: int| 0 <= i < self.entries@.len() && (#[trigger] self.entries@[i]).block == block;
            Some((self.entries@[i].data@, self.entries@[i].dirty))
        } else {
            None
        }
    }

    /// An empty cache for blocks of `block_size` bytes, holding at most a tenth of RAM
    /// and at most 16 MiB.
    pub fn init(block_size: usize, total_frames: u64) -> (c: Self)
        requires
            block_size > 0,
            block_size <= MAX_CACHE_BYTES,
            total_frames <= 0x10_0000_0000,
            (total_frames * 4096 / 10) >= block_size,
        ensures
            c.wf(),
            c.entries@.len() == 0,
            c.max_bytes == if total_frames * 4096 / 10 < MAX_CACHE_BYTES { total_frames * 4096 / 10 } else { MAX_CACHE_BYTES as int },
    {
        let ram_bytes = total_frames * 4096;
        let tenth = ram_bytes / 10;
        let max_bytes: usize = if tenth < MAX_CACHE_BYTES as u64 { tenth as usize } else { MAX_CACHE_BYTES };
        BlockCache { entries: Vec::new(), block_size, total_bytes: 0, max_bytes, access_counter: 0 }
    }

    /// Position of `block` among the entries, or where it would be inserted.
    fn find(&self, block: u64) -> (r: (bool, usize))
        requires
            self.wf(),
        ensures
            r.1 <= self.entries@.len(),
            r.0 ==> r.1 < self.entries@.len() && self.entries@[r.1 as int].block == block,
            !r.0 ==> forall|i: int| 0 <= i < self.entries@.len() ==> (#[trigger] self.entries@[i]).block != block,
            !r.0 ==> forall|i: int| 0 <= i < r.1 ==> (#[trigger] self.entries@[i]).block < block,
            !r.0 ==> forall|i: int| r.1 <= i < self.entries@.len() ==> (#[trigger] self.entries@[i]).block > block,
    {
        let mut i: usize = 0;
        while i < self.entries.len()
            invariant
                self.wf(),
                i <= self.entries@.len(),
                forall|k: int| 0 <= k < i ==> (#[trigger] self.entries@[k]).block < block,
            decreases self.entries@.len() - i,
        {
            if self.entries[i].block == block {
                return (true, i);
            }
            if self.entries[i].block > block {
                return (false, i);
            }
            i = i + 1;
        }
        (false, i)
    }

    /// Remove the least recently used entry, writing it back first when dirty; gives
    /// the write-back's result (callers drop a failed one).
    fn evict_lru<D: BlockDevice>(&mut self, dev: &mut D) -> (r: Result<(), &'static str>)
        requires
            old(self).wf(),
        ensures
            final(self).wf(),
            final(self).block_size == old(self).block_size,
            final(self).max_bytes == old(self).max_bytes,
            final(self).access_counter == old(self).access_counter,
            old(self).entries@.len() > 0 ==> final(self).entries@ == old(self).entries@.remove(lru_index(old(self).entries@)),
            old(self).entries@.len() == 0 ==> final(self).entries@ == old(self).entries@,
            // a dirty victim is handed to the device's write; nothing else touches it
            ({
                let v = old(self).entries@[lru_index(old(self).entries@)];
                if old(self).entries@.len() > 0 && v.dirty {
                    &&& r is Ok ==> final(dev).sectors() == crate::fs::ext2::dev::splice(old(dev).sectors(), v.block * SECTOR_SIZE, v.data@)
                    &&& r is Err ==> final(dev).sectors() == old(dev).sectors()
                } else {
                    r is Ok && final(dev).sectors() == old(dev).sectors()
                }
            }),
    {
        if self.entries.len() == 0 {
            return Ok(());
        }
        let mut best: usize = 0;
        let mut i: usize = 1;
        proof {
            assert(self.entries@.take(1).len() == 1);
        }
        while i < self.entries.len()
            invariant
                self.wf(),
                1 <= i <= self.entries@.len(),
                best == lru_index(self.entries@.take(i as int)),
                best < i,
            decreases self.entries@.len() - i,
        {
            proof {
                assert(self.entries@.take(i + 1).drop_last() =~= self.entries@.take(i as int));
                lemma_lru_bound(self.entries@.take(i as int));
                assert(self.entries@.take(i as int)[best as int] == self.entries@[best as int]);
            }
            if self.entries[i].access_count < self.entries[best].access_count {
                best = i;
            }
            i = i + 1;
        }
        proof {
            assert(self.entries@.take(self.entries@.len() as int) =~= self.entries@);
        }
        proof {
            lemma_lru_bound(self.entries@);
            assert(self.total_bytes >= self.block_size) by (nonlinear_arith)
                requires
                    self.total_bytes == self.entries@.len() * self.block_size,
                    self.entries@.len() >= 1,
                    self.block_size > 0,
            ;
        }
        let entry = self.entries.remove(best);
        let res = if entry.dirty {
            dev.write_sectors(entry.block, &entry.data)
        } else {
            Ok(())
        };
        self.total_bytes = self.total_bytes - self.block_size;
        proof {
            assert forall|a: int, b: int| 0 <= a < b < self.entries@.len() implies self.entries@[a].block < self.entries@[b].block by {
                let oa = if a < best { a } else { a + 1 };
                let ob = if b < best { b } else { b + 1 };
                assert(self.entries@[a] == old(self).entries@[oa]);
                assert(self.entries@[b] == old(self).entries@[ob]);
            }
            assert forall|a: int| 0 <= a < self.entries@.len() implies (#[trigger] self.entries@[a]).data@.len() == self.block_size by {
                let oa = if a < best { a } else { a + 1 };
                assert(self.entries@[a] == old(self).entries@[oa]);
            }
            let l = self.entries@.len() as int;
            let bs = self.block_size as int;
            let t_old = old(self).total_bytes as int;
            let t_new = self.total_bytes as int;
            assert(t_new == l * bs) by (nonlinear_arith)
                requires
                    t_new == t_old - bs,
                    t_old == (l + 1) * bs,
            ;
        }
        res
    }

    /// Read a block: from the cache on a hit, else from the device (then cached, after
    /// evicting least recently used entries to make room).
    #[verifier::spinoff_prover]
    #[verifier::rlimit(40)]
    pub fn read<D: BlockDevice>(&mut self, block: u64, dev: &mut D) -> (r: Result<Vec<u8>, &'static str>)
        requires
            old(self).wf(),
        ensures
            final(self).wf(),
            final(self).block_size == old(self).block_size,
            match old(self).cached(block) {
                Some((d, dirty)) => r matches Ok(v) && v@ == d && final(self).cached(block) == Some((d, dirty)),
                None => r matches Ok(v) ==> v@ == old(dev).sectors().subrange(block * SECTOR_SIZE, block * SECTOR_SIZE + old(self).block_size)
                    && final(self).cached(block) == Some((v@, false)),
            },
            // a hit leaves the device alone; a failed device read leaves the entries alone
            old(self).cached(block) is Some ==> final(dev).sectors() == old(dev).sectors(),
            r is Err ==> final(self).entries@ == old(self).entries@,
            // a hit makes the block the most recently used and changes nothing else
            old(self).cached(block) is Some ==> {
                &&& final(self).access_counter == old(self).access_counter.wrapping_add(1)
                &&& final(self).entries@.len() == old(self).entries@.len()
                &&& forall|i: int| 0 <= i < old(self).entries@.len() ==> {
                    &&& (#[trigger] final(self).entries@[i]).block == old(self).entries@[i].block
                    &&& final(self).entries@[i].data@ == old(self).entries@[i].data@
                    &&& final(self).entries@[i].dirty == old(self).entries@[i].dirty
                    &&& final(self).entries@[i].access_count == if old(self).entries@[i].block == block {
                        final(self).access_counter
                    } else {
                        old(self).entries@[i].access_count
                    }
                }
            },
            // a miss read from the device evicts least recently used entries until the
            // block fits, then holds it as the most recently used
            old(self).cached(block) is None && r is Ok ==> exists|p: int| {
                &&& 0 <= p < final(self).entries@.len()
                &&& (#[trigger] final(self).entries@[p]).block == block
                &&& final(self).entries@[p].access_count == final(self).access_counter
                &&& final(self).entries@.remove(p) == evicted(old(self).entries@, old(self).block_size as int, old(self).max_bytes as int)
            },
    {
        self.access_counter = self.access_counter.wrapping_add(1);
        let counter = self.access_counter;
        let (found, idx) = self.find(block);
        proof {
            lemma_cached(self.entries@, block, found, idx as int);
        }
        if found {
            let data = self.entries[idx].data.clone();
            let kept = self.entries[idx].data.clone();
            assert(data@ =~= self.entries@[idx as int].data@);
            assert(kept@ =~= self.entries@[idx as int].data@);
            let e = CacheEntry { block, data: kept, dirty: self.entries[idx].dirty, access_count: counter };
            let ghost before = self.entries@;
            self.entries.set(idx, e);
            proof {
                lemma_replace_keeps(before, self.entries@, idx as int);
                lemma_cached(self.entries@, block, true, idx as int);
                assert forall|i: int| 0 <= i < before.len() && i != idx implies (#[trigger] before[i]).block != block by {
                    if i < idx {
                        assert(before[i].block < before[idx as int].block);
                    } else {
                        assert(before[idx as int].block < before[i].block);
                    }
                }
            }
            return Ok(data);
        }
        let mut data: Vec<u8> = Vec::new();
        while data.len() < self.block_size
            invariant
                data@.len() <= self.block_size,
            decreases self.block_size - data@.len(),
        {
            data.push(0);
        }
        let ghost disk = dev.sectors();
        let res = dev.read_sectors(block, &mut data);
        if res.is_err() {
            return Err("block read failed");
        }
        while self.total_bytes > self.max_bytes - self.block_size
            invariant
                self.wf(),
                self.block_size == old(self).block_size,
                self.max_bytes == old(self).max_bytes,
                self.access_counter == counter,
                counter == old(self).access_counter.wrapping_add(1),
                forall|i: int| 0 <= i < self.entries@.len() ==> (#[trigger] self.entries@[i]).block != block,
                evicted(self.entries@, self.block_size as int, self.max_bytes as int)
                    == evicted(old(self).entries@, old(self).block_size as int, old(self).max_bytes as int),
            decreases self.entries@.len(),
        {
            let ghost before = self.entries@;
            proof {
                if before.len() > 0 {
                    assert(before.len() * self.block_size > self.max_bytes - self.block_size);
                }
            }
            let _ = self.evict_lru(dev);
            proof {
                if before.len() == 0 {
                    let t = self.total_bytes as int;
                    let bs = self.block_size as int;
                    assert(t == 0) by (nonlinear_arith)
                        requires
                            t == before.len() * bs,
                            before.len() == 0,
                    ;
                } else {
                    lemma_lru_bound(before);
                    assert forall|i: int| 0 <= i < self.entries@.len() implies (#[trigger] self.entries@[i]).block != block by {
                        let k = lru_index(before);
                        let oi = if i < k { i } else { i + 1 };
                        assert(self.entries@[i] == before[oi]);
                    }
                }
            }
        }
        proof {
            assert(evicted(self.entries@, self.block_size as int, self.max_bytes as int) == self.entries@);
        }
        let (_, pos) = self.find(block);
        let kept = data.clone();
        assert(kept@ =~= data@);
        let e = CacheEntry { block, data: kept, dirty: false, access_count: counter };
        let ghost before = self.entries@;
        self.entries.insert(pos, e);
        proof {
            assert(self.entries@.remove(pos as int) =~= before);
            assert(self.entries@[pos as int] == e);
            lemma_insert_keeps(before, self.entries@, pos as int, block, self.block_size as int);
            lemma_cached(self.entries@, block, true, pos as int);
            let l = before.len() as int;
            let bs = self.block_size as int;
            assert(self.total_bytes + bs == (l + 1) * bs) by (nonlinear_arith)
                requires
                    self.total_bytes == l * bs,
            ;
        }
        self.total_bytes = self.total_bytes + self.block_size;
        proof {
            assert(self.entries@[pos as int].block == block);
            assert(self.entries@[pos as int].access_count == self.access_counter);
            assert(self.entries@.remove(pos as int) == evicted(old(self).entries@, old(self).block_size as int, old(self).max_bytes as int));
        }
        Ok(data)
    }

    /// Write a block through the cache: a cached block's front is overwritten, else a
    /// new entry holds `data` followed by zeros. The entry becomes dirty.
    #[verifier::spinoff_prover]
    #[verifier::rlimit(40)]
    pub fn write<D: BlockDevice>(&mut self, block: u64, data: &[u8], dev: &mut D) -> (r: Result<(), &'static str>)
        requires
            old(self).wf(),
            data@.len() <= old(self).block_size,
        ensures
            final(self).wf(),
            final(self).block_size == old(self).block_size,
            r is Ok,
            final(self).cached(block) == Some((after_write(old(self).cached(block), data@, old(self).block_size as nat), true)),
    {
        self.access_counter = self.access_counter.wrapping_add(1);
        let counter = self.access_counter;
        let (found, idx) = self.find(block);
        proof {
            lemma_cached(self.entries@, block, found, idx as int);
            assert(self.entries@ == old(self).entries@);
            assert(found == (old(self).cached(block) is Some));
        }
        if found {
            let mut nd = self.entries[idx].data.clone();
            let ghost d0 = self.entries@[idx as int].data@;
            assert(nd@ =~= d0);
            let mut k: usize = 0;
            while k < data.len()
                invariant
                    k <= data@.len(),
                    data@.len() <= nd@.len(),
                    nd@.len() == d0.len(),
                    forall|j: int| 0 <= j < k ==> #[trigger] nd@[j] == data@[j],
                    forall|j: int| k <= j < d0.len() ==> #[trigger] nd@[j] == d0[j],
                decreases data@.len() - k,
            {
                nd.set(k, data[k]);
                k = k + 1;
            }
            assert(nd@ =~= overwrite_front(d0, data@));
            let e = CacheEntry { block, data: nd, dirty: true, access_count: counter };
            let ghost before = self.entries@;
            self.entries.set(idx, e);
            proof {
                lemma_replace_keeps(before, self.entries@, idx as int);
                lemma_cached(self.entries@, block, true, idx as int);
            }
            return Ok(());
        }
        while self.total_bytes > self.max_bytes - self.block_size
            invariant
                self.wf(),
                self.block_size == old(self).block_size,
                data@.len() <= self.block_size,
                forall|i: int| 0 <= i < self.entries@.len() ==> (#[trigger] self.entries@[i]).block != block,
            decreases self.entries@.len(),
        {
            let ghost before = self.entries@;
            let _ = self.evict_lru(dev);
            proof {
                if before.len() == 0 {
                    let t = self.total_bytes as int;
                    let bs = self.block_size as int;
                    assert(t == 0) by (nonlinear_arith)
                        requires
                            t == before.len() * bs,
                            before.len() == 0,
                    ;
                } else {
                    lemma_lru_bound(before);
                    assert forall|i: int| 0 <= i < self.entries@.len() implies (#[trigger] self.entries@[i]).block != block by {
                        let k = lru_index(before);
                        let oi = if i < k { i } else { i + 1 };
                        assert(self.entries@[i] == before[oi]);
                    }
                }
            }
        }
        let mut full: Vec<u8> = Vec::new();
        let mut k: usize = 0;
        while k < self.block_size
            invariant
                k <= self.block_size,
                full@.len() == k,
                data@.len() <= self.block_size,
                forall|j: int| 0 <= j < k ==> #[trigger] full@[j] == if j < data@.len() { data@[j] } else { 0u8 },
            decreases self.block_size - k,
        {
            if k < data.len() {
                full.push(data[k]);
            } else {
                full.push(0);
            }
            k = k + 1;
        }
        assert(full@ =~= data@ + Seq::new((old(self).block_size - data@.len()) as nat, |i: int| 0u8));
        let ghost full_view = full@;
        let (_, pos) = self.find(block);
        let e = CacheEntry { block, data: full, dirty: true, access_count: counter };
        let ghost before = self.entries@;
        self.entries.insert(pos, e);
        proof {
            lemma_insert_keeps(before, self.entries@, pos as int, block, self.block_size as int);
            lemma_cached(self.entries@, block, true, pos as int);
            assert(self.entries@[pos as int].data@ == full_view);
            assert(self.cached(block) == Some((full_view, true)));
            assert(after_write(old(self).cached(block), data@, old(self).block_size as nat) == full_view);
            let l = before.len() as int;
            let bs = self.block_size as int;
            assert(self.total_bytes + bs == (l + 1) * bs) by (nonlinear_arith)
                requires
                    self.total_bytes == l * bs,
            ;
        }
        self.total_bytes = self.total_bytes + self.block_size;
        Ok(())
    }

    /// Write every dirty block back, in block order, marking it clean; gives the number
    /// written, or the first write error.
    pub fn sync<D: BlockDevice>(&mut self, dev: &mut D) -> (r: Result<usize, &'static str>)
        requires
            old(self).wf(),
        ensures
            final(self).wf(),
            final(self).entries@.len() == old(self).entries@.len(),
            r matches Ok(n) ==> n <= old(self).entries@.len() && forall|i: int| 0 <= i < final(self).entries@.len() ==> !(#[trigger] final(self).entries@[i]).dirty,
            forall|i: int| 0 <= i < final(self).entries@.len() ==> (#[trigger] final(self).entries@[i]).block == old(self).entries@[i].block
                && final(self).entries@[i].data@ == old(self).entries@[i].data@,
            // every dirty block was written, in block order, and counted
            r matches Ok(n) ==> n == dirty_count(old(self).entries@)
                && final(dev).sectors() == written(old(dev).sectors(), old(self).entries@),
            // a failed write stops the sync: the blocks before it are written and clean,
            // it and the later ones keep their dirty flags
            r is Err ==> exists|i: int| {
                &&& 0 <= i < old(self).entries@.len()
                &&& old(self).entries@[i].dirty
                &&& final(dev).sectors() == #[trigger] written(old(dev).sectors(), old(self).entries@.take(i))
                &&& forall|j: int| 0 <= j < i ==> !(#[trigger] final(self).entries@[j]).dirty
                &&& forall|j: int| i <= j < old(self).entries@.len() ==> (#[trigger] final(self).entries@[j]).dirty == old(self).entries@[j].dirty
            },
    {
        let mut synced: usize = 0;
        let n = self.entries.len();
        let mut i: usize = 0;
        while i < n
            invariant
                self.wf(),
                n == self.entries@.len(),
                n == old(self).entries@.len(),
                i <= n,
                synced <= i,
                forall|j: int| 0 <= j < i ==> !(#[trigger] self.entries@[j]).dirty,
                forall|j: int| 0 <= j < n ==> (#[trigger] self.entries@[j]).block == old(self).entries@[j].block
                    && self.entries@[j].data@ == old(self).entries@[j].data@,
                forall|j: int| i <= j < n ==> (#[trigger] self.entries@[j]) == old(self).entries@[j],
                dev.sectors() == written(old(dev).sectors(), old(self).entries@.take(i as int)),
                synced == dirty_count(old(self).entries@.take(i as int)),
            decreases n - i,
        {
            proof {
                assert(old(self).entries@.take(i + 1).drop_last() =~= old(self).entries@.take(i as int));
                assert(old(self).entries@.take(i + 1).last() == old(self).entries@[i as int]);
            }
            if self.entries[i].dirty {
                let res = dev.write_sectors(self.entries[i].block, &self.entries[i].data);
                if res.is_err() {
                    return Err("block write failed");
                }
                let kept = self.entries[i].data.clone();
                assert(kept@ =~= self.entries@[i as int].data@);
                let e = CacheEntry { block: self.entries[i].block, data: kept, dirty: false, access_count: self.entries[i].access_count };
                let ghost before = self.entries@;
                self.entries.set(i, e);
                proof {
                    lemma_replace_keeps(before, self.entries@, i as int);
                }
                synced = synced + 1;
            }
            i = i + 1;
        }
        proof {
            assert(old(self).entries@.take(n as int) =~= old(self).entries@);
        }
        Ok(synced)
    }

    /// (entries, dirty entries, bytes held).
    pub fn stats(&self) -> (r: (usize, usize, usize))
        requires
            self.wf(),
        ensures
            r.0 == self.entries@.len(),
            r.1 == dirty_count(self.entries@),
            r.2 == self.total_bytes,
    {
        let mut dirty: usize = 0;
        let mut i: usize = 0;
        while i < self.entries.len()
            invariant
                i <= self.entries@.len(),
                dirty == dirty_count(self.entries@.take(i as int)),
                dirty <= i,
            decreases self.entries@.len() - i,
        {
            proof {
                assert(self.entries@.take(i + 1).drop_last() =~= self.entries@.take(i as int));
            }
            if self.entries[i].dirty {
                dirty = dirty + 1;
            }
            i = i + 1;
        }
        proof {
            assert(self.entries@.take(self.entries@.len() as int) =~= self.entries@);
        }
        (self.entries.len(), dirty, self.total_bytes)
    }
}

/// Number of dirty entries.
/// The entries left when least recently used ones are evicted while another block of
/// `bs` bytes would not fit in `max` bytes.
pub open spec fn evicted(es: Seq<CacheEntry>, bs: int, max: int) -> Seq<CacheEntry>
    decreases es.len(),
{
    if es.len() > 0 && es.len() * bs > max - bs {
        proof {
            lemma_lru_bound(es);
        }
        evicted(es.remove(lru_index(es)), bs, max)
    } else {
        es
    }
}

/// The device bytes `d` after the dirty entries of `es` are written in turn, each at
/// its block's sector.
pub open spec fn written(d: Seq<u8>, es: Seq<CacheEntry>) -> Seq<u8>
    decreases es.len(),
{
    if es.len() == 0 {
        d
    } else {
        let p = written(d, es.drop_last());
        if es.last().dirty {
            crate::fs::ext2::dev::splice(p, es.last().block * SECTOR_SIZE, es.last().data@)
        } else {
            p
        }
    }
}

pub open spec fn dirty_count(e: Seq<CacheEntry>) -> nat
    decreases e.len(),
{
    if e.len() == 0 {
        0
    } else {
        dirty_count(e.drop_last()) + if e.last().dirty { 1nat } else { 0nat }
    }
}

/// The least recently used entry of a non-empty sequence lies in it.
pub proof fn lemma_lru_bound(e: Seq<CacheEntry>)
    requires
        e.len() > 0,
    ensures
        0 <= lru_index(e) < e.len(),
    decreases e.len(),
{
    if e.len() > 1 {
        lemma_lru_bound(e.drop_last());
    }
}

/// With sorted distinct blocks, what `find` reports is what `cached` says.
proof fn lemma_cached(e: Seq<CacheEntry>, block: u64, found: bool, idx: int)
    requires
        forall|i: int, j: int| 0 <= i < j < e.len() ==> e[i].block < e[j].block,
        found ==> 0 <= idx < e.len() && e[idx].block == block,
        !found ==> forall|i: int| 0 <= i < e.len() ==> (#[trigger] e[i]).block != block,
    ensures
        found ==> (exists|i: int| 0 <= i < e.len() && (#[trigger] e[i]).block == block)
            && (choose|i: int| 0 <= i < e.len() && (#[trigger] e[i]).block == block) == idx,
        !found ==> !(exists|i: int| 0 <= i < e.len() && (#[trigger] e[i]).block == block),
{
    if found {
        assert(e[idx].block == block);
        let c = choose|i: int| 0 <= i < e.len() && (#[trigger] e[i]).block == block;
        if c != idx {
            if c < idx {
                assert(e[c].block < e[idx].block);
            } else {
                assert(e[idx].block < e[c].block);
            }
        }
    }
}

/// Replacing an entry by one for the same block with data of the same length keeps
/// the order and the data lengths.
proof fn lemma_replace_keeps(before: Seq<CacheEntry>, after: Seq<CacheEntry>, idx: int)
    requires
        0 <= idx < before.len(),
        after.len() == before.len(),
        after[idx].block == before[idx].block,
        after[idx].data@.len() == before[idx].data@.len(),
        forall|k: int| 0 <= k < before.len() && k != idx ==> #[trigger] after[k] == before[k],
    ensures
        forall|i: int, j: int| 0 <= i < j < before.len() && before[i].block < before[j].block
            ==> after[i].block < after[j].block,
        forall|i: int| 0 <= i < after.len() ==> (#[trigger] after[i]).data@.len() == before[i].data@.len(),
        forall|i: int| 0 <= i < after.len() ==> (#[trigger] after[i]).block == before[i].block,
{
}

/// Inserting an entry for a new block at its sorted position keeps the order.
proof fn lemma_insert_keeps(before: Seq<CacheEntry>, after: Seq<CacheEntry>, pos: int, block: u64, bs: int)
    requires
        0 <= pos <= before.len(),
        forall|i: int, j: int| 0 <= i < j < before.len() ==> before[i].block < before[j].block,
        forall|i: int| 0 <= i < pos ==> (#[trigger] before[i]).block < block,
        forall|i: int| pos <= i < before.len() ==> (#[trigger] before[i]).block > block,
        forall|i: int| 0 <= i < before.len() ==> (#[trigger] before[i]).data@.len() == bs,
        after.len() == before.len() + 1,
        after[pos].block == block,
        after[pos].data@.len() == bs,
        forall|k: int| 0 <= k < pos ==> #[trigger] after[k] == before[k],
        forall|k: int| pos < k < after.len() ==> #[trigger] after[k] == before[k - 1],
    ensures
        forall|i: int, j: int| 0 <= i < j < after.len() ==> after[i].block < after[j].block,
        forall|i: int| 0 <= i < after.len() ==> (#[trigger] after[i]).data@.len() == bs,
{
    assert forall|i: int, j: int| 0 <= i < j < after.len() implies after[i].block < after[j].block by {
        if j < pos {
        } else if j == pos {
            assert(after[i] == before[i]);
        } else if i < pos {
            assert(after[i] == before[i]);
            assert(after[j] == before[j - 1]);
        } else if i == pos {
            assert(after[j] == before[j - 1]);
        } else {
            assert(after[i] == before[i - 1]);
            assert(after[j] == before[j - 1]);
        }
    }
    assert forall|i: int| 0 <= i < after.len() implies (#[trigger] after[i]).data@.len() == bs by {
        if i < pos {
            assert(after[i] == before[i]);
        } else if i > pos {
            assert(after[i] == before[i - 1]);
        }
    }
}

} // verus!
