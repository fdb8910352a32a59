//! Out-of-memory checks and recovery.
use vstd::prelude::*;
use crate::fs::block_cache::BlockCache;
use crate::fs::ext2::dev::BlockDevice;
use crate::memory::pmm::Pmm;

verus! {

/// Memory is critically low: fewer than 5% of the frames are free.
pub fn is_low(pmm: &Pmm) -> (r: bool)
    ensures
        r == (20 * pmm.free_frames < pmm.total_frames),
{
    let total = pmm.total_frames();
    let free = pmm.free_frames();
    (free as u128) * 20 < total as u128
}

/// Try to reclaim memory: when the block cache holds entries it is synced, and
/// recovery counts as done when more than ten frames came free meanwhile. No process
/// can be killed, so otherwise recovery fails.
pub fn try_recover<D: BlockDevice>(pmm: &Pmm, cache: &mut BlockCache, dev: &mut D) -> (r: bool)
    requires
        old(cache).wf(),
    ensures
        final(cache).wf(),
        final(cache).entries@.len() == old(cache).entries@.len(),
        old(cache).entries@.len() == 0 ==> final(cache).entries@ == old(cache).entries@,
        forall|i: int| 0 <= i < final(cache).entries@.len() ==> (#[trigger] final(cache).entries@[i]).block == old(cache).entries@[i].block
            && final(cache).entries@[i].data@ == old(cache).entries@[i].data@,
        r == false,
{
    let free = pmm.free_frames();
    let (cache_entries, _, _) = cache.stats();
    if cache_entries > 0 {
        let _ = cache.sync(dev);
        let new_free = pmm.free_frames();
        if new_free > free && new_free - free > 10 {
            return true;
        }
    }
    false
}

} // verus!
