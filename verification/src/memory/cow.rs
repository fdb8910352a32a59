//! Copy-on-Write frame reference counting.
//!
//! Tracks how many address spaces share each physical frame. When a write fault
//! occurs on a shared frame, the fault handler copies the frame and gives the faulting
//! process a private copy.
use vstd::prelude::*;
use std::collections::BTreeMap;
use crate::memory::addr::{PhysFrame, PAGE_SIZE};

verus! {

broadcast use vstd::std_specs::btree::group_btree_axioms;

/// COW reference counts, by frame start address. Frames with no entry have count 0.
pub struct CowRefcounts {
    counts: BTreeMap<u64, u32>,
}

/// The key under which a frame's count is kept: its start address.
pub open spec fn frame_key(frame: PhysFrame) -> u64 {
    frame.0 << 12u64
}

impl CowRefcounts {
    /// Reference counts by frame start address; absent keys count 0.
    pub closed spec fn counts(&self) -> Map<u64, u32> {
        self.counts@
    }

    /// The reference count of the frame starting at `key`.
    pub open spec fn count_of(&self, key: u64) -> u32 {
        if self.counts().contains_key(key) { self.counts()[key] } else { 0 }
    }

    /// No stored count is 0: a count that drops to 0 is removed.
    pub closed spec fn wf(&self) -> bool {
        forall|k: u64| #[trigger] self.counts@.contains_key(k) ==> self.counts@[k] > 0
    }
}

/// Create the COW reference tracking, with no frame shared.
pub fn init() -> (c: CowRefcounts)
    ensures
        c.wf(),
        c.counts() == Map::<u64, u32>::empty(),
{
    CowRefcounts { counts: BTreeMap::new() }
}

/// Increment the reference count for a frame. Returns the new count.
pub fn inc_ref(c: &mut CowRefcounts, frame: PhysFrame) -> (r: u32)
    requires
        old(c).wf(),
        old(c).count_of(frame_key(frame)) < u32::MAX,
    ensures
        final(c).wf(),
        r == old(c).count_of(frame_key(frame)) + 1,
        final(c).counts() == old(c).counts().insert(frame_key(frame), r),
{
    let key = frame.start_address().as_u64();
    let n = match c.counts.get(&key) {
        Some(v) => *v,
        None => 0,
    };
    let r = n + 1;
    c.counts.insert(key, r);
    r
}

/// Decrement the reference count for a frame and return the new count; when it reaches
/// 0 the entry is removed. A frame with no entry gives 0 and nothing changes.
pub fn dec_ref(c: &mut CowRefcounts, frame: PhysFrame) -> (r: u32)
    requires
        old(c).wf(),
    ensures
        final(c).wf(),
        old(c).count_of(frame_key(frame)) == 0 ==> r == 0 && final(c).counts() == old(c).counts(),
        old(c).count_of(frame_key(frame)) > 0 ==> r == old(c).count_of(frame_key(frame)) - 1,
        old(c).count_of(frame_key(frame)) == 1 ==> final(c).counts() == old(c).counts().remove(frame_key(frame)),
        old(c).count_of(frame_key(frame)) > 1 ==> final(c).counts() == old(c).counts().insert(frame_key(frame), r),
{
    let key = frame.start_address().as_u64();
    match c.counts.get(&key) {
        Some(v) => {
            let result = *v - 1;
            if result == 0 {
                c.counts.remove(&key);
            } else {
                c.counts.insert(key, result);
            }
            result
        },
        None => 0,
    }
}

/// Get the current reference count for a frame.
pub fn ref_count(c: &CowRefcounts, frame: PhysFrame) -> (r: u32)
    ensures
        r == c.count_of(frame_key(frame)),
{
    let key = frame.start_address().as_u64();
    match c.counts.get(&key) {
        Some(v) => *v,
        None => 0,
    }
}

/// Check if a frame is shared (ref count > 1).
pub fn is_shared(c: &CowRefcounts, frame: PhysFrame) -> (r: bool)
    ensures
        r == (c.count_of(frame_key(frame)) > 1),
{
    ref_count(c, frame) > 1
}

/// Incrementing and then decrementing a frame's count restores the table: one call
/// undoes the other.
pub proof fn lemma_inc_dec_roundtrip(counts: Map<u64, u32>, key: u64, n: u32)
    requires
        forall|k: u64| #[trigger] counts.contains_key(k) ==> counts[k] > 0,
        n == (if counts.contains_key(key) { counts[key] } else { 0 }),
        n < u32::MAX,
    ensures
        ({
            let after_inc = counts.insert(key, (n + 1) as u32);
            let after_dec = if n + 1 == 1 { after_inc.remove(key) } else { after_inc.insert(key, n) };
            after_dec == counts
        }),
{
    let after_inc = counts.insert(key, (n + 1) as u32);
    if n == 0 {
        assert(after_inc.remove(key) =~= counts);
    } else {
        assert(after_inc.insert(key, n) =~= counts);
    }
}

} // verus!
