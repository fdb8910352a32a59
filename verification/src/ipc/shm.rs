use vstd::prelude::*;
use crate::errno::Errno;

verus! {

/// Maximum shared memory segments.
pub const MAX_SHM_SEGMENTS: usize = 64;

/// A shared memory segment.
pub struct ShmSegment {
    pub key: i32,
    pub size: usize,
    pub data: Vec<u8>,
    pub attach_count: usize,
}

/// Shared memory segments by ID.
pub struct ShmState {
    segments: Vec<Option<ShmSegment>>,
}

/// Whether slot `s` holds a segment with key `key`.
pub open spec fn has_key(s: Option<ShmSegment>, key: i32) -> bool {
    s matches Some(seg) && seg.key == key
}

/// Whether some slot holds a segment with key `key`.
pub open spec fn key_present(slots: Seq<Option<ShmSegment>>, key: i32) -> bool {
    exists|i: int| 0 <= i < slots.len() && has_key(#[trigger] slots[i], key)
}

impl ShmState {
    pub closed spec fn slots(&self) -> Seq<Option<ShmSegment>> {
        self.segments@
    }

    pub closed spec fn wf(&self) -> bool {
        self.segments@.len() == MAX_SHM_SEGMENTS
    }
}

/// Create the shared memory subsystem with all slots free.
pub fn init() -> (s: ShmState)
    ensures
        s.wf(),
        s.slots().len() == MAX_SHM_SEGMENTS,
        forall|i: int| 0 <= i < MAX_SHM_SEGMENTS ==> s.slots()[i] is None,
{
    let mut segments: Vec<Option<ShmSegment>> = Vec::new();
    while segments.len() < MAX_SHM_SEGMENTS
        invariant
            segments@.len() <= MAX_SHM_SEGMENTS,
            forall|i: int| 0 <= i < segments@.len() ==> segments@[i] is None,
        decreases MAX_SHM_SEGMENTS - segments@.len(),
    {
        segments.push(None);
    }
    ShmState { segments }
}

/// Create or get a shared memory segment and return its ID. A nonzero key that an
/// existing segment has gives that segment (the lowest such ID); otherwise a new
/// zero-filled segment of `size` bytes goes in the lowest free slot.
pub fn shmget(state: &mut ShmState, key: i32, size: usize) -> (r: Result<usize, Errno>)
    requires
        old(state).wf(),
    ensures
        final(state).wf(),
        key != 0 && key_present(old(state).slots(), key)
            ==> (r matches Ok(id) && id < MAX_SHM_SEGMENTS && has_key(old(state).slots()[id as int], key)
            && (forall|j: int| 0 <= j < id ==> !has_key(#[trigger] old(state).slots()[j], key))
            && final(state).slots() == old(state).slots()),
        !(key != 0 && key_present(old(state).slots(), key))
            ==> match r {
            Ok(id) => {
                &&& id < MAX_SHM_SEGMENTS
                &&& old(state).slots()[id as int] is None
                &&& forall|j: int| 0 <= j < id ==> #[trigger] old(state).slots()[j] is Some
                &&& final(state).slots().len() == MAX_SHM_SEGMENTS
                &&& forall|j: int| 0 <= j < MAX_SHM_SEGMENTS && j != id ==> #[trigger] final(state).slots()[j]
                    == old(state).slots()[j]
                &&& final(state).slots()[id as int] matches Some(seg) && seg.key == key && seg.size == size
                    && seg.attach_count == 0 && seg.data@ == Seq::new(size as nat, |i: int| 0u8)
            },
            Err(e) => {
                &&& e == Errno::ENOMEM
                &&& forall|j: int| 0 <= j < MAX_SHM_SEGMENTS ==> #[trigger] old(state).slots()[j] is Some
                &&& final(state).slots() == old(state).slots()
            },
        },
{
    if key != 0 {
        let mut i: usize = 0;
        while i < MAX_SHM_SEGMENTS
            invariant
                state.wf(),
                state.slots() == old(state).slots(),
                key != 0,
                i <= MAX_SHM_SEGMENTS,
                forall|j: int| 0 <= j < i ==> !has_key(#[trigger] state.slots()[j], key),
            decreases MAX_SHM_SEGMENTS - i,
        {
            match &state.segments[i] {
                Some(seg) => {
                    if seg.key == key {
                        assert(has_key(old(state).slots()[i as int], key));
                        return Ok(i);
                    }
                },
                None => {},
            }
            i += 1;
        }
    }
    let mut i: usize = 0;
    while i < MAX_SHM_SEGMENTS
        invariant
            state.wf(),
            state.slots() == old(state).slots(),
            i <= MAX_SHM_SEGMENTS,
            forall|j: int| 0 <= j < i ==> #[trigger] state.slots()[j] is Some,
            key != 0 ==> forall|j: int| 0 <= j < MAX_SHM_SEGMENTS ==> !has_key(#[trigger] state.slots()[j], key),
        decreases MAX_SHM_SEGMENTS - i,
    {
        if state.segments[i].is_none() {
            let mut data: Vec<u8> = Vec::new();
            while data.len() < size
                invariant
                    data@.len() <= size,
                    forall|k: int| 0 <= k < data@.len() ==> data@[k] == 0u8,
                decreases size - data@.len(),
            {
                data.push(0);
            }
            assert(data@ =~= Seq::new(size as nat, |k: int| 0u8));
            state.segments.set(i, Some(ShmSegment { key, size, data, attach_count: 0 }));
            return Ok(i);
        }
        i += 1;
    }
    Err(Errno::ENOMEM)
}

/// Attach to a shared memory segment: count one more attachment. An ID with no
/// segment gives `EINVAL`.
pub fn shmat(state: &mut ShmState, id: usize) -> (r: Result<(), Errno>)
    requires
        old(state).wf(),
        id < MAX_SHM_SEGMENTS ==> (old(state).slots()[id as int] matches Some(seg) ==> seg.attach_count < usize::MAX),
    ensures
        final(state).wf(),
        !(id < MAX_SHM_SEGMENTS && old(state).slots()[id as int] is Some) ==> r == Err::<(), Errno>(Errno::EINVAL)
            && final(state).slots() == old(state).slots(),
        id < MAX_SHM_SEGMENTS && old(state).slots()[id as int] is Some ==> r is Ok && ({
            let o = old(state).slots()[id as int]->0;
            let n = final(state).slots()[id as int]->0;
            &&& final(state).slots()[id as int] is Some
            &&& n.key == o.key && n.size == o.size && n.data@ == o.data@
            &&& n.attach_count == o.attach_count + 1
        }) && (forall|j: int| 0 <= j < MAX_SHM_SEGMENTS && j != id ==> #[trigger] final(state).slots()[j] == old(state).slots()[j]),
{
    if id >= state.segments.len() {
        return Err(Errno::EINVAL);
    }
    let mut slot: Option<ShmSegment> = None;
    std::mem::swap(&mut slot, &mut state.segments[id]);
    match slot {
        Some(mut seg) => {
            seg.attach_count = seg.attach_count + 1;
            state.segments.set(id, Some(seg));
            Ok(())
        },
        None => Err(Errno::EINVAL),
    }
}

/// Detach from a shared memory segment: count one attachment less, not going below 0.
/// An ID with no segment gives `EINVAL`.
pub fn shmdt(state: &mut ShmState, id: usize) -> (r: Result<(), Errno>)
    requires
        old(state).wf(),
    ensures
        final(state).wf(),
        !(id < MAX_SHM_SEGMENTS && old(state).slots()[id as int] is Some) ==> r == Err::<(), Errno>(Errno::EINVAL)
            && final(state).slots() == old(state).slots(),
        id < MAX_SHM_SEGMENTS && old(state).slots()[id as int] is Some ==> r is Ok && ({
            let o = old(state).slots()[id as int]->0;
            let n = final(state).slots()[id as int]->0;
            &&& final(state).slots()[id as int] is Some
            &&& n.key == o.key && n.size == o.size && n.data@ == o.data@
            &&& n.attach_count == (if o.attach_count > 0 { o.attach_count - 1 } else { 0 })
        }) && (forall|j: int| 0 <= j < MAX_SHM_SEGMENTS && j != id ==> #[trigger] final(state).slots()[j] == old(state).slots()[j]),
{
    if id >= state.segments.len() {
        return Err(Errno::EINVAL);
    }
    let mut slot: Option<ShmSegment> = None;
    std::mem::swap(&mut slot, &mut state.segments[id]);
    match slot {
        Some(mut seg) => {
            if seg.attach_count > 0 {
                seg.attach_count = seg.attach_count - 1;
            }
            state.segments.set(id, Some(seg));
            Ok(())
        },
        None => Err(Errno::EINVAL),
    }
}

} // verus!
