//! Fault injection: each injection point fails every Nth call.
use vstd::prelude::*;

verus! {

/// Places where a fault can be injected.
#[derive(Debug, Clone, Copy, PartialEq, Eq, Structural)]
pub enum InjectionPoint {
    PmmAlloc,
    DiskRead,
    DiskWrite,
    SlabAlloc,
    PtAlloc,
}

impl InjectionPoint {
    pub open spec fn spec_index(self) -> int {
        match self {
            InjectionPoint::PmmAlloc => 0,
            InjectionPoint::DiskRead => 1,
            InjectionPoint::DiskWrite => 2,
            InjectionPoint::SlabAlloc => 3,
            InjectionPoint::PtAlloc => 4,
        }
    }

    /// Slot of the point in the period and counter tables.
    pub fn index(self) -> (i: usize)
        ensures
            i == self.spec_index(),
    {
        match self {
            InjectionPoint::PmmAlloc => 0,
            InjectionPoint::DiskRead => 1,
            InjectionPoint::DiskWrite => 2,
            InjectionPoint::SlabAlloc => 3,
            InjectionPoint::PtAlloc => 4,
        }
    }
}

/// For each point, the period N (0: never fail) and the number of calls so far.
pub struct FaultInjector {
    pub every_n: Vec<u32>,
    pub counters: Vec<u32>,
}

impl FaultInjector {
    pub open spec fn wf(&self) -> bool {
        self.every_n@.len() == 5 && self.counters@.len() == 5
    }

    /// Every point disabled, every counter zero.
    pub fn new() -> (f: Self)
        ensures
            f.wf(),
            forall|i: int| 0 <= i < 5 ==> f.every_n@[i] == 0 && f.counters@[i] == 0,
    {
        FaultInjector { every_n: vec![0u32, 0, 0, 0, 0], counters: vec![0u32, 0, 0, 0, 0] }
    }

    /// Make `point` fail every `n`th call (0 disables it).
    pub fn set_every_n(&mut self, point: InjectionPoint, n: u32)
        requires
            old(self).wf(),
        ensures
            final(self).wf(),
            final(self).every_n@ == old(self).every_n@.update(point.spec_index(), n),
            final(self).counters@ == old(self).counters@,
    {
        let i = point.index();
        self.every_n.set(i, n);
    }

    /// Whether this call at `point` fails: never while the point is disabled; else the
    /// call's number (counted from 0, wrapping) is a multiple of the period.
    pub fn should_fail(&mut self, point: InjectionPoint) -> (r: bool)
        requires
            old(self).wf(),
        ensures
            final(self).wf(),
            final(self).every_n@ == old(self).every_n@,
            ({
                let i = point.spec_index();
                let n = old(self).every_n@[i];
                let c = old(self).counters@[i];
                &&& n == 0 ==> !r && final(self).counters@ == old(self).counters@
                &&& n != 0 ==> r == (c % n == 0)
                    && final(self).counters@ == old(self).counters@.update(i, c.wrapping_add(1))
            }),
    {
        let i = point.index();
        let n = self.every_n[i];
        if n == 0 {
            return false;
        }
        let count = self.counters[i];
        self.counters.set(i, count.wrapping_add(1));
        count % n == 0
    }
}

/// With fault injection compiled out, no call fails.
pub fn should_fail(point: InjectionPoint) -> (r: bool)
    ensures
        !r,
{
    false
}

} // verus!
