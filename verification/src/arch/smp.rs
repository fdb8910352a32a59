//! Bringing up the application processors: which CPUs to start and how many are
//! online.
use vstd::prelude::*;

verus! {

/// Maximum supported CPUs.
pub const MAX_CPUS: usize = 64;

/// Spins to wait for the application processors before giving up.
pub const ONLINE_TIMEOUT_SPINS: u64 = 100_000_000;

/// CPUs that have finished their start-up (the bootstrap processor included), and
/// whether start-up is over.
pub struct Smp {
    pub online: u32,
    pub initialized: bool,
}

/// The CPUs to start: each CPU but the bootstrap one, in order, counting until the
/// count reaches `MAX_CPUS` (that CPU is counted but not started). Gives the started
/// APIC ids and the count.
pub open spec fn boot_plan(ids: Seq<u32>, bsp: u32) -> (Seq<u32>, nat)
    decreases ids.len(),
{
    if ids.len() == 0 {
        (Seq::empty(), 0)
    } else {
        let (started, count) = boot_plan(ids.drop_last(), bsp);
        if ids.last() == bsp || count >= MAX_CPUS {
            (started, count)
        } else if count + 1 >= MAX_CPUS {
            (started, count + 1)
        } else {
            (started.push(ids.last()), count + 1)
        }
    }
}

impl Smp {
    /// Only the bootstrap processor online.
    pub fn new() -> (s: Self)
        ensures
            s.online == 1,
            !s.initialized,
    {
        Smp { online: 1, initialized: false }
    }

    /// The APIC ids to start, from those the firmware lists, and the number of CPUs to
    /// wait for (the bootstrap processor and each CPU counted).
    pub fn plan_boot(lapic_ids: &Vec<u32>, bsp_lapic_id: u32) -> (r: (Vec<u32>, u32))
        ensures
            r.0@ == boot_plan(lapic_ids@, bsp_lapic_id).0,
            r.1 == boot_plan(lapic_ids@, bsp_lapic_id).1 + 1,
    {
        let mut started: Vec<u32> = Vec::new();
        let mut count: u32 = 0;
        let mut i: usize = 0;
        assert(lapic_ids@.take(lapic_ids@.len() as int) =~= lapic_ids@);
        while i < lapic_ids.len()
            invariant_except_break
                i <= lapic_ids@.len(),
                lapic_ids@.take(lapic_ids@.len() as int) == lapic_ids@,
                (started@, count as nat) == boot_plan(lapic_ids@.take(i as int), bsp_lapic_id),
                count < MAX_CPUS,
            ensures
                (started@, count as nat) == boot_plan(lapic_ids@, bsp_lapic_id),
                count <= MAX_CPUS,
            decreases lapic_ids@.len() - i,
        {
            proof {
                assert(lapic_ids@.take(i + 1).drop_last() =~= lapic_ids@.take(i as int));
                lemma_plan_stops(lapic_ids@, bsp_lapic_id, i as int + 1);
            }
            let id = lapic_ids[i];
            if id == bsp_lapic_id {
                i = i + 1;
                continue;
            }
            count = count + 1;
            if count as usize >= MAX_CPUS {
                proof {
                    lemma_plan_stops(lapic_ids@, bsp_lapic_id, lapic_ids@.len() as int);
                    lemma_plan_saturated(lapic_ids@, bsp_lapic_id, i as int + 1);
                    assert(lapic_ids@.take(lapic_ids@.len() as int) =~= lapic_ids@);
                }
                break;
            }
            started.push(id);
            i = i + 1;
        }
        (started, count + 1)
    }

    /// An application processor reports in; gives its number (the count before it).
    pub fn ap_online(&mut self) -> (id: u32)
        ensures
            id == old(self).online,
            final(self).online == old(self).online.wrapping_add(1),
            final(self).initialized == old(self).initialized,
    {
        let id = self.online;
        self.online = self.online.wrapping_add(1);
        id
    }

    /// Whether the bootstrap processor keeps waiting: fewer than `expected` CPUs are
    /// online and it has not spun past the timeout.
    pub fn keep_waiting(&self, expected: u32, spins: u64) -> (r: bool)
        ensures
            r == (self.online < expected && spins <= ONLINE_TIMEOUT_SPINS),
    {
        self.online < expected && spins <= ONLINE_TIMEOUT_SPINS
    }

    /// Start-up is over.
    pub fn finish(&mut self)
        ensures
            final(self).initialized,
            final(self).online == old(self).online,
    {
        self.initialized = true;
    }

    /// Number of CPUs currently online.
    pub fn cpus_online(&self) -> (n: u32)
        ensures
            n == self.online,
    {
        self.online
    }

    /// Whether start-up is over.
    pub fn is_initialized(&self) -> (b: bool)
        ensures
            b == self.initialized,
    {
        self.initialized
    }
}

/// Once the count has reached `MAX_CPUS` it stays there.
proof fn lemma_plan_saturated(ids: Seq<u32>, bsp: u32, n: int)
    requires
        0 <= n <= ids.len(),
        boot_plan(ids.take(n), bsp).1 >= MAX_CPUS,
    ensures
        boot_plan(ids, bsp) == boot_plan(ids.take(n), bsp),
    decreases ids.len() - n,
{
    if n < ids.len() {
        assert(ids.take(n + 1).drop_last() =~= ids.take(n));
        lemma_plan_saturated(ids, bsp, n + 1);
    } else {
        assert(ids.take(n) =~= ids);
    }
}

/// The count never passes `MAX_CPUS`.
proof fn lemma_plan_stops(ids: Seq<u32>, bsp: u32, n: int)
    requires
        0 <= n <= ids.len(),
    ensures
        boot_plan(ids.take(n), bsp).1 <= MAX_CPUS,
    decreases n,
{
    if n > 0 {
        assert(ids.take(n).drop_last() =~= ids.take(n - 1));
        lemma_plan_stops(ids, bsp, n - 1);
    }
}

} // verus!
