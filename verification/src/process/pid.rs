use vstd::prelude::*;
use std::collections::BTreeMap;
use vstd::std_specs::btree::spec_btree_map_iter;
use vstd::std_specs::iter::IteratorSpec;
use vstd::std_specs::cmp::OrdSpec;

verus! {

broadcast use {vstd::std_specs::btree::group_btree_axioms, vstd::laws_cmp::group_laws_cmp};

/// Process ID type.
pub type Pid = u64;

/// Process state in the process table.
#[derive(Debug, Clone, Copy, PartialEq, Eq, Structural)]
pub enum ProcessState {
    Running,
    Sleeping,
    Zombie,
    Stopped,
}

/// Minimal process descriptor for the process table.
#[derive(Debug, Clone, Copy, PartialEq, Eq, Structural)]
pub struct ProcessDesc {
    pub pid: Pid,
    pub ppid: Pid,
    pub pgid: Pid,
    pub sid: Pid,
    pub state: ProcessState,
    pub exit_code: i32,
    pub uid: u32,
    pub gid: u32,
}

/// The process table: descriptors by PID, and the next PID to hand out.
pub struct ProcessTable {
    procs: BTreeMap<Pid, ProcessDesc>,
    next_pid: Pid,
}

/// A descriptor after its parent `parent_pid` went away: children other than PID 1
/// are handed to PID 1.
pub open spec fn reparented(d: ProcessDesc, parent_pid: Pid) -> ProcessDesc {
    if d.ppid == parent_pid && d.pid != 1 {
        ProcessDesc { ppid: 1, ..d }
    } else {
        d
    }
}

/// Whether `d` is a zombie child of `parent_pid`.
pub open spec fn is_zombie_child(d: ProcessDesc, parent_pid: Pid) -> bool {
    d.ppid == parent_pid && d.state == ProcessState::Zombie
}

impl ProcessTable {
    /// Descriptors by PID.
    pub closed spec fn procs(&self) -> Map<Pid, ProcessDesc> {
        self.procs@
    }

    pub closed spec fn next_pid(&self) -> Pid {
        self.next_pid
    }

    /// Each descriptor is filed under its own PID.
    pub closed spec fn wf(&self) -> bool {
        forall|p: Pid| #[trigger] self.procs@.contains_key(p) ==> self.procs@[p].pid == p
    }
}

/// Create the process table with PID 1 (init/kernel).
pub fn init() -> (t: ProcessTable)
    ensures
        t.wf(),
        t.next_pid() == 2,
        t.procs() == Map::<Pid, ProcessDesc>::empty().insert(
            1,
            ProcessDesc {
                pid: 1,
                ppid: 0,
                pgid: 1,
                sid: 1,
                state: ProcessState::Running,
                exit_code: 0,
                uid: 0,
                gid: 0,
            },
        ),
{
    let mut procs: BTreeMap<Pid, ProcessDesc> = BTreeMap::new();
    procs.insert(
        1,
        ProcessDesc {
            pid: 1,
            ppid: 0,
            pgid: 1,
            sid: 1,
            state: ProcessState::Running,
            exit_code: 0,
            uid: 0,
            gid: 0,
        },
    );
    ProcessTable { procs, next_pid: 2 }
}

/// One allocation of a PID taking the table from `a` to `b`: `pid` is the next PID of
/// `a`, the next one after it counts up by one, and the processes stay.
pub open spec fn alloc_step(a: ProcessTable, b: ProcessTable, pid: Pid) -> bool {
    &&& pid == a.next_pid()
    &&& b.next_pid() == a.next_pid() + 1
    &&& b.procs() == a.procs()
}

/// Allocate a new PID.
pub fn alloc_pid(table: &mut ProcessTable) -> (pid: Pid)
    requires
        old(table).next_pid() < u64::MAX,
    ensures
        pid == old(table).next_pid(),
        final(table).next_pid() == old(table).next_pid() + 1,
        final(table).procs() == old(table).procs(),
        alloc_step(*old(table), *final(table), pid),
        old(table).wf() ==> final(table).wf(),
{
    let pid = table.next_pid;
    table.next_pid = table.next_pid + 1;
    pid
}

/// Register a new process in the table, replacing any entry with the same PID.
pub fn register(table: &mut ProcessTable, desc: ProcessDesc)
    requires
        old(table).wf(),
    ensures
        final(table).wf(),
        final(table).procs() == old(table).procs().insert(desc.pid, desc),
        final(table).next_pid() == old(table).next_pid(),
{
    table.procs.insert(desc.pid, desc);
}

/// Get the process count.
pub fn count(table: &ProcessTable) -> (n: usize)
    ensures
        n == table.procs().len(),
{
    table.procs.len()
}

/// Mark a process as zombie with the given exit code; nothing happens for an unknown
/// PID.
pub fn set_zombie(table: &mut ProcessTable, pid: Pid, exit_code: i32)
    requires
        old(table).wf(),
    ensures
        final(table).wf(),
        final(table).next_pid() == old(table).next_pid(),
        old(table).procs().contains_key(pid) ==> final(table).procs() == old(table).procs().insert(
            pid,
            ProcessDesc { state: ProcessState::Zombie, exit_code, ..old(table).procs()[pid] },
        ),
        !old(table).procs().contains_key(pid) ==> final(table).procs() == old(table).procs(),
{
    match table.procs.get(&pid) {
        Some(p) => {
            let d = ProcessDesc { state: ProcessState::Zombie, exit_code, ..*p };
            table.procs.insert(pid, d);
        },
        None => {},
    }
}

/// Remove a zombie process (reap), giving its exit code; a process that is not a
/// zombie, or an unknown PID, is left alone and gives `None`.
pub fn reap(table: &mut ProcessTable, pid: Pid) -> (r: Option<i32>)
    requires
        old(table).wf(),
    ensures
        final(table).wf(),
        final(table).next_pid() == old(table).next_pid(),
        old(table).procs().contains_key(pid) && old(table).procs()[pid].state
            == ProcessState::Zombie ==> r == Some(old(table).procs()[pid].exit_code)
            && final(table).procs() == old(table).procs().remove(pid),
        !(old(table).procs().contains_key(pid) && old(table).procs()[pid].state
            == ProcessState::Zombie) ==> r is None && final(table).procs() == old(table).procs(),
        // the table is finite, and a reap leaves one process fewer
        old(table).procs().dom().finite(),
        r is Some ==> final(table).procs().len() + 1 == old(table).procs().len(),
{
    let exit_code = match table.procs.get(&pid) {
        Some(p) => {
            if p.state != ProcessState::Zombie {
                return None;
            }
            p.exit_code
        },
        None => return None,
    };
    table.procs.remove(&pid);
    Some(exit_code)
}

/// Reparent all children of `parent_pid` to init (PID 1).
pub fn reparent_children(table: &mut ProcessTable, parent_pid: Pid)
    requires
        old(table).wf(),
    ensures
        final(table).wf(),
        final(table).next_pid() == old(table).next_pid(),
        final(table).procs().dom() == old(table).procs().dom(),
        forall|p: Pid| #[trigger] final(table).procs().contains_key(p) ==> final(table).procs()[p]
            == reparented(old(table).procs()[p], parent_pid),
{
    let ghost old_procs = table.procs@;
    let mut children: Vec<Pid> = Vec::new();
    for (k, v) in it: table.procs.iter()
        invariant
            table.procs@ == old_procs,
            forall|p: Pid| old_procs.contains_key(p) ==> old_procs[p].pid == p,
            forall|i: int| 0 <= i < it.index() ==> (old_procs[*#[trigger] it.seq()[i].0].ppid == parent_pid
                && old_procs[*it.seq()[i].0].pid != 1 ==> children@.contains(*it.seq()[i].0)),
            forall|i: int| 0 <= i < it.index() ==> old_procs.contains_key(*it.seq()[i].0)
                && old_procs[*it.seq()[i].0] == *it.seq()[i].1,
            forall|j: int| 0 <= j < children@.len() ==> #[trigger] old_procs.contains_key(children@[j])
                && old_procs[children@[j]].ppid == parent_pid && old_procs[children@[j]].pid != 1,
    {
        if v.ppid == parent_pid && v.pid != 1 {
            let ghost prev = children@;
            children.push(v.pid);
            proof {
                assert(children@[prev.len() as int] == v.pid);
                assert forall|x: Pid| prev.contains(x) implies children@.contains(x) by {
                    let j = choose|j: int| 0 <= j < prev.len() && prev[j] == x;
                    assert(children@[j] == x);
                }
            }
        }
    }
    let mut i: usize = 0;
    while i < children.len()
        invariant
            i <= children@.len(),
            table.next_pid == old(table).next_pid,
            forall|p: Pid| old_procs.contains_key(p) ==> old_procs[p].pid == p,
            table.procs@.dom() == old_procs.dom(),
            forall|j: int| 0 <= j < children@.len() ==> #[trigger] old_procs.contains_key(children@[j])
                && old_procs[children@[j]].ppid == parent_pid && old_procs[children@[j]].pid != 1,
            forall|p: Pid| #[trigger] old_procs.contains_key(p) ==> (
                table.procs@[p] == old_procs[p] || table.procs@[p] == reparented(old_procs[p], parent_pid)),
            forall|j: int| 0 <= j < i ==> #[trigger] table.procs@[children@[j]] == reparented(
                old_procs[children@[j]], parent_pid),
            forall|p: Pid| #[trigger] old_procs.contains_key(p) && !children@.contains(p) ==> table.procs@[p] == old_procs[p],
        decreases children@.len() - i,
    {
        let c = children[i];
        match table.procs.get(&c) {
            Some(d) => {
                let nd = ProcessDesc { ppid: 1, ..*d };
                table.procs.insert(c, nd);
            },
            None => {},
        }
        i += 1;
    }
    proof {
        assert forall|p: Pid| #[trigger] table.procs@.contains_key(p) implies table.procs@[p]
            == reparented(old_procs[p], parent_pid) by {
            if children@.contains(p) {
                let j = choose|j: int| 0 <= j < children@.len() && children@[j] == p;
            }
        }
    }
}

/// Find a zombie child of the given parent. With `target_pid == u64::MAX`, the zombie
/// child with the lowest PID is returned; otherwise `target_pid` itself, if it is a
/// zombie child of the parent.
proof fn lemma_first_zombie(m: &BTreeMap<Pid, ProcessDesc>, parent_pid: Pid, s: Seq<(&Pid, &ProcessDesc)>, idx: int)
    requires
        forall|k: Pid| #[trigger] m@.contains_key(k) ==> s.contains((&k, &m@[k])),
        forall|i: int, j: int| 0 <= i < j < s.len() ==> *s[i].0 < *s[j].0,
        0 <= idx < s.len(),
        forall|i: int| 0 <= i < idx ==> !is_zombie_child(*#[trigger] s[i].1, parent_pid),
    ensures
        forall|p: Pid| #[trigger] m@.contains_key(p) && p < *s[idx].0 ==> !is_zombie_child(m@[p], parent_pid),
{
    assert forall|p: Pid| #[trigger] m@.contains_key(p) && p < *s[idx].0 implies !is_zombie_child(m@[p], parent_pid) by {
        assert(s.contains((&p, &m@[p])));
        let i = choose|i: int| 0 <= i < s.len() && s[i] == (&p, &m@[p]);
        assert(*s[i].1 == m@[p]);
        assert(*s[i].0 == p);
        if i > idx {
            assert(*s[idx].0 < *s[i].0);
        }
    }
}

/// PIDs are keys with a lawful order.
proof fn lemma_pid_keys_ordered()
    ensures
        vstd::std_specs::btree::key_obeys_cmp_spec::<u64>(),
{
    assert(vstd::laws_cmp::obeys_cmp::<u64>());
}

/// The entries of a process-table iteration come in increasing PID order.
proof fn lemma_iter_keys_increasing(s: Seq<(&Pid, &ProcessDesc)>)
    requires
        vstd::std_specs::btree::key_obeys_cmp_spec::<u64>() ==> vstd::std_specs::btree::increasing_seq(
            s.map_values(|kv: (&Pid, &ProcessDesc)| *kv.0),
        ),
    ensures
        forall|i: int, j: int| 0 <= i < j < s.len() ==> *s[i].0 < *s[j].0,
{
    lemma_pid_keys_ordered();
    let ks = s.map_values(|kv: (&Pid, &ProcessDesc)| *kv.0);
    assert forall|i: int, j: int| 0 <= i < j < s.len() implies *s[i].0 < *s[j].0 by {
        assert(ks[i].cmp_spec(&ks[j]) is Less);
    }
}

fn first_zombie_child(m: &BTreeMap<Pid, ProcessDesc>, parent_pid: Pid) -> (r: Option<(Pid, i32)>)
    ensures
        r is None ==> forall|p: Pid| #[trigger] m@.contains_key(p) ==> !is_zombie_child(m@[p], parent_pid),
        r matches Some((pid, code)) ==> {
            &&& m@.contains_key(pid)
            &&& is_zombie_child(m@[pid], parent_pid)
            &&& code == m@[pid].exit_code
            &&& forall|p: Pid| #[trigger] m@.contains_key(p) && p < pid ==> !is_zombie_child(m@[p], parent_pid)
        },
{
    let iter = m.iter();
    let ghost s0 = iter.remaining();
    proof {
        lemma_iter_keys_increasing(s0);
    }
    for (k, v) in it: iter
        invariant
            it.seq() == s0,
            s0 == spec_btree_map_iter(m).remaining(),
            forall|i: int, j: int| 0 <= i < j < s0.len() ==> *s0[i].0 < *s0[j].0,
            forall|i: int| 0 <= i < it.index() ==> !is_zombie_child(*#[trigger] s0[i].1, parent_pid),
    {
        if v.ppid == parent_pid && v.state == ProcessState::Zombie {
            proof { lemma_first_zombie(m, parent_pid, s0, it.index() as int); }
            return Some((*k, v.exit_code));
        }
    }
    proof {
        assert forall|p: Pid| #[trigger] m@.contains_key(p) implies !is_zombie_child(m@[p], parent_pid) by {
            assert(s0.contains((&p, &m@[p])));
            let i = choose|i: int| 0 <= i < s0.len() && s0[i] == (&p, &m@[p]);
            assert(*s0[i].1 == m@[p]);
        }
    }
    None
}

pub fn find_zombie_child(table: &ProcessTable, parent_pid: Pid, target_pid: u64) -> (r: Option<(Pid, i32)>)
    requires
        table.wf(),
    ensures
        target_pid == u64::MAX ==> match r {
            Some((pid, code)) => {
                &&& table.procs().contains_key(pid)
                &&& is_zombie_child(table.procs()[pid], parent_pid)
                &&& code == table.procs()[pid].exit_code
                &&& forall|p: Pid| #[trigger] table.procs().contains_key(p) && p < pid ==> !is_zombie_child(
                    table.procs()[p],
                    parent_pid,
                )
            },
            None => forall|p: Pid| #[trigger] table.procs().contains_key(p) ==> !is_zombie_child(
                table.procs()[p],
                parent_pid,
            ),
        },
        target_pid != u64::MAX ==> r == (if table.procs().contains_key(target_pid) && is_zombie_child(
            table.procs()[target_pid],
            parent_pid,
        ) {
            Some((target_pid, table.procs()[target_pid].exit_code))
        } else {
            None
        }),
{
    if target_pid == u64::MAX {
        first_zombie_child(&table.procs, parent_pid)
    } else {
        match table.procs.get(&target_pid) {
            Some(p) => {
                if p.ppid == parent_pid && p.state == ProcessState::Zombie {
                    Some((p.pid, p.exit_code))
                } else {
                    None
                }
            },
            None => None,
        }
    }
}

/// Check if a given PID has any children.
pub fn has_children(table: &ProcessTable, parent_pid: Pid) -> (r: bool)
    ensures
        r == exists|p: Pid| #[trigger] table.procs().contains_key(p) && table.procs()[p].ppid == parent_pid,
{
    let iter = table.procs.iter();
    let ghost s0 = iter.remaining();
    for (k, v) in it: iter
        invariant
            it.seq() == s0,
            s0 == spec_btree_map_iter(&table.procs).remaining(),
            forall|i: int| 0 <= i < it.index() ==> (*#[trigger] s0[i].1).ppid != parent_pid,
    {
        if v.ppid == parent_pid {
            proof {
                assert(table.procs@.contains_key(*k) && table.procs@[*k] == *v);
            }
            return true;
        }
    }
    proof {
        assert forall|p: Pid| #[trigger] table.procs@.contains_key(p) implies table.procs@[p].ppid != parent_pid by {
            assert(s0.contains((&p, &table.procs@[p])));
            let i = choose|i: int| 0 <= i < s0.len() && s0[i] == (&p, &table.procs@[p]);
            assert(*s0[i].1 == table.procs@[p]);
        }
    }
    false
}

/// Get the parent PID of a process.
pub fn get_ppid(table: &ProcessTable, pid: Pid) -> (r: Option<Pid>)
    ensures
        r == (if table.procs().contains_key(pid) {
            Some(table.procs()[pid].ppid)
        } else {
            None
        }),
{
    match table.procs.get(&pid) {
        Some(p) => Some(p.ppid),
        None => None,
    }
}

/// List all processes as (PID, parent PID, state), in increasing PID order.
pub fn list(table: &ProcessTable) -> (r: Vec<(Pid, Pid, ProcessState)>)
    requires
        table.wf(),
    ensures
        r@.len() == table.procs().len(),
        forall|i: int| 0 <= i < r@.len() ==> table.procs().contains_key(#[trigger] r@[i].0) && r@[i] == (
            r@[i].0,
            table.procs()[r@[i].0].ppid,
            table.procs()[r@[i].0].state,
        ),
        forall|i: int, j: int| 0 <= i < j < r@.len() ==> r@[i].0 < r@[j].0,
{
    let iter = table.procs.iter();
    let ghost s0 = iter.remaining();
    proof {
        lemma_iter_keys_increasing(s0);
    }
    let mut out: Vec<(Pid, Pid, ProcessState)> = Vec::new();
    let ghost mut n: int = 0;
    for (k, v) in it: iter
        invariant
            it.seq() == s0,
            n == it.index(),
            s0 == spec_btree_map_iter(&table.procs).remaining(),
            s0.len() == table.procs@.len(),
            forall|i: int, j: int| 0 <= i < j < s0.len() ==> *s0[i].0 < *s0[j].0,
            out@.len() == n,
            forall|i: int| 0 <= i < n ==> #[trigger] out@[i] == (*s0[i].0, (*s0[i].1).ppid, (*s0[i].1).state),
    {
        out.push((*k, v.ppid, v.state));
        proof {
            n = n + 1;
        }
    }
    proof {
        assert(n == s0.len());
        assert forall|i: int| 0 <= i < out@.len() implies table.procs@.contains_key(#[trigger] out@[i].0) && out@[i] == (
            out@[i].0,
            table.procs@[out@[i].0].ppid,
            table.procs@[out@[i].0].state,
        ) by {
            assert(table.procs@.contains_key(*s0[i].0) && table.procs@[*s0[i].0] == *s0[i].1);
        }
        assert forall|i: int, j: int| 0 <= i < j < out@.len() implies out@[i].0 < out@[j].0 by {
            assert(out@[i].0 == *s0[i].0);
            assert(out@[j].0 == *s0[j].0);
        }
    }
    out
}

/// A process marked as a zombie with an exit code is reaped with that exit code, and
/// reaping leaves the table as it was without that process.
/// PIDs count up from 2: after `init`, the `k`-th allocation (from 0) gives `k + 2`,
/// so no PID is handed out twice, and the processes in the table stay those it had.
pub proof fn law_alloc_pid_sequence(tables: Seq<ProcessTable>, pids: Seq<Pid>)
    requires
        tables.len() == pids.len() + 1,
        tables[0].next_pid() == 2,
        forall|i: int| 0 <= i < pids.len() ==> alloc_step(tables[i], tables[i + 1], #[trigger] pids[i]),
    ensures
        forall|i: int| 0 <= i < pids.len() ==> #[trigger] pids[i] == i + 2,
        forall|i: int, j: int| 0 <= i < j < pids.len() ==> #[trigger] pids[i] != #[trigger] pids[j],
        forall|i: int| 0 <= i < tables.len() ==> (#[trigger] tables[i]).procs() == tables[0].procs()
            && tables[i].next_pid() == i + 2,
    decreases pids.len(),
{
    if pids.len() > 0 {
        let n = pids.len() - 1;
        law_alloc_pid_sequence(tables.drop_last(), pids.drop_last());
        assert forall|i: int| 0 <= i < tables.len() implies (#[trigger] tables[i]).procs() == tables[0].procs()
            && tables[i].next_pid() == i + 2 by {
            if i < tables.len() - 1 {
                assert(tables.drop_last()[i] == tables[i]);
            } else {
                assert(tables.drop_last()[n] == tables[n]);
                assert(alloc_step(tables[n], tables[n + 1], pids[n]));
            }
        }
        assert forall|i: int| 0 <= i < pids.len() implies #[trigger] pids[i] == i + 2 by {
            assert(alloc_step(tables[i], tables[i + 1], pids[i]));
        }
    }
}

pub proof fn lemma_zombie_then_reap(procs: Map<Pid, ProcessDesc>, pid: Pid, exit_code: i32)
    requires
        procs.contains_key(pid),
    ensures
        ({
            let z = procs.insert(
                pid,
                ProcessDesc { state: ProcessState::Zombie, exit_code, ..procs[pid] },
            );
            &&& z.contains_key(pid)
            &&& z[pid].state == ProcessState::Zombie
            &&& z[pid].exit_code == exit_code
            &&& z.remove(pid) == procs.remove(pid)
        }),
{
    let z = procs.insert(pid, ProcessDesc { state: ProcessState::Zombie, exit_code, ..procs[pid] });
    assert(z.remove(pid) =~= procs.remove(pid));
}

/// After reparenting, no process other than PID 1 has the departed parent as parent,
/// and reparenting twice changes nothing more.
pub proof fn lemma_reparent_no_orphans(d: ProcessDesc, parent_pid: Pid)
    ensures
        reparented(d, parent_pid).pid != 1 ==> (parent_pid != 1 ==> reparented(d, parent_pid).ppid != parent_pid),
        reparented(reparented(d, parent_pid), parent_pid) == reparented(d, parent_pid),
{
}

} // verus!
