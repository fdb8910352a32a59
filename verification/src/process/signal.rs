use vstd::prelude::*;
use std::collections::BTreeMap;

verus! {

broadcast use vstd::std_specs::btree::group_btree_axioms;

/// POSIX signals.
#[allow(non_camel_case_types)]
#[allow(clippy::upper_case_acronyms)]
#[derive(Debug, Clone, Copy, PartialEq, Eq, Structural)]
pub enum Signal {
    SIGHUP,
    SIGINT,
    SIGQUIT,
    SIGILL,
    SIGTRAP,
    SIGABRT,
    SIGBUS,
    SIGFPE,
    SIGKILL,
    SIGUSR1,
    SIGSEGV,
    SIGUSR2,
    SIGPIPE,
    SIGALRM,
    SIGTERM,
    SIGCHLD,
    SIGCONT,
    SIGSTOP,
    SIGTSTP,
}

/// The POSIX number of a signal.
pub open spec fn signal_number(s: Signal) -> u8 {
    match s {
        Signal::SIGHUP => 1,
        Signal::SIGINT => 2,
        Signal::SIGQUIT => 3,
        Signal::SIGILL => 4,
        Signal::SIGTRAP => 5,
        Signal::SIGABRT => 6,
        Signal::SIGBUS => 7,
        Signal::SIGFPE => 8,
        Signal::SIGKILL => 9,
        Signal::SIGUSR1 => 10,
        Signal::SIGSEGV => 11,
        Signal::SIGUSR2 => 12,
        Signal::SIGPIPE => 13,
        Signal::SIGALRM => 14,
        Signal::SIGTERM => 15,
        Signal::SIGCHLD => 17,
        Signal::SIGCONT => 18,
        Signal::SIGSTOP => 19,
        Signal::SIGTSTP => 20,
    }
}

/// The signal with a given number, if there is one.
pub open spec fn signal_of(n: u8) -> Option<Signal> {
    if n == 1 { Some(Signal::SIGHUP) }
    else if n == 2 { Some(Signal::SIGINT) }
    else if n == 3 { Some(Signal::SIGQUIT) }
    else if n == 4 { Some(Signal::SIGILL) }
    else if n == 5 { Some(Signal::SIGTRAP) }
    else if n == 6 { Some(Signal::SIGABRT) }
    else if n == 7 { Some(Signal::SIGBUS) }
    else if n == 8 { Some(Signal::SIGFPE) }
    else if n == 9 { Some(Signal::SIGKILL) }
    else if n == 10 { Some(Signal::SIGUSR1) }
    else if n == 11 { Some(Signal::SIGSEGV) }
    else if n == 12 { Some(Signal::SIGUSR2) }
    else if n == 13 { Some(Signal::SIGPIPE) }
    else if n == 14 { Some(Signal::SIGALRM) }
    else if n == 15 { Some(Signal::SIGTERM) }
    else if n == 17 { Some(Signal::SIGCHLD) }
    else if n == 18 { Some(Signal::SIGCONT) }
    else if n == 19 { Some(Signal::SIGSTOP) }
    else if n == 20 { Some(Signal::SIGTSTP) }
    else { None }
}

/// What to do when a signal is received.
#[derive(Debug, Clone, Copy, PartialEq, Eq, Structural)]
pub enum SignalAction {
    Terminate,
    Ignore,
    Stop,
    Continue,
}

/// The default action of a signal.
pub open spec fn default_action_spec(s: Signal) -> SignalAction {
    match s {
        Signal::SIGCHLD => SignalAction::Ignore,
        Signal::SIGCONT => SignalAction::Continue,
        Signal::SIGSTOP | Signal::SIGTSTP => SignalAction::Stop,
        _ => SignalAction::Terminate,
    }
}

/// Default actions: a process stops on SIGSTOP and SIGTSTP, continues on SIGCONT,
/// ignores SIGCHLD, and is terminated by every other signal.
pub proof fn law_default_actions(s: Signal)
    ensures
        (default_action_spec(s) == SignalAction::Stop) <==> (s == Signal::SIGSTOP || s == Signal::SIGTSTP),
        (default_action_spec(s) == SignalAction::Continue) <==> s == Signal::SIGCONT,
        (default_action_spec(s) == SignalAction::Ignore) <==> s == Signal::SIGCHLD,
        (default_action_spec(s) == SignalAction::Terminate) <==> !(s == Signal::SIGSTOP || s == Signal::SIGTSTP
            || s == Signal::SIGCONT || s == Signal::SIGCHLD),
{
}

impl Signal {
    /// The signal with number `n`, if any.
    pub fn from_number(n: u8) -> (r: Option<Self>)
        ensures
            r == signal_of(n),
    {
        match n {
            1 => Some(Signal::SIGHUP),
            2 => Some(Signal::SIGINT),
            3 => Some(Signal::SIGQUIT),
            4 => Some(Signal::SIGILL),
            5 => Some(Signal::SIGTRAP),
            6 => Some(Signal::SIGABRT),
            7 => Some(Signal::SIGBUS),
            8 => Some(Signal::SIGFPE),
            9 => Some(Signal::SIGKILL),
            10 => Some(Signal::SIGUSR1),
            11 => Some(Signal::SIGSEGV),
            12 => Some(Signal::SIGUSR2),
            13 => Some(Signal::SIGPIPE),
            14 => Some(Signal::SIGALRM),
            15 => Some(Signal::SIGTERM),
            17 => Some(Signal::SIGCHLD),
            18 => Some(Signal::SIGCONT),
            19 => Some(Signal::SIGSTOP),
            20 => Some(Signal::SIGTSTP),
            _ => None,
        }
    }

    /// The POSIX number of this signal.
    pub fn number(self) -> (r: u8)
        ensures
            r == signal_number(self),
    {
        match self {
            Signal::SIGHUP => 1,
            Signal::SIGINT => 2,
            Signal::SIGQUIT => 3,
            Signal::SIGILL => 4,
            Signal::SIGTRAP => 5,
            Signal::SIGABRT => 6,
            Signal::SIGBUS => 7,
            Signal::SIGFPE => 8,
            Signal::SIGKILL => 9,
            Signal::SIGUSR1 => 10,
            Signal::SIGSEGV => 11,
            Signal::SIGUSR2 => 12,
            Signal::SIGPIPE => 13,
            Signal::SIGALRM => 14,
            Signal::SIGTERM => 15,
            Signal::SIGCHLD => 17,
            Signal::SIGCONT => 18,
            Signal::SIGSTOP => 19,
            Signal::SIGTSTP => 20,
        }
    }

    /// Default action for this signal.
    pub fn default_action(self) -> (r: SignalAction)
        ensures
            r == default_action_spec(self),
    {
        match self {
            Signal::SIGHUP | Signal::SIGINT | Signal::SIGQUIT | Signal::SIGILL | Signal::SIGABRT
            | Signal::SIGBUS | Signal::SIGFPE | Signal::SIGKILL | Signal::SIGSEGV | Signal::SIGPIPE
            | Signal::SIGALRM | Signal::SIGTERM | Signal::SIGUSR1 | Signal::SIGUSR2 => SignalAction::Terminate,
            Signal::SIGCHLD => SignalAction::Ignore,
            Signal::SIGCONT => SignalAction::Continue,
            Signal::SIGSTOP | Signal::SIGTSTP => SignalAction::Stop,
            Signal::SIGTRAP => SignalAction::Terminate,
        }
    }
}

/// A signal's number names it back, and every number that names a signal is that
/// signal's number.
pub proof fn lemma_signal_number_roundtrip(s: Signal, n: u8)
    ensures
        signal_of(signal_number(s)) == Some(s),
        1 <= signal_number(s) <= 20,
        signal_of(n) matches Some(t) ==> signal_number(t) == n,
{
}

/// A signal sent to a process that has nothing else deliverable, and that it does
/// not block, is the one the next dequeue takes; after that nothing is deliverable.
/// Stated over the pending and blocked masks as `send` and `dequeue` change them.
pub proof fn law_send_then_dequeue(pending: u64, blocked: u64, sig: Signal)
    requires
        pending & !blocked == 0,
        blocked & (1u64 << signal_number(sig)) == 0,
    ensures
        ({
            let p2 = pending | (1u64 << signal_number(sig));
            let d = p2 & !blocked;
            &&& d != 0
            &&& d.trailing_zeros() == signal_number(sig)
            &&& signal_of(d.trailing_zeros() as u8) == Some(sig)
            &&& (p2 & !(1u64 << d.trailing_zeros())) & !blocked == 0
        }),
{
    lemma_signal_number_roundtrip(sig, 0);
    let n = signal_number(sig) as u64;
    let p2 = pending | (1u64 << n);
    let d = p2 & !blocked;
    assert(d == 1u64 << n && d != 0 && (p2 & !(1u64 << n)) & !blocked == 0) by (bit_vector)
        requires
            pending & !blocked == 0,
            blocked & (1u64 << n) == 0,
            n < 64,
            p2 == pending | (1u64 << n),
            d == p2 & !blocked,
    ;
    vstd::std_specs::bits::axiom_u64_trailing_zeros(d);
    let t = d.trailing_zeros() as u64;
    assert(t == n) by (bit_vector)
        requires
            d == 1u64 << n,
            n < 64,
            t < 64,
            (d >> t) & 1u64 == 1u64,
    ;
}

/// Signal handler type.
#[derive(Debug, Clone, Copy, PartialEq, Eq, Structural)]
pub enum SigHandler {
    /// Default action.
    Default,
    /// Ignore the signal.
    Ignore,
    /// User-space handler function address.
    Handler(u64),
}

/// Number of handler slots of a process.
pub const NUM_HANDLERS: usize = 32;

/// Per-process signal state.
pub struct SignalState {
    /// Bitmask of pending signals.
    pub pending: u64,
    /// Bitmask of blocked (masked) signals.
    pub blocked: u64,
    /// Handlers by signal number.
    pub handlers: Vec<SigHandler>,
}

impl SignalState {
    pub open spec fn wf(&self) -> bool {
        self.handlers@.len() == NUM_HANDLERS
    }

    pub fn new() -> (s: Self)
        ensures
            s.wf(),
            s.pending == 0,
            s.blocked == 0,
            forall|i: int| 0 <= i < NUM_HANDLERS ==> s.handlers@[i] == SigHandler::Default,
    {
        let mut handlers: Vec<SigHandler> = Vec::new();
        while handlers.len() < NUM_HANDLERS
            invariant
                handlers@.len() <= NUM_HANDLERS,
                forall|i: int| 0 <= i < handlers@.len() ==> handlers@[i] == SigHandler::Default,
            decreases NUM_HANDLERS - handlers@.len(),
        {
            handlers.push(SigHandler::Default);
        }
        SignalState { pending: 0, blocked: 0, handlers }
    }

    /// Set a handler for a signal; SIGKILL and SIGSTOP cannot be caught, so their
    /// handlers stay as they are.
    pub fn set_handler(&mut self, sig: Signal, handler: SigHandler)
        requires
            old(self).wf(),
        ensures
            final(self).wf(),
            final(self).pending == old(self).pending,
            final(self).blocked == old(self).blocked,
            final(self).handlers@ == (if sig == Signal::SIGKILL || sig == Signal::SIGSTOP {
                old(self).handlers@
            } else {
                old(self).handlers@.update(signal_number(sig) as int, handler)
            }),
    {
        let idx = sig.number() as usize;
        if idx < NUM_HANDLERS {
            if sig != Signal::SIGKILL && sig != Signal::SIGSTOP {
                self.handlers.set(idx, handler);
            }
        }
    }

    /// Get the handler for a signal.
    pub fn get_handler(&self, sig: Signal) -> (r: SigHandler)
        requires
            self.wf(),
        ensures
            r == self.handlers@[signal_number(sig) as int],
    {
        let idx = sig.number() as usize;
        if idx < NUM_HANDLERS {
            self.handlers[idx]
        } else {
            SigHandler::Default
        }
    }

    /// Queue a signal: set its bit in the pending mask.
    pub fn send(&mut self, sig: Signal)
        ensures
            final(self).pending == old(self).pending | (1u64 << signal_number(sig)),
            final(self).blocked == old(self).blocked,
            final(self).handlers@ == old(self).handlers@,
    {
        self.pending = self.pending | (1u64 << sig.number());
    }

    /// Check if any unblocked signal is pending.
    pub fn has_pending(&self) -> (r: bool)
        ensures
            r == (self.pending & !self.blocked != 0),
    {
        (self.pending & !self.blocked) != 0
    }

    /// Dequeue the pending unblocked signal with the lowest number: clear its bit and
    /// return the signal of that number (none if the bit names no signal).
    pub fn dequeue(&mut self) -> (r: Option<Signal>)
        ensures
            final(self).blocked == old(self).blocked,
            final(self).handlers@ == old(self).handlers@,
            ({
                let d = old(self).pending & !old(self).blocked;
                if d == 0 {
                    r is None && final(self).pending == old(self).pending
                } else {
                    let bit = d.trailing_zeros();
                    &&& bit < 64
                    &&& final(self).pending == old(self).pending & !(1u64 << bit)
                    &&& r == signal_of(bit as u8)
                }
            }),
    {
        let deliverable = self.pending & !self.blocked;
        if deliverable == 0 {
            return None;
        }
        let bit = deliverable.trailing_zeros();
        proof {
            vstd::std_specs::bits::axiom_u64_trailing_zeros(deliverable);
        }
        self.pending = self.pending & !(1u64 << bit);
        Signal::from_number(bit as u8)
    }
}

/// Signal states of all processes, by PID.
pub struct SignalStore {
    states: BTreeMap<u64, SignalState>,
}

impl SignalStore {
    /// PIDs that have a signal state.
    pub closed spec fn pids(&self) -> Set<u64> {
        self.states@.dom()
    }

    /// The signal state of a process.
    pub closed spec fn state(&self, pid: u64) -> SignalState {
        self.states@[pid]
    }
}

/// Create the signal state store, with a fresh state for PID 1.
pub fn init() -> (s: SignalStore)
    ensures
        s.pids() == Set::<u64>::empty().insert(1),
        s.state(1).pending == 0,
        s.state(1).blocked == 0,
{
    let mut states: BTreeMap<u64, SignalState> = BTreeMap::new();
    states.insert(1, SignalState::new());
    SignalStore { states }
}

/// Create a fresh signal state for a new process.
pub fn create_for_pid(store: &mut SignalStore, pid: u64)
    ensures
        final(store).pids() == old(store).pids().insert(pid),
        final(store).state(pid).pending == 0,
        final(store).state(pid).blocked == 0,
        final(store).state(pid).wf(),
        forall|p: u64| p != pid && old(store).pids().contains(p) ==> #[trigger] final(store).state(p) == old(store).state(p),
{
    store.states.insert(pid, SignalState::new());
}

/// Remove the signal state of an exited process.
pub fn remove_for_pid(store: &mut SignalStore, pid: u64)
    ensures
        final(store).pids() == old(store).pids().remove(pid),
        forall|p: u64| p != pid && old(store).pids().contains(p) ==> #[trigger] final(store).state(p) == old(store).state(p),
{
    store.states.remove(&pid);
}

/// Send a signal to a process; false when the process has no signal state.
pub fn send_signal(store: &mut SignalStore, pid: u64, sig: Signal) -> (r: bool)
    ensures
        r == old(store).pids().contains(pid),
        final(store).pids() == old(store).pids(),
        r ==> final(store).state(pid).pending == old(store).state(pid).pending | (1u64 << signal_number(sig))
            && final(store).state(pid).blocked == old(store).state(pid).blocked
            && final(store).state(pid).handlers@ == old(store).state(pid).handlers@,
        forall|p: u64| p != pid && old(store).pids().contains(p) ==> #[trigger] final(store).state(p) == old(store).state(p),
{
    match store.states.remove(&pid) {
        Some(mut st) => {
            st.send(sig);
            store.states.insert(pid, st);
            proof {
                assert(store.states@.dom() =~= old(store).states@.dom());
            }
            true
        },
        None => false,
    }
}

/// Run `f` on the signal state of `pid`: `f` is handed the state and gives it back
/// with its result. `None` when the process has no signal state.
pub fn with_signal_state<F, R>(store: &mut SignalStore, pid: u64, f: F) -> (r: Option<R>)
    where
        F: FnOnce(SignalState) -> (SignalState, R),
    requires
        forall|st: SignalState| f.requires((st,)),
    ensures
        r is Some <==> old(store).pids().contains(pid),
        final(store).pids() == old(store).pids(),
        r matches Some(v) ==> f.ensures((old(store).state(pid),), (final(store).state(pid), v)),
        forall|p: u64| p != pid && old(store).pids().contains(p) ==> #[trigger] final(store).state(p) == old(store).state(p),
{
    match store.states.remove(&pid) {
        Some(st) => {
            let (st2, v) = f(st);
            store.states.insert(pid, st2);
            proof {
                assert(store.states@.dom() =~= old(store).states@.dom());
            }
            Some(v)
        },
        None => None,
    }
}

} // verus!
