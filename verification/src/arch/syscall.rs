//! SYSCALL/SYSRET setup values and signal delivery on the system call exit path.
use vstd::prelude::*;
use crate::arch::gdt::KERNEL_CS;
use crate::process::signal::{
    signal_number, signal_of, with_signal_state, SigHandler, Signal, SignalState, SignalStore,
};

verus! {

pub const IA32_STAR: u32 = 0xC000_0081;
pub const IA32_LSTAR: u32 = 0xC000_0082;
pub const IA32_SFMASK: u32 = 0xC000_0084;
pub const IA32_EFER: u32 = 0xC000_0080;

/// System call enable bit of EFER.
pub const EFER_SCE: u64 = 1;
/// RFLAGS bits cleared on entry: IF, TF and DF.
pub const SFMASK: u64 = 0x700;

/// STAR value: kernel CS for SYSCALL in bits 47..32, SYSRET base 0x10 in bits 63..48.
pub open spec fn star_value(kernel_cs: u16) -> u64 {
    (0x10u64 << 48u64) | (((kernel_cs & !3u16) as u64) << 32u64)
}

/// The model-specific register writes that enable SYSCALL, in order, given the
/// current EFER value and the address of the entry point.
pub fn syscall_msr_writes(efer: u64, entry: u64) -> (r: Vec<(u32, u64)>)
    ensures
        r@ == seq![
            (IA32_EFER, efer | EFER_SCE),
            (IA32_STAR, star_value(KERNEL_CS)),
            (IA32_LSTAR, entry),
            (IA32_SFMASK, SFMASK),
        ],
{
    let kernel_cs = (KERNEL_CS & !3) as u64;
    let star = (0x10u64 << 48) | (kernel_cs << 32);
    let mut r: Vec<(u32, u64)> = Vec::new();
    r.push((IA32_EFER, efer | EFER_SCE));
    r.push((IA32_STAR, star));
    r.push((IA32_LSTAR, entry));
    r.push((IA32_SFMASK, SFMASK));
    r
}

/// Words saved on the kernel stack by the entry stub: r15, r14, r13, r12, rbx, rbp,
/// user rsp, user rflags, user rip.
pub const SAVED_WORDS: usize = 9;
pub const SAVED_RSP: usize = 6;
pub const SAVED_RFLAGS: usize = 7;
pub const SAVED_RIP: usize = 8;

/// Size of a signal frame on the user stack.
pub const SIGNAL_FRAME_SIZE: u64 = 56;

/// The sigreturn trampoline: `mov rax, 15; syscall`, padded with `nop` to 16 bytes.
pub open spec fn trampoline_spec() -> Seq<u8> {
    seq![0x48u8, 0xC7, 0xC0, 15, 0, 0, 0, 0x0F, 0x05, 0x90, 0x90, 0x90, 0x90, 0x90, 0x90, 0x90]
}

pub fn sigreturn_trampoline() -> (t: Vec<u8>)
    ensures
        t@ == trampoline_spec(),
{
    let mut t: Vec<u8> = Vec::new();
    t.push(0x48);
    t.push(0xC7);
    t.push(0xC0);
    t.push(15);
    t.push(0);
    t.push(0);
    t.push(0);
    t.push(0x0F);
    t.push(0x05);
    while t.len() < 16
        invariant
            9 <= t@.len() <= 16,
            forall|i: int| 0 <= i < t@.len() ==> t@[i] == trampoline_spec()[i],
        decreases 16 - t@.len(),
    {
        t.push(0x90);
    }
    assert(t@ =~= trampoline_spec());
    t
}

/// Signal frame written on the user stack before a handler runs; the handler
/// returns into the trampoline, whose sigreturn restores this context.
pub struct SignalFrame {
    pub trampoline: Vec<u8>,
    pub signo: u64,
    pub saved_rip: u64,
    pub saved_rsp: u64,
    pub saved_rflags: u64,
    pub saved_rax: u64,
}

/// Where the frame goes: `SIGNAL_FRAME_SIZE` below the user stack pointer, rounded
/// down to 16 bytes (with the machine's wrap-around).
pub open spec fn frame_addr_for(user_rsp: u64) -> u64 {
    let x = user_rsp.wrapping_sub(SIGNAL_FRAME_SIZE);
    (x - x % 16) as u64
}

/// Memory writes that deliver a signal: the frame at `frame_addr`, and the
/// trampoline address (`frame_addr`) in the word at `return_slot`.
pub struct SignalDelivery {
    pub frame: SignalFrame,
    pub frame_addr: u64,
    pub return_slot: u64,
}

/// The handler of `sig` in a handler table; `Default` past its end.
pub open spec fn handler_of(handlers: Seq<SigHandler>, sig: Signal) -> SigHandler {
    let i = signal_number(sig) as int;
    if i < handlers.len() {
        handlers[i]
    } else {
        SigHandler::Default
    }
}

/// Lowest pending unblocked signal number of a state, if any.
pub open spec fn next_bit(st: SignalState) -> Option<u32> {
    let d = st.pending & !st.blocked;
    if d == 0 {
        None
    } else {
        Some(d.trailing_zeros())
    }
}

/// What delivery the lowest pending unblocked signal asks for: a handler address,
/// or nothing (ignored, default action, or a bit that names no signal).
pub open spec fn delivery_spec(st: SignalState) -> Option<(Signal, u64)> {
    match next_bit(st) {
        None => None,
        Some(bit) => match signal_of(bit as u8) {
            None => None,
            Some(s) => match handler_of(st.handlers@, s) {
                SigHandler::Handler(a) => Some((s, a)),
                _ => None,
            },
        },
    }
}

/// The state after the lowest pending unblocked signal is taken off.
pub open spec fn after_take(old_st: SignalState, new_st: SignalState) -> bool {
    &&& new_st.blocked == old_st.blocked
    &&& new_st.handlers@ == old_st.handlers@
    &&& match next_bit(old_st) {
        None => new_st.pending == old_st.pending,
        Some(bit) => bit < 64 && new_st.pending == old_st.pending & !(1u64 << bit),
    }
}

/// Take the lowest pending unblocked signal off `st` and say whether a user
/// handler is to run for it.
pub fn take_deliverable(st: &mut SignalState) -> (r: Option<(Signal, u64)>)
    ensures
        after_take(*old(st), *final(st)),
        r == delivery_spec(*old(st)),
{
    let got = st.dequeue();
    match got {
        None => None,
        Some(sig) => {
            let idx = sig.number() as usize;
            let h = if idx < st.handlers.len() {
                st.handlers[idx]
            } else {
                SigHandler::Default
            };
            match h {
                SigHandler::Handler(addr) => Some((sig, addr)),
                _ => None,
            }
        },
    }
}

/// Signal check on the system call exit path of process `pid`. `ctx` holds the
/// saved registers. When the lowest pending unblocked signal has a user handler,
/// the saved user rip becomes the handler, the saved user rsp points at the return
/// slot below the frame, and the memory writes are returned; the system call's
/// return value is handed back in every case.
pub fn check_pending_signals(
    store: &mut SignalStore,
    pid: u64,
    ctx: &mut Vec<u64>,
    syscall_ret: i64,
) -> (r: (i64, Option<SignalDelivery>))
    requires
        old(ctx)@.len() == SAVED_WORDS,
    ensures
        r.0 == syscall_ret,
        final(store).pids() == old(store).pids(),
        forall|p: u64| p != pid && old(store).pids().contains(p) ==> #[trigger] final(store).state(p) == old(store).state(p),
        !old(store).pids().contains(pid) ==> r.1 is None && *final(ctx) == *old(ctx),
        old(store).pids().contains(pid) ==> after_take(old(store).state(pid), final(store).state(pid)),
        old(store).pids().contains(pid) ==> match delivery_spec(old(store).state(pid)) {
            None => r.1 is None && final(ctx)@ == old(ctx)@,
            Some((sig, handler)) => {
                let rsp = old(ctx)@[SAVED_RSP as int];
                let fa = frame_addr_for(rsp);
                &&& r.1 matches Some(d)
                &&& d.frame_addr == fa
                &&& d.return_slot == fa.wrapping_sub(8)
                &&& d.frame.trampoline@ == trampoline_spec()
                &&& d.frame.signo == signal_number(sig) as u64
                &&& d.frame.saved_rip == old(ctx)@[SAVED_RIP as int]
                &&& d.frame.saved_rsp == rsp
                &&& d.frame.saved_rflags == old(ctx)@[SAVED_RFLAGS as int]
                &&& d.frame.saved_rax == syscall_ret as u64
                &&& final(ctx)@ == old(ctx)@.update(SAVED_RIP as int, handler).update(
                    SAVED_RSP as int,
                    fa.wrapping_sub(8),
                )
            },
        },
{
    let f = |st: SignalState| -> (res: (SignalState, Option<(Signal, u64)>))
        ensures
            after_take(st, res.0),
            res.1 == delivery_spec(st),
        {
            let mut s = st;
            let d = take_deliverable(&mut s);
            (s, d)
        };
    let found = with_signal_state(store, pid, f);
    let (sig, handler) = match found {
        Some(Some(x)) => x,
        _ => {
            return (syscall_ret, None);
        },
    };
    let user_rsp = ctx[SAVED_RSP];
    let user_rflags = ctx[SAVED_RFLAGS];
    let user_rip = ctx[SAVED_RIP];
    let below = user_rsp.wrapping_sub(SIGNAL_FRAME_SIZE);
    let frame_addr = below - below % 16;
    let frame = SignalFrame {
        trampoline: sigreturn_trampoline(),
        signo: sig.number() as u64,
        saved_rip: user_rip,
        saved_rsp: user_rsp,
        saved_rflags: user_rflags,
        saved_rax: syscall_ret as u64,
    };
    let return_slot = frame_addr.wrapping_sub(8);
    ctx.set(SAVED_RIP, handler);
    ctx.set(SAVED_RSP, return_slot);
    (syscall_ret, Some(SignalDelivery { frame, frame_addr, return_slot }))
}

} // verus!
