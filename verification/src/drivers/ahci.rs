//! AHCI SATA controller: finding the SATA port, building the command (FIS, command
//! header, PRDT entry) and deciding on completion; the MMIO accesses are the caller's.
use vstd::prelude::*;

verus! {

/// Signature of an ATA device.
pub const SATA_SIG_ATA: u32 = 0x0000_0101;

/// PCI class and subclass of an AHCI controller.
pub const AHCI_CLASS: u8 = 0x01;
pub const AHCI_SUBCLASS: u8 = 0x06;

/// FIS type of a host-to-device register FIS.
pub const FIS_TYPE_REG_H2D: u8 = 0x27;

/// ATA commands.
pub const ATA_CMD_READ_DMA_EXT: u8 = 0x25;
pub const ATA_CMD_WRITE_DMA_EXT: u8 = 0x35;
pub const ATA_CMD_IDENTIFY: u8 = 0xEC;

/// Size of a host-to-device register FIS.
pub const FIS_SIZE: u16 = 20;

/// Spins while waiting for a busy port, and for a command.
pub const BUSY_TIMEOUT_SPINS: u32 = 1_000_000;
pub const COMMAND_TIMEOUT_SPINS: u32 = 10_000_000;

/// The controller, once found: its port count and the ports implemented.
pub struct AhciState {
    pub port_count: u32,
    pub port_mask: u32,
}

/// How waiting for a command goes on.
#[derive(Debug, Clone, Copy, PartialEq, Eq, Structural)]
pub enum CommandStep {
    Done,
    Wait,
    TaskFileError,
    TimedOut,
}

/// A port with a device present and active, from its SATA status.
pub open spec fn link_up(ssts: u32) -> bool {
    ssts & 0xF == 3 && (ssts >> 8u32) & 0xF == 1
}

/// The physical base of the registers from BAR5, which must be a memory BAR.
pub fn hba_base_from_bar(bar5: u32) -> (r: Result<u64, &'static str>)
    ensures
        bar5 & 1 != 0 <==> r is Err,
        r matches Ok(b) ==> b == (bar5 & 0xFFFF_F000) as u64,
{
    if bar5 & 1 != 0 {
        return Err("AHCI: BAR5 is I/O space, expected MMIO");
    }
    Ok((bar5 & 0xFFFF_F000) as u64)
}

impl AhciState {
    /// The controller state from its capability and ports-implemented registers.
    pub fn new(cap: u32, pi: u32) -> (s: Self)
        ensures
            s.port_count == (cap & 0x1F) + 1,
            s.port_mask == pi,
    {
        proof {
            vstd::bits::lemma_u32_low_bits_mask_is_mod(cap, 5);
            vstd::bits::lemma_low_bits_mask_values();
            vstd::arithmetic::power2::lemma2_to64();
        }
        assert(cap & 0x1F < 32);
        AhciState { port_count: (cap & 0x1F) + 1, port_mask: pi }
    }
}

/// Whether a controller has been set up.
pub fn is_available(state: &Option<AhciState>) -> (b: bool)
    ensures
        b == state is Some,
{
    state.is_some()
}

/// Whether the port's link is up.
pub fn port_link_up(ssts: u32) -> (b: bool)
    ensures
        b == link_up(ssts),
{
    ssts & 0xF == 3 && (ssts >> 8) & 0xF == 1
}

/// The first implemented port with an active ATA device, from each port's SATA status
/// and signature.
pub fn find_sata_port(port_mask: u32, ssts: &Vec<u32>, sig: &Vec<u32>) -> (r: Option<usize>)
    requires
        ssts@.len() == 32,
        sig@.len() == 32,
    ensures
        r matches Some(i) ==> i < 32 && port_mask & (1u32 << i as u32) != 0 && link_up(ssts@[i as int])
            && sig@[i as int] == SATA_SIG_ATA
            && forall|j: int| 0 <= j < i ==> !(port_mask & (1u32 << j as u32) != 0 && link_up(#[trigger] ssts@[j])
                && sig@[j] == SATA_SIG_ATA),
        r is None ==> forall|j: int| 0 <= j < 32 ==> !(port_mask & (1u32 << j as u32) != 0 && link_up(#[trigger] ssts@[j])
            && sig@[j] == SATA_SIG_ATA),
{
    let mut i: usize = 0;
    while i < 32
        invariant
            i <= 32,
            ssts@.len() == 32,
            sig@.len() == 32,
            forall|j: int| 0 <= j < i ==> !(port_mask & (1u32 << j as u32) != 0 && link_up(#[trigger] ssts@[j])
                && sig@[j] == SATA_SIG_ATA),
        decreases 32 - i,
    {
        if port_mask & (1u32 << i as u32) != 0 && port_link_up(ssts[i]) && sig[i] == SATA_SIG_ATA {
            return Some(i);
        }
        i = i + 1;
    }
    None
}

/// Whether the port is still busy (BSY or DRQ in the task file data).
pub fn port_busy(tfd: u32) -> (b: bool)
    ensures
        b == (tfd & 0x88 != 0),
{
    tfd & 0x88 != 0
}

/// The command header's flags: the FIS length in double words, and the write bit.
pub fn header_flags(is_write: bool) -> (f: u16)
    ensures
        f == if is_write { (FIS_SIZE / 4) | 0x40 } else { FIS_SIZE / 4 },
{
    let cfl: u16 = FIS_SIZE / 4;
    if is_write {
        cfl | 0x40
    } else {
        cfl
    }
}

/// The command FIS for an LBA48 command: type, command bit, the command, LBA mode,
/// the six LBA bytes and the two count bytes.
pub fn build_fis(command: u8, lba: u64, sector_count: u16) -> (fis: Vec<u8>)
    ensures
        fis@ == seq![FIS_TYPE_REG_H2D, 0x80u8, command, 0u8,
            (lba & 0xFF) as u8, ((lba >> 8u64) & 0xFF) as u8, ((lba >> 16u64) & 0xFF) as u8, 0x40u8,
            ((lba >> 24u64) & 0xFF) as u8, ((lba >> 32u64) & 0xFF) as u8, ((lba >> 40u64) & 0xFF) as u8, 0u8,
            (sector_count & 0xFF) as u8, ((sector_count >> 8u16) & 0xFF) as u8, 0u8, 0u8,
            0u8, 0u8, 0u8, 0u8],
{
    vec![
        FIS_TYPE_REG_H2D, 0x80, command, 0,
        (lba & 0xFF) as u8, ((lba >> 8) & 0xFF) as u8, ((lba >> 16) & 0xFF) as u8, 0x40,
        ((lba >> 24) & 0xFF) as u8, ((lba >> 32) & 0xFF) as u8, ((lba >> 40) & 0xFF) as u8, 0,
        (sector_count & 0xFF) as u8, ((sector_count >> 8) & 0xFF) as u8, 0, 0,
        0, 0, 0, 0,
    ]
}

/// The PRDT entry for a buffer: its address halves and the byte count less one,
/// with interrupt on completion.
pub fn prdt_entry(buf_phys: u64, buf_len: u32) -> (e: (u32, u32, u32))
    requires
        buf_len >= 1,
    ensures
        e.0 == buf_phys as u32,
        e.1 == (buf_phys >> 32u64) as u32,
        e.2 == (buf_len - 1) as u32 | 0x8000_0000,
{
    (buf_phys as u32, (buf_phys >> 32) as u32, (buf_len - 1) | 0x8000_0000)
}

/// The command list's base from its two registers; 0 means not configured.
pub fn command_list_base(clb: u32, clbu: u32) -> (r: Result<u64, &'static str>)
    ensures
        r is Err <==> (clb as u64 | ((clbu as u64) << 32u64)) == 0,
        r matches Ok(b) ==> b == clb as u64 | ((clbu as u64) << 32u64),
{
    let base = clb as u64 | ((clbu as u64) << 32);
    if base == 0 {
        return Err("AHCI: command list not configured");
    }
    Ok(base)
}

/// One step of waiting for a busy port.
pub fn busy_step(tfd: u32, spins: u32) -> (r: Option<Result<(), &'static str>>)
    ensures
        tfd & 0x88 == 0 ==> r == Some(Ok::<(), &'static str>(())),
        tfd & 0x88 != 0 && spins > BUSY_TIMEOUT_SPINS ==> r matches Some(Err(_)),
        tfd & 0x88 != 0 && spins <= BUSY_TIMEOUT_SPINS ==> r is None,
{
    if !port_busy(tfd) {
        Some(Ok(()))
    } else if spins > BUSY_TIMEOUT_SPINS {
        Some(Err("AHCI: port busy timeout"))
    } else {
        None
    }
}

/// One step of waiting for command slot 0: done when its issue bit clears, a task
/// file error when the interrupt status says so, a timeout past the limit.
pub fn command_step(ci: u32, is_val: u32, spins: u32) -> (s: CommandStep)
    ensures
        ci & 1 == 0 ==> s == CommandStep::Done,
        ci & 1 != 0 && is_val & 0x4000_0000 != 0 ==> s == CommandStep::TaskFileError,
        ci & 1 != 0 && is_val & 0x4000_0000 == 0 ==> s == if spins > COMMAND_TIMEOUT_SPINS { CommandStep::TimedOut } else { CommandStep::Wait },
{
    if ci & 1 == 0 {
        CommandStep::Done
    } else if is_val & 0x4000_0000 != 0 {
        CommandStep::TaskFileError
    } else if spins > COMMAND_TIMEOUT_SPINS {
        CommandStep::TimedOut
    } else {
        CommandStep::Wait
    }
}

/// Where a command on port slot 0 stands.
#[derive(Debug, Clone, Copy, PartialEq, Eq, Structural)]
pub enum AtaStage {
    WaitIdle,
    CommandListLow,
    CommandListHigh,
    Header,
    AllocTable,
    Table,
    Issue,
    PollIssue,
    PollStatus,
    Release,
    Finished,
    Failed,
}

/// Why a command failed.
#[derive(Debug, Clone, Copy, PartialEq, Eq, Structural)]
pub enum AtaError {
    BusyTimeout,
    NoCommandList,
    OutOfMemory,
    TaskFile,
    Timeout,
}

/// The command and where it stands: what was read, the frame of its command table,
/// the spins so far, and the outcome once known.
#[derive(Debug, Clone, Copy, PartialEq, Eq, Structural)]
pub struct AtaState {
    pub stage: AtaStage,
    pub command: u8,
    pub lba: u64,
    pub sector_count: u16,
    pub buf_phys: u64,
    pub buf_len: u32,
    pub is_write: bool,
    pub clb_lo: u32,
    pub clb: u64,
    pub table: u64,
    pub spins: u32,
    pub outcome: Option<AtaError>,
}

/// What the caller does next with the port's registers and memory.
#[derive(Debug, Clone, Copy, PartialEq, Eq, Structural)]
pub enum AtaAction {
    ReadTfd,
    ReadClb,
    ReadClbu,
    /// Command header 0 at the command list `at`: flags, one PRDT entry, no bytes yet.
    WriteHeader { at: u64, flags: u16, prdtl: u16 },
    AllocFrame,
    /// The command table at `at` zeroed, then the command FIS of `command`, `lba` and
    /// `count`, the PRDT entry, and its address put in header 0 of `header`.
    WriteTable { at: u64, header: u64, command: u8, lba: u64, count: u16, dba: u32, dbau: u32, dbc: u32 },
    WriteCi(u32),
    ReadCi,
    ReadIs,
    FreeFrame(u64),
    Finish,
    Fail(AtaError),
}

/// What the caller reports back.
#[derive(Debug, Clone, Copy, PartialEq, Eq, Structural)]
pub enum AtaEvent {
    Done,
    Read(u32),
    Frame(Option<u64>),
}

/// A command ready to start: the port's task file is read first.
pub open spec fn ata_begin(command: u8, lba: u64, sector_count: u16, buf_phys: u64, buf_len: u32, is_write: bool) -> AtaState {
    AtaState { stage: AtaStage::WaitIdle, command, lba, sector_count, buf_phys, buf_len, is_write, clb_lo: 0, clb: 0,
        table: 0, spins: 0, outcome: None }
}

/// The release of the command table, then the end with `outcome`.
pub open spec fn ata_release(st: AtaState, outcome: Option<AtaError>) -> (AtaState, AtaAction) {
    (AtaState { stage: AtaStage::Release, outcome, ..st }, AtaAction::FreeFrame(st.table))
}

/// One step of a command: wait while the task file shows BSY or DRQ (giving up past
/// `BUSY_TIMEOUT_SPINS`); read the command list base (0 fails); write command header
/// 0; take a frame for the command table (none fails) and fill it; set bit 0 of the
/// command issue register; poll until that bit clears, a task file error shows in the
/// interrupt status, or `COMMAND_TIMEOUT_SPINS` polls pass; then free the table.
pub open spec fn ata_next(st: AtaState, ev: AtaEvent) -> (AtaState, AtaAction) {
    match st.stage {
        AtaStage::WaitIdle => match ev {
            AtaEvent::Read(tfd) => if tfd & 0x88 == 0 {
                (AtaState { stage: AtaStage::CommandListLow, spins: 0, ..st }, AtaAction::ReadClb)
            } else if st.spins >= BUSY_TIMEOUT_SPINS {
                (AtaState { stage: AtaStage::Failed, outcome: Some(AtaError::BusyTimeout), ..st }, AtaAction::Fail(AtaError::BusyTimeout))
            } else {
                (AtaState { spins: (st.spins + 1) as u32, ..st }, AtaAction::ReadTfd)
            },
            _ => (st, AtaAction::ReadTfd),
        },
        AtaStage::CommandListLow => match ev {
            AtaEvent::Read(v) => (AtaState { stage: AtaStage::CommandListHigh, clb_lo: v, ..st }, AtaAction::ReadClbu),
            _ => (st, AtaAction::ReadClb),
        },
        AtaStage::CommandListHigh => match ev {
            AtaEvent::Read(v) => {
                let base = st.clb_lo as u64 | ((v as u64) << 32u64);
                if base == 0 {
                    (AtaState { stage: AtaStage::Failed, outcome: Some(AtaError::NoCommandList), ..st }, AtaAction::Fail(AtaError::NoCommandList))
                } else {
                    (AtaState { stage: AtaStage::Header, clb: base, ..st },
                        AtaAction::WriteHeader { at: base, flags: if st.is_write { (FIS_SIZE / 4) | 0x40 } else { FIS_SIZE / 4 }, prdtl: 1 })
                }
            },
            _ => (st, AtaAction::ReadClbu),
        },
        AtaStage::Header => (AtaState { stage: AtaStage::AllocTable, ..st }, AtaAction::AllocFrame),
        AtaStage::AllocTable => match ev {
            AtaEvent::Frame(Some(t)) => (AtaState { stage: AtaStage::Table, table: t, ..st },
                AtaAction::WriteTable { at: t, header: st.clb, command: st.command, lba: st.lba, count: st.sector_count,
                    dba: st.buf_phys as u32, dbau: (st.buf_phys >> 32u64) as u32, dbc: (st.buf_len - 1) as u32 | 0x8000_0000 }),
            _ => (AtaState { stage: AtaStage::Failed, outcome: Some(AtaError::OutOfMemory), ..st }, AtaAction::Fail(AtaError::OutOfMemory)),
        },
        AtaStage::Table => (AtaState { stage: AtaStage::Issue, ..st }, AtaAction::WriteCi(1)),
        AtaStage::Issue => (AtaState { stage: AtaStage::PollIssue, spins: 0, ..st }, AtaAction::ReadCi),
        AtaStage::PollIssue => match ev {
            AtaEvent::Read(ci) => if ci & 1 == 0 {
                ata_release(st, None)
            } else {
                (AtaState { stage: AtaStage::PollStatus, ..st }, AtaAction::ReadIs)
            },
            _ => (st, AtaAction::ReadCi),
        },
        AtaStage::PollStatus => match ev {
            AtaEvent::Read(is_val) => if is_val & 0x4000_0000 != 0 {
                ata_release(st, Some(AtaError::TaskFile))
            } else if st.spins >= COMMAND_TIMEOUT_SPINS {
                ata_release(st, Some(AtaError::Timeout))
            } else {
                (AtaState { stage: AtaStage::PollIssue, spins: (st.spins + 1) as u32, ..st }, AtaAction::ReadCi)
            },
            _ => (st, AtaAction::ReadIs),
        },
        AtaStage::Release => match st.outcome {
            None => (AtaState { stage: AtaStage::Finished, ..st }, AtaAction::Finish),
            Some(e) => (AtaState { stage: AtaStage::Failed, ..st }, AtaAction::Fail(e)),
        },
        AtaStage::Finished => (st, AtaAction::Finish),
        AtaStage::Failed => match st.outcome {
            Some(e) => (st, AtaAction::Fail(e)),
            None => (st, AtaAction::Finish),
        },
    }
}

/// Start a command on slot 0 of a port: `buf_len` bytes at `buf_phys` (at least one).
pub fn ata_start(command: u8, lba: u64, sector_count: u16, buf_phys: u64, buf_len: u32, is_write: bool) -> (r: (AtaState, AtaAction))
    requires
        buf_len >= 1,
    ensures
        r == (ata_begin(command, lba, sector_count, buf_phys, buf_len, is_write), AtaAction::ReadTfd),
{
    (AtaState { stage: AtaStage::WaitIdle, command, lba, sector_count, buf_phys, buf_len, is_write, clb_lo: 0, clb: 0,
        table: 0, spins: 0, outcome: None }, AtaAction::ReadTfd)
}

/// One step of a command, as `ata_next` gives it.
pub fn ata_step(st: AtaState, ev: AtaEvent) -> (r: (AtaState, AtaAction))
    requires
        st.buf_len >= 1,
    ensures
        r == ata_next(st, ev),
        r.0.buf_len == st.buf_len,
{
    match st.stage {
        AtaStage::WaitIdle => match ev {
            AtaEvent::Read(tfd) => if !port_busy(tfd) {
                (AtaState { stage: AtaStage::CommandListLow, spins: 0, ..st }, AtaAction::ReadClb)
            } else if st.spins >= BUSY_TIMEOUT_SPINS {
                (AtaState { stage: AtaStage::Failed, outcome: Some(AtaError::BusyTimeout), ..st }, AtaAction::Fail(AtaError::BusyTimeout))
            } else {
                (AtaState { spins: st.spins + 1, ..st }, AtaAction::ReadTfd)
            },
            _ => (st, AtaAction::ReadTfd),
        },
        AtaStage::CommandListLow => match ev {
            AtaEvent::Read(v) => (AtaState { stage: AtaStage::CommandListHigh, clb_lo: v, ..st }, AtaAction::ReadClbu),
            _ => (st, AtaAction::ReadClb),
        },
        AtaStage::CommandListHigh => match ev {
            AtaEvent::Read(v) => match command_list_base(st.clb_lo, v) {
                Err(_) => (AtaState { stage: AtaStage::Failed, outcome: Some(AtaError::NoCommandList), ..st }, AtaAction::Fail(AtaError::NoCommandList)),
                Ok(base) => (AtaState { stage: AtaStage::Header, clb: base, ..st },
                    AtaAction::WriteHeader { at: base, flags: header_flags(st.is_write), prdtl: 1 }),
            },
            _ => (st, AtaAction::ReadClbu),
        },
        AtaStage::Header => (AtaState { stage: AtaStage::AllocTable, ..st }, AtaAction::AllocFrame),
        AtaStage::AllocTable => match ev {
            AtaEvent::Frame(Some(t)) => {
                let (dba, dbau, dbc) = prdt_entry(st.buf_phys, st.buf_len);
                (AtaState { stage: AtaStage::Table, table: t, ..st },
                    AtaAction::WriteTable { at: t, header: st.clb, command: st.command, lba: st.lba, count: st.sector_count, dba, dbau, dbc })
            },
            _ => (AtaState { stage: AtaStage::Failed, outcome: Some(AtaError::OutOfMemory), ..st }, AtaAction::Fail(AtaError::OutOfMemory)),
        },
        AtaStage::Table => (AtaState { stage: AtaStage::Issue, ..st }, AtaAction::WriteCi(1)),
        AtaStage::Issue => (AtaState { stage: AtaStage::PollIssue, spins: 0, ..st }, AtaAction::ReadCi),
        AtaStage::PollIssue => match ev {
            AtaEvent::Read(ci) => if ci & 1 == 0 {
                (AtaState { stage: AtaStage::Release, outcome: None, ..st }, AtaAction::FreeFrame(st.table))
            } else {
                (AtaState { stage: AtaStage::PollStatus, ..st }, AtaAction::ReadIs)
            },
            _ => (st, AtaAction::ReadCi),
        },
        AtaStage::PollStatus => match ev {
            AtaEvent::Read(is_val) => if is_val & 0x4000_0000 != 0 {
                (AtaState { stage: AtaStage::Release, outcome: Some(AtaError::TaskFile), ..st }, AtaAction::FreeFrame(st.table))
            } else if st.spins >= COMMAND_TIMEOUT_SPINS {
                (AtaState { stage: AtaStage::Release, outcome: Some(AtaError::Timeout), ..st }, AtaAction::FreeFrame(st.table))
            } else {
                (AtaState { stage: AtaStage::PollIssue, spins: st.spins + 1, ..st }, AtaAction::ReadCi)
            },
            _ => (st, AtaAction::ReadIs),
        },
        AtaStage::Release => match st.outcome {
            None => (AtaState { stage: AtaStage::Finished, ..st }, AtaAction::Finish),
            Some(e) => (AtaState { stage: AtaStage::Failed, ..st }, AtaAction::Fail(e)),
        },
        AtaStage::Finished => (st, AtaAction::Finish),
        AtaStage::Failed => match st.outcome {
            Some(e) => (st, AtaAction::Fail(e)),
            None => (st, AtaAction::Finish),
        },
    }
}

/// The states and actions of command steps fed `evs` in turn.
pub open spec fn ata_run(st: AtaState, evs: Seq<AtaEvent>) -> (AtaState, Seq<AtaAction>)
    decreases evs.len(),
{
    if evs.len() == 0 {
        (st, Seq::empty())
    } else {
        let (s1, a1) = ata_next(st, evs[0]);
        let (s2, acts) = ata_run(s1, evs.drop_first());
        (s2, seq![a1] + acts)
    }
}

/// A command on an idle port with a command list at `clb` (not 0), a table frame `t`,
/// and a device that clears the issue bit at the first poll: header 0 gets the FIS
/// length, the write bit for a write and one PRDT entry; the table gets the command
/// FIS and the buffer's PRDT entry; slot 0 is issued, polled once, the table freed,
/// and the command succeeds.
pub proof fn law_ata_command(command: u8, lba: u64, count: u16, buf: u64, len: u32, is_write: bool, lo: u32, hi: u32, t: u64, ci: u32)
    requires
        len >= 1,
        (lo as u64 | ((hi as u64) << 32u64)) != 0,
        ci & 1 == 0,
    ensures
        ata_run(ata_begin(command, lba, count, buf, len, is_write), seq![AtaEvent::Read(0), AtaEvent::Read(lo), AtaEvent::Read(hi),
            AtaEvent::Done, AtaEvent::Frame(Some(t)), AtaEvent::Done, AtaEvent::Done, AtaEvent::Read(ci), AtaEvent::Done]).1
        == seq![
            AtaAction::ReadClb,
            AtaAction::ReadClbu,
            AtaAction::WriteHeader { at: lo as u64 | ((hi as u64) << 32u64), flags: if is_write { (FIS_SIZE / 4) | 0x40 } else { FIS_SIZE / 4 }, prdtl: 1 },
            AtaAction::AllocFrame,
            AtaAction::WriteTable { at: t, header: lo as u64 | ((hi as u64) << 32u64), command, lba, count,
                dba: buf as u32, dbau: (buf >> 32u64) as u32, dbc: (len - 1) as u32 | 0x8000_0000 },
            AtaAction::WriteCi(1),
            AtaAction::ReadCi,
            AtaAction::FreeFrame(t),
            AtaAction::Finish,
        ],
{
    reveal_with_fuel(ata_run, 10);
    assert(0u32 & 0x88 == 0) by (bit_vector);
}

} // verus!
