//! VirtIO block device (legacy PCI): register layout, request checks, and the
//! virtqueue bookkeeping of a request; the port and DMA accesses are the caller's.
use vstd::prelude::*;

verus! {

/// Device status bits.
pub const STATUS_ACKNOWLEDGE: u8 = 1;
pub const STATUS_DRIVER: u8 = 2;
pub const STATUS_DRIVER_OK: u8 = 4;
pub const STATUS_FEATURES_OK: u8 = 8;

/// Register offsets from the I/O base.
pub const REG_DEVICE_FEATURES: u16 = 0;
pub const REG_GUEST_FEATURES: u16 = 4;
pub const REG_QUEUE_ADDRESS: u16 = 8;
pub const REG_QUEUE_SIZE: u16 = 12;
pub const REG_QUEUE_SELECT: u16 = 14;
pub const REG_QUEUE_NOTIFY: u16 = 16;
pub const REG_DEVICE_STATUS: u16 = 18;
pub const REG_ISR_STATUS: u16 = 19;

/// Offset of the capacity in the device configuration.
pub const CFG_CAPACITY: u16 = 20;

/// Offset of the capacity's high word.
pub const CFG_CAPACITY_HIGH: u16 = 24;

/// Sector size.
pub const SECTOR_SIZE: u64 = 512;

/// Request types.
pub const VIRTIO_BLK_T_IN: u32 = 0;
pub const VIRTIO_BLK_T_OUT: u32 = 1;

/// Descriptor flags.
pub const VRING_DESC_F_NEXT: u16 = 1;
pub const VRING_DESC_F_WRITE: u16 = 2;

/// Descriptors that fit in the page holding the table.
pub const DESC_TABLE_ENTRIES: usize = 256;

/// Size of the request header.
pub const REQ_HEADER_SIZE: u64 = 16;

/// Spins before a request times out.
pub const REQUEST_TIMEOUT_SPINS: u64 = 100_000_000;

/// A virtqueue descriptor.
#[derive(Debug, Clone, Copy, PartialEq, Eq, Structural)]
pub struct VringDesc {
    pub addr: u64,
    pub len: u32,
    pub flags: u16,
    pub next: u16,
}

/// The block device: I/O base, capacity, and the request queue (descriptor table,
/// available ring and the indices the driver keeps).
pub struct VirtioBlock {
    pub io_base: u16,
    pub capacity_sectors: u64,
    pub desc: Vec<VringDesc>,
    pub avail_ring: Vec<u16>,
    pub avail_idx: u16,
    pub queue_size: u16,
    pub next_desc: u16,
    pub last_used_idx: u16,
    pub hhdm_offset: u64,
}

/// How polling for a request's completion goes on.
#[derive(Debug, Clone, Copy, PartialEq, Eq, Structural)]
pub enum PollStep {
    Done,
    Wait,
    TimedOut,
}

/// The port of a register.
pub fn reg_port(base: u16, offset: u16) -> (p: u16)
    requires
        base + offset <= u16::MAX,
    ensures
        p == base + offset,
{
    base + offset
}

/// The I/O base from BAR0, which must be an I/O space BAR.
pub fn io_base_from_bar(bar0: u32) -> (r: Result<u16, &'static str>)
    ensures
        bar0 & 1 == 0 <==> r is Err,
        r matches Ok(b) ==> b == bar0 & 0xFFFC,
{
    if bar0 & 1 == 0 {
        return Err("VirtIO block: BAR0 is not I/O space");
    }
    let b = bar0 & 0xFFFC;
    assert(b <= 0xFFFC) by (bit_vector)
        requires
            b == bar0 & 0xFFFC,
    ;
    Ok(b as u16)
}

/// The capacity from its two configuration words.
pub fn capacity_from(cap_lo: u32, cap_hi: u32) -> (c: u64)
    ensures
        c == cap_lo as u64 | ((cap_hi as u64) << 32u64),
{
    cap_lo as u64 | ((cap_hi as u64) << 32u64)
}

impl VirtioBlock {
    pub open spec fn wf(&self) -> bool {
        &&& self.desc@.len() == DESC_TABLE_ENTRIES
        &&& self.avail_ring@.len() == DESC_TABLE_ENTRIES
        &&& 0 < self.queue_size
        &&& self.queue_size as int <= DESC_TABLE_ENTRIES
        &&& self.next_desc < self.queue_size
    }

    /// A device with `queue_size` queue entries (0 is refused), empty rings.
    pub fn new(io_base: u16, capacity_sectors: u64, queue_size: u16, hhdm_offset: u64) -> (r: Result<Self, &'static str>)
        ensures
            (queue_size == 0 || queue_size as int > DESC_TABLE_ENTRIES) <==> r is Err,
            r matches Ok(d) ==> d.wf() && d.io_base == io_base && d.capacity_sectors == capacity_sectors
                && d.queue_size == queue_size && d.next_desc == 0 && d.last_used_idx == 0 && d.avail_idx == 0
                && d.hhdm_offset == hhdm_offset,
    {
        if queue_size == 0 {
            return Err("VirtIO block: queue size is 0");
        }
        if queue_size as usize > DESC_TABLE_ENTRIES {
            return Err("VirtIO block: queue larger than one page");
        }
        let mut desc: Vec<VringDesc> = Vec::new();
        let mut avail_ring: Vec<u16> = Vec::new();
        while desc.len() < DESC_TABLE_ENTRIES
            invariant
                desc@.len() == avail_ring@.len(),
                desc@.len() <= DESC_TABLE_ENTRIES,
            decreases DESC_TABLE_ENTRIES - desc@.len(),
        {
            desc.push(VringDesc { addr: 0, len: 0, flags: 0, next: 0 });
            avail_ring.push(0);
        }
        Ok(VirtioBlock { io_base, capacity_sectors, desc, avail_ring, avail_idx: 0, queue_size, next_desc: 0, last_used_idx: 0, hhdm_offset })
    }

    /// Device capacity in sectors.
    pub fn capacity_sectors(&self) -> (c: u64)
        ensures
            c == self.capacity_sectors,
    {
        self.capacity_sectors
    }

    /// Whether a transfer of `len` bytes from `start_sector` may be made: whole sectors,
    /// inside the device.
    pub fn check_request(&self, start_sector: u64, len: usize, is_write: bool) -> (r: Result<(), &'static str>)
        requires
            start_sector + len / 512 <= u64::MAX,
        ensures
            r is Ok <==> len % 512 == 0 && start_sector + len / 512 <= self.capacity_sectors,
    {
        if len % 512 != 0 {
            return Err("Buffer size must be a multiple of sector size");
        }
        let count = len as u64 / SECTOR_SIZE;
        if start_sector + count > self.capacity_sectors {
            if is_write {
                return Err("Write past end of device");
            }
            return Err("Read past end of device");
        }
        Ok(())
    }

    /// Put a request on the queue: three chained descriptors (the header the device
    /// reads, the data buffer, the status byte the device writes) starting at the next
    /// free descriptor, the chain's head in the available ring, and the ring index
    /// advanced. Gives the head. A chain that would not fit in the table is refused.
    pub fn submit(&mut self, req_type: u32, header_phys: u64, data_phys: u64, data_len: u32) -> (r: Result<u16, &'static str>)
        requires
            old(self).wf(),
            header_phys + REQ_HEADER_SIZE <= u64::MAX,
        ensures
            final(self).wf(),
            final(self).io_base == old(self).io_base,
            final(self).capacity_sectors == old(self).capacity_sectors,
            final(self).queue_size == old(self).queue_size,
            final(self).last_used_idx == old(self).last_used_idx,
            old(self).next_desc as int + 2 >= DESC_TABLE_ENTRIES ==> r is Err && *final(self) == *old(self),
            old(self).next_desc as int + 2 < DESC_TABLE_ENTRIES ==> ({
                let d0 = old(self).next_desc as int;
                &&& r == Ok::<u16, &'static str>(d0 as u16)
                &&& final(self).desc@ == old(self).desc@
                    .update(d0, VringDesc { addr: header_phys, len: REQ_HEADER_SIZE as u32, flags: VRING_DESC_F_NEXT, next: (d0 + 1) as u16 })
                    .update(d0 + 1, VringDesc { addr: data_phys, len: data_len,
                        flags: if req_type == VIRTIO_BLK_T_IN { VRING_DESC_F_NEXT | VRING_DESC_F_WRITE } else { VRING_DESC_F_NEXT },
                        next: (d0 + 2) as u16 })
                    .update(d0 + 2, VringDesc { addr: (header_phys + REQ_HEADER_SIZE) as u64, len: 1, flags: VRING_DESC_F_WRITE, next: 0 })
                &&& final(self).avail_ring@ == old(self).avail_ring@.update(
                    (old(self).avail_idx % old(self).queue_size) as int, d0 as u16)
                &&& final(self).avail_idx == old(self).avail_idx.wrapping_add(1)
                &&& final(self).next_desc == (d0 + 3) % (old(self).queue_size as int)
            }),
    {
        let d0 = self.next_desc;
        if d0 as usize + 2 >= DESC_TABLE_ENTRIES {
            return Err("VirtIO block: descriptor chain does not fit");
        }
        let d1 = d0 + 1;
        let d2 = d1 + 1;
        self.next_desc = (d2 + 1) % self.queue_size;
        self.desc.set(d0 as usize, VringDesc { addr: header_phys, len: REQ_HEADER_SIZE as u32, flags: VRING_DESC_F_NEXT, next: d1 });
        let data_flags = if req_type == VIRTIO_BLK_T_IN { VRING_DESC_F_NEXT | VRING_DESC_F_WRITE } else { VRING_DESC_F_NEXT };
        self.desc.set(d1 as usize, VringDesc { addr: data_phys, len: data_len, flags: data_flags, next: d2 });
        self.desc.set(d2 as usize, VringDesc { addr: header_phys + REQ_HEADER_SIZE, len: 1, flags: VRING_DESC_F_WRITE, next: 0 });
        let slot = self.avail_idx % self.queue_size;
        self.avail_ring.set(slot as usize, d0);
        self.avail_idx = self.avail_idx.wrapping_add(1);
        Ok(d0)
    }

    /// One poll of the used ring: done when its index moved (and it is remembered),
    /// timed out past the spin limit, else wait.
    pub fn poll(&mut self, used_idx: u16, spins: u64) -> (s: PollStep)
        ensures
            final(self).wf() == old(self).wf(),
            final(self).desc == old(self).desc,
            final(self).next_desc == old(self).next_desc,
            final(self).queue_size == old(self).queue_size,
            used_idx != old(self).last_used_idx ==> s == PollStep::Done && final(self).last_used_idx == used_idx,
            used_idx == old(self).last_used_idx ==> final(self).last_used_idx == old(self).last_used_idx
                && (s == if spins > REQUEST_TIMEOUT_SPINS { PollStep::TimedOut } else { PollStep::Wait }),
    {
        if used_idx != self.last_used_idx {
            self.last_used_idx = used_idx;
            return PollStep::Done;
        }
        if spins > REQUEST_TIMEOUT_SPINS {
            PollStep::TimedOut
        } else {
            PollStep::Wait
        }
    }
}

/// Where the start-up of the device stands: the next register access or allocation.
#[derive(Debug, Clone, Copy, PartialEq, Eq, Structural)]
pub enum InitStage {
    Reset,
    Acknowledge,
    Driver,
    ReadFeatures,
    GuestFeatures,
    CapacityLow,
    CapacityHigh,
    SelectQueue,
    QueueSize,
    AllocDesc,
    AllocAvail,
    AllocUsed,
    QueueAddress,
    DriverOk,
    Finished,
    Failed,
}

/// Why start-up stopped.
#[derive(Debug, Clone, Copy, PartialEq, Eq, Structural)]
pub enum InitError {
    NotIoSpace,
    QueueSizeZero,
    OutOfMemory,
}

/// The start-up state: the stage and what was read or allocated so far.
#[derive(Debug, Clone, Copy, PartialEq, Eq, Structural)]
pub struct InitState {
    pub stage: InitStage,
    pub io_base: u16,
    pub cap_lo: u32,
    pub cap_hi: u32,
    pub queue_size: u16,
    pub desc_phys: u64,
    pub avail_phys: u64,
    pub used_phys: u64,
    pub error: InitError,
}

/// What the caller does next: a port write or read, a frame to allocate, or the end.
#[derive(Debug, Clone, Copy, PartialEq, Eq, Structural)]
pub enum InitAction {
    Out8(u16, u8),
    Out16(u16, u16),
    Out32(u16, u32),
    In16(u16),
    In32(u16),
    AllocFrame,
    Finish,
    Fail(InitError),
}

/// What the caller reports back: a write made, a value read, or the physical address
/// of the frame allocated.
#[derive(Debug, Clone, Copy, PartialEq, Eq, Structural)]
pub enum InitEvent {
    Wrote,
    Read(u32),
    Frame(Option<u64>),
}

/// The port of register `off` of the device at `base`.
pub open spec fn port_of(base: u16, off: u16) -> u16 {
    base.wrapping_add(off)
}

/// The state moved to `stage`.
pub open spec fn at_stage(st: InitState, stage: InitStage) -> InitState {
    InitState { stage, ..st }
}

/// One step of start-up: from the state and what the last action gave, the next state
/// and action. The status register goes 0, ACKNOWLEDGE, ACKNOWLEDGE | DRIVER; the
/// features are read and none accepted; the capacity is read; queue 0 is selected and
/// its size read (0 fails); three frames are taken (none fails); the queue address is
/// the descriptor frame's page number; last DRIVER_OK is added to the status.
pub open spec fn init_next(st: InitState, ev: InitEvent) -> (InitState, InitAction) {
    let b = st.io_base;
    let no_frame = (InitState { stage: InitStage::Failed, error: InitError::OutOfMemory, ..st }, InitAction::Fail(InitError::OutOfMemory));
    match st.stage {
        InitStage::Reset => (at_stage(st, InitStage::Acknowledge), InitAction::Out8(port_of(b, REG_DEVICE_STATUS), STATUS_ACKNOWLEDGE)),
        InitStage::Acknowledge => (at_stage(st, InitStage::Driver),
            InitAction::Out8(port_of(b, REG_DEVICE_STATUS), STATUS_ACKNOWLEDGE | STATUS_DRIVER)),
        InitStage::Driver => (at_stage(st, InitStage::ReadFeatures), InitAction::In32(port_of(b, REG_DEVICE_FEATURES))),
        InitStage::ReadFeatures => (at_stage(st, InitStage::GuestFeatures), InitAction::Out32(port_of(b, REG_GUEST_FEATURES), 0)),
        InitStage::GuestFeatures => (at_stage(st, InitStage::CapacityLow), InitAction::In32(port_of(b, CFG_CAPACITY))),
        InitStage::CapacityLow => match ev {
            InitEvent::Read(v) => (InitState { stage: InitStage::CapacityHigh, cap_lo: v, ..st }, InitAction::In32(port_of(b, CFG_CAPACITY_HIGH))),
            _ => (st, InitAction::In32(port_of(b, CFG_CAPACITY))),
        },
        InitStage::CapacityHigh => match ev {
            InitEvent::Read(v) => (InitState { stage: InitStage::SelectQueue, cap_hi: v, ..st }, InitAction::Out16(port_of(b, REG_QUEUE_SELECT), 0)),
            _ => (st, InitAction::In32(port_of(b, CFG_CAPACITY_HIGH))),
        },
        InitStage::SelectQueue => (at_stage(st, InitStage::QueueSize), InitAction::In16(port_of(b, REG_QUEUE_SIZE))),
        InitStage::QueueSize => match ev {
            InitEvent::Read(v) => if v as u16 == 0 {
                (InitState { stage: InitStage::Failed, error: InitError::QueueSizeZero, ..st }, InitAction::Fail(InitError::QueueSizeZero))
            } else {
                (InitState { stage: InitStage::AllocDesc, queue_size: v as u16, ..st }, InitAction::AllocFrame)
            },
            _ => (st, InitAction::In16(port_of(b, REG_QUEUE_SIZE))),
        },
        InitStage::AllocDesc => match ev {
            InitEvent::Frame(Some(f)) => (InitState { stage: InitStage::AllocAvail, desc_phys: f, ..st }, InitAction::AllocFrame),
            _ => no_frame,
        },
        InitStage::AllocAvail => match ev {
            InitEvent::Frame(Some(f)) => (InitState { stage: InitStage::AllocUsed, avail_phys: f, ..st }, InitAction::AllocFrame),
            _ => no_frame,
        },
        InitStage::AllocUsed => match ev {
            InitEvent::Frame(Some(f)) => (InitState { stage: InitStage::QueueAddress, used_phys: f, ..st },
                InitAction::Out32(port_of(b, REG_QUEUE_ADDRESS), (st.desc_phys / 4096) as u32)),
            _ => no_frame,
        },
        InitStage::QueueAddress => (at_stage(st, InitStage::DriverOk),
            InitAction::Out8(port_of(b, REG_DEVICE_STATUS), STATUS_ACKNOWLEDGE | STATUS_DRIVER | STATUS_DRIVER_OK)),
        InitStage::DriverOk => (at_stage(st, InitStage::Finished), InitAction::Finish),
        InitStage::Finished => (st, InitAction::Finish),
        InitStage::Failed => (st, InitAction::Fail(st.error)),
    }
}

/// Start-up from BAR0: an I/O-space BAR gives the I/O base and a reset of the status
/// register; any other fails.
pub fn init_start(bar0: u32) -> (r: (InitState, InitAction))
    ensures
        bar0 & 1 == 0 ==> r.0.stage == InitStage::Failed && r.1 == InitAction::Fail(InitError::NotIoSpace)
            && r.0.error == InitError::NotIoSpace,
        bar0 & 1 != 0 ==> r.0 == fresh_init(bar0 & 0xFFFC) && r.1 == InitAction::Out8(port_of((bar0 & 0xFFFC) as u16, REG_DEVICE_STATUS), 0),
{
    let (io_base, stage, error) = match io_base_from_bar(bar0) {
        Ok(b) => (b, InitStage::Reset, InitError::NotIoSpace),
        Err(_) => (0u16, InitStage::Failed, InitError::NotIoSpace),
    };
    let st = InitState { stage, io_base, cap_lo: 0, cap_hi: 0, queue_size: 0, desc_phys: 0, avail_phys: 0, used_phys: 0, error };
    if stage == InitStage::Failed {
        (st, InitAction::Fail(InitError::NotIoSpace))
    } else {
        (st, InitAction::Out8(io_base.wrapping_add(REG_DEVICE_STATUS), 0))
    }
}

/// The state start-up begins in for the device at `io`.
pub open spec fn fresh_init(io: u32) -> InitState {
    InitState { stage: InitStage::Reset, io_base: io as u16, cap_lo: 0, cap_hi: 0, queue_size: 0, desc_phys: 0, avail_phys: 0,
        used_phys: 0, error: InitError::NotIoSpace }
}

/// One step of start-up, as `init_next` gives it.
pub fn init_step(st: InitState, ev: InitEvent) -> (r: (InitState, InitAction))
    ensures
        r == init_next(st, ev),
{
    let b = st.io_base;
    let no_frame = (InitState { stage: InitStage::Failed, error: InitError::OutOfMemory, ..st }, InitAction::Fail(InitError::OutOfMemory));
    match st.stage {
        InitStage::Reset => (InitState { stage: InitStage::Acknowledge, ..st }, InitAction::Out8(b.wrapping_add(REG_DEVICE_STATUS), STATUS_ACKNOWLEDGE)),
        InitStage::Acknowledge => (InitState { stage: InitStage::Driver, ..st },
            InitAction::Out8(b.wrapping_add(REG_DEVICE_STATUS), STATUS_ACKNOWLEDGE | STATUS_DRIVER)),
        InitStage::Driver => (InitState { stage: InitStage::ReadFeatures, ..st }, InitAction::In32(b.wrapping_add(REG_DEVICE_FEATURES))),
        InitStage::ReadFeatures => (InitState { stage: InitStage::GuestFeatures, ..st }, InitAction::Out32(b.wrapping_add(REG_GUEST_FEATURES), 0)),
        InitStage::GuestFeatures => (InitState { stage: InitStage::CapacityLow, ..st }, InitAction::In32(b.wrapping_add(CFG_CAPACITY))),
        InitStage::CapacityLow => match ev {
            InitEvent::Read(v) => (InitState { stage: InitStage::CapacityHigh, cap_lo: v, ..st }, InitAction::In32(b.wrapping_add(CFG_CAPACITY_HIGH))),
            _ => (st, InitAction::In32(b.wrapping_add(CFG_CAPACITY))),
        },
        InitStage::CapacityHigh => match ev {
            InitEvent::Read(v) => (InitState { stage: InitStage::SelectQueue, cap_hi: v, ..st }, InitAction::Out16(b.wrapping_add(REG_QUEUE_SELECT), 0)),
            _ => (st, InitAction::In32(b.wrapping_add(CFG_CAPACITY_HIGH))),
        },
        InitStage::SelectQueue => (InitState { stage: InitStage::QueueSize, ..st }, InitAction::In16(b.wrapping_add(REG_QUEUE_SIZE))),
        InitStage::QueueSize => match ev {
            InitEvent::Read(v) => if v as u16 == 0 {
                (InitState { stage: InitStage::Failed, error: InitError::QueueSizeZero, ..st }, InitAction::Fail(InitError::QueueSizeZero))
            } else {
                (InitState { stage: InitStage::AllocDesc, queue_size: v as u16, ..st }, InitAction::AllocFrame)
            },
            _ => (st, InitAction::In16(b.wrapping_add(REG_QUEUE_SIZE))),
        },
        InitStage::AllocDesc => match ev {
            InitEvent::Frame(Some(f)) => (InitState { stage: InitStage::AllocAvail, desc_phys: f, ..st }, InitAction::AllocFrame),
            _ => no_frame,
        },
        InitStage::AllocAvail => match ev {
            InitEvent::Frame(Some(f)) => (InitState { stage: InitStage::AllocUsed, avail_phys: f, ..st }, InitAction::AllocFrame),
            _ => no_frame,
        },
        InitStage::AllocUsed => match ev {
            InitEvent::Frame(Some(f)) => (InitState { stage: InitStage::QueueAddress, used_phys: f, ..st },
                InitAction::Out32(b.wrapping_add(REG_QUEUE_ADDRESS), (st.desc_phys / 4096) as u32)),
            _ => no_frame,
        },
        InitStage::QueueAddress => (InitState { stage: InitStage::DriverOk, ..st },
            InitAction::Out8(b.wrapping_add(REG_DEVICE_STATUS), STATUS_ACKNOWLEDGE | STATUS_DRIVER | STATUS_DRIVER_OK)),
        InitStage::DriverOk => (InitState { stage: InitStage::Finished, ..st }, InitAction::Finish),
        InitStage::Finished => (st, InitAction::Finish),
        InitStage::Failed => (st, InitAction::Fail(st.error)),
    }
}

/// The device a finished start-up describes: its I/O base, the capacity from the two
/// words read, and the queue size read.
pub fn init_device(st: &InitState, hhdm_offset: u64) -> (r: Result<VirtioBlock, &'static str>)
    ensures
        (st.queue_size == 0 || st.queue_size as int > DESC_TABLE_ENTRIES) <==> r is Err,
        r matches Ok(d) ==> d.wf() && d.io_base == st.io_base
            && d.capacity_sectors == st.cap_lo as u64 | ((st.cap_hi as u64) << 32u64)
            && d.queue_size == st.queue_size && d.next_desc == 0 && d.last_used_idx == 0 && d.avail_idx == 0
            && d.hhdm_offset == hhdm_offset,
{
    VirtioBlock::new(st.io_base, capacity_from(st.cap_lo, st.cap_hi), st.queue_size, hhdm_offset)
}

/// The states and actions of start-up steps fed `evs` in turn.
pub open spec fn init_run(st: InitState, evs: Seq<InitEvent>) -> (InitState, Seq<InitAction>)
    decreases evs.len(),
{
    if evs.len() == 0 {
        (st, Seq::empty())
    } else {
        let (s1, a1) = init_next(st, evs[0]);
        let (s2, acts) = init_run(s1, evs.drop_first());
        (s2, seq![a1] + acts)
    }
}

/// A start-up of the device at `io` whose writes all go through, whose reads give the
/// features `feat`, the capacity words `lo` and `hi` and a queue size `qs` other than
/// 0, and whose three allocations give `d`, `a` and `u`, makes the legacy VirtIO
/// sequence: status ACKNOWLEDGE, then ACKNOWLEDGE | DRIVER, the features read and none
/// accepted, the capacity read, queue 0 selected and its size read, three frames
/// taken, the queue address set to `d`'s page number, and DRIVER_OK added last.
pub proof fn law_init_sequence(io: u16, feat: u32, lo: u32, hi: u32, qs: u32, d: u64, a: u64, u: u64)
    requires
        qs as u16 != 0,
    ensures
        init_run(fresh_init(io as u32), seq![InitEvent::Wrote, InitEvent::Wrote, InitEvent::Wrote, InitEvent::Read(feat), InitEvent::Wrote,
            InitEvent::Read(lo), InitEvent::Read(hi), InitEvent::Wrote, InitEvent::Read(qs), InitEvent::Frame(Some(d)),
            InitEvent::Frame(Some(a)), InitEvent::Frame(Some(u)), InitEvent::Wrote, InitEvent::Wrote])
        == (InitState { stage: InitStage::Finished, io_base: io, cap_lo: lo, cap_hi: hi, queue_size: qs as u16,
                desc_phys: d, avail_phys: a, used_phys: u, error: InitError::NotIoSpace },
            seq![
                InitAction::Out8(port_of(io, REG_DEVICE_STATUS), STATUS_ACKNOWLEDGE),
                InitAction::Out8(port_of(io, REG_DEVICE_STATUS), STATUS_ACKNOWLEDGE | STATUS_DRIVER),
                InitAction::In32(port_of(io, REG_DEVICE_FEATURES)),
                InitAction::Out32(port_of(io, REG_GUEST_FEATURES), 0),
                InitAction::In32(port_of(io, CFG_CAPACITY)),
                InitAction::In32(port_of(io, CFG_CAPACITY_HIGH)),
                InitAction::Out16(port_of(io, REG_QUEUE_SELECT), 0),
                InitAction::In16(port_of(io, REG_QUEUE_SIZE)),
                InitAction::AllocFrame,
                InitAction::AllocFrame,
                InitAction::AllocFrame,
                InitAction::Out32(port_of(io, REG_QUEUE_ADDRESS), (d / 4096) as u32),
                InitAction::Out8(port_of(io, REG_DEVICE_STATUS), STATUS_ACKNOWLEDGE | STATUS_DRIVER | STATUS_DRIVER_OK),
                InitAction::Finish,
            ]),
{
    reveal_with_fuel(init_run, 15);
    assert((io as u32) as u16 == io);
}

/// The outcome of a completed request from the status byte the device wrote.
pub fn request_result(status: u8) -> (r: Result<(), &'static str>)
    ensures
        r is Ok <==> status == 0,
{
    if status != 0 {
        Err("VirtIO block: request failed")
    } else {
        Ok(())
    }
}

} // verus!
