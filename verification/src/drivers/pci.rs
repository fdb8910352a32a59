//! PCI configuration space access and bus enumeration.
use vstd::prelude::*;

verus! {

/// Configuration address and data ports.
pub const PCI_CONFIG_ADDR: u16 = 0xCF8;
pub const PCI_CONFIG_DATA: u16 = 0xCFC;

/// Vendor id of an absent device.
pub const NO_VENDOR: u16 = 0xFFFF;

/// virtio identifiers.
pub const VIRTIO_VENDOR: u16 = 0x1AF4;
pub const VIRTIO_BLOCK_DEVICE: u16 = 0x1001;

/// Port access to the configuration mechanism: the value at a configuration address.
pub trait ConfigSpace {
    fn read32(&mut self, address: u32) -> u32;
    fn write32(&mut self, address: u32, value: u32);
}

/// A PCI function.
#[derive(Debug, Clone)]
pub struct PciDevice {
    pub bus: u8,
    pub device: u8,
    pub function: u8,
    pub vendor_id: u16,
    pub device_id: u16,
    pub class: u8,
    pub subclass: u8,
    pub prog_if: u8,
    pub header_type: u8,
    pub bar: [u32; 6],
    pub interrupt_line: u8,
}

/// The configuration address of a register: enable bit, bus, device, function and
/// the dword-aligned offset.
pub open spec fn config_address_spec(bus: u8, device: u8, function: u8, offset: u8) -> u32 {
    0x8000_0000u32 | ((bus as u32) << 16u32) | ((device as u32) << 11u32) | ((function as u32) << 8u32)
        | ((offset as u32) & 0xFC)
}

pub fn config_address(bus: u8, device: u8, function: u8, offset: u8) -> (a: u32)
    ensures
        a == config_address_spec(bus, device, function, offset),
{
    0x8000_0000u32 | ((bus as u32) << 16) | ((device as u32) << 11) | ((function as u32) << 8) | ((offset as u32) & 0xFC)
}

/// Read a configuration dword.
pub fn config_read32<C: ConfigSpace>(c: &mut C, bus: u8, device: u8, function: u8, offset: u8) -> u32 {
    c.read32(config_address(bus, device, function, offset))
}

/// Write a configuration dword.
pub fn config_write32<C: ConfigSpace>(c: &mut C, bus: u8, device: u8, function: u8, offset: u8, value: u32) {
    c.write32(config_address(bus, device, function, offset), value)
}

/// The 16-bit half of a configuration dword that `offset` selects.
pub open spec fn half_of(val: u32, offset: u8) -> u16 {
    ((val >> (((offset & 2) * 8) as u32)) & 0xFFFF) as u16
}

pub fn extract16(val: u32, offset: u8) -> (r: u16)
    ensures
        r == half_of(val, offset),
{
    let sel = offset & 2;
    assert(sel <= 2) by (bit_vector)
        requires
            sel == offset & 2,
    ;
    let shift = (sel * 8) as u32;
    ((val >> shift) & 0xFFFF) as u16
}

/// Read a configuration word: the dword holding it, then its half.
pub fn config_read16<C: ConfigSpace>(c: &mut C, bus: u8, device: u8, function: u8, offset: u8) -> u16 {
    let val = config_read32(c, bus, device, function, offset & 0xFC);
    extract16(val, offset)
}

/// Dwords of a function's configuration header kept per function.
pub const HEADER_DWORDS: usize = 16;

/// Functions on a bus: 32 slots of 8.
pub const BUS_FUNCTIONS: usize = 256;

/// Dword `reg` of the header of function `k` (slot `k / 8`, function `k % 8`).
pub open spec fn cfg_word(cfg: Seq<u32>, k: int, reg: int) -> u32 {
    cfg[k * 16 + reg]
}

/// The vendor id of function `k`.
pub open spec fn cfg_vendor(cfg: Seq<u32>, k: int) -> u16 {
    half_of(cfg_word(cfg, k, 0), 0)
}

/// The header type byte of function 0 of slot `d`, multi-function bit included.
pub open spec fn slot_header(cfg: Seq<u32>, d: int) -> u8 {
    (cfg_word(cfg, d * 8, 3) >> 16u32) as u8
}

/// Function `k` is listed: its slot's function 0 has a vendor id, and so does the
/// function, which is function 0 or a function of a multi-function device.
pub open spec fn cfg_listed(cfg: Seq<u32>, k: int) -> bool {
    &&& cfg_vendor(cfg, (k / 8) * 8) != NO_VENDOR
    &&& cfg_vendor(cfg, k) != NO_VENDOR
    &&& (k % 8 == 0 || slot_header(cfg, k / 8) & 0x80 != 0)
}

/// The listed functions from `k` on, in order.
pub open spec fn listed_from(cfg: Seq<u32>, k: int) -> Seq<int>
    decreases 256 - k,
{
    if k >= 256 || k < 0 {
        Seq::empty()
    } else if cfg_listed(cfg, k) {
        seq![k] + listed_from(cfg, k + 1)
    } else {
        listed_from(cfg, k + 1)
    }
}

/// The listed functions of a bus, in (slot, function) order.
pub open spec fn listed(cfg: Seq<u32>) -> Seq<int> {
    listed_from(cfg, 0)
}

/// `d` is function `k` decoded from its header.
pub open spec fn decoded(cfg: Seq<u32>, k: int, d: PciDevice) -> bool {
    let cc = cfg_word(cfg, k, 2);
    &&& d.bus == 0
    &&& d.device == k / 8
    &&& d.function == k % 8
    &&& d.vendor_id == cfg_vendor(cfg, k)
    &&& d.device_id == half_of(cfg_word(cfg, k, 0), 2)
    &&& d.class == (cc >> 24u32) as u8
    &&& d.subclass == (cc >> 16u32) as u8
    &&& d.prog_if == (cc >> 8u32) as u8
    &&& d.header_type == slot_header(cfg, k / 8) & 0x7F
    &&& forall|j: int| 0 <= j < 6 ==> #[trigger] d.bar@[j] == cfg_word(cfg, k, 4 + j)
    &&& d.interrupt_line == cfg_word(cfg, k, 15) as u8
}

/// The devices on bus 0, from the headers of its 256 functions (16 dwords each,
/// function `k` at `16 * k`): for each slot whose function 0 has a vendor id,
/// function 0, and functions 1 to 7 too when the header type marks the device
/// multi-function; each function whose vendor id is present is listed, in (slot,
/// function) order. The header type is kept with its multi-function bit masked off.
pub fn devices_from_config(cfg: &Vec<u32>) -> (devices: Vec<PciDevice>)
    requires
        cfg@.len() == BUS_FUNCTIONS * HEADER_DWORDS,
    ensures
        devices@.len() == listed(cfg@).len(),
        forall|i: int| 0 <= i < devices@.len() ==> decoded(cfg@, #[trigger] listed(cfg@)[i], devices@[i]),
{
    let mut devices: Vec<PciDevice> = Vec::new();
    let ghost mut keys: Seq<int> = Seq::empty();
    let mut k: usize = 0;
    while k < BUS_FUNCTIONS
        invariant
            k <= BUS_FUNCTIONS,
            cfg@.len() == BUS_FUNCTIONS * HEADER_DWORDS,
            listed(cfg@) == keys + listed_from(cfg@, k as int),
            devices@.len() == keys.len(),
            forall|i: int| 0 <= i < devices@.len() ==> decoded(cfg@, #[trigger] keys[i], devices@[i]),
        decreases BUS_FUNCTIONS - k,
    {
        let base = (k / 8) * 8;
        let v0 = extract16(cfg[base * 16], 0);
        let raw = (cfg[base * 16 + 3] >> 16) as u8;
        let vendor_id = extract16(cfg[k * 16], 0);
        let take = v0 != NO_VENDOR && vendor_id != NO_VENDOR && (k % 8 == 0 || raw & 0x80 != 0);
        proof {
            assert(take == cfg_listed(cfg@, k as int));
        }
        if take {
            let class_code = cfg[k * 16 + 2];
            let mut bar = [0u32; 6];
            let mut j: usize = 0;
            while j < 6
                invariant
                    j <= 6,
                    k < BUS_FUNCTIONS,
                    cfg@.len() == BUS_FUNCTIONS * HEADER_DWORDS,
                    forall|m: int| 0 <= m < j ==> #[trigger] bar@[m] == cfg_word(cfg@, k as int, 4 + m),
                decreases 6 - j,
            {
                bar[j] = cfg[k * 16 + 4 + j];
                j = j + 1;
            }
            let dev = PciDevice {
                bus: 0,
                device: (k / 8) as u8,
                function: (k % 8) as u8,
                vendor_id,
                device_id: extract16(cfg[k * 16], 2),
                class: (class_code >> 24) as u8,
                subclass: (class_code >> 16) as u8,
                prog_if: (class_code >> 8) as u8,
                header_type: raw & 0x7F,
                bar,
                interrupt_line: cfg[k * 16 + 15] as u8,
            };
            devices.push(dev);
            proof {
                assert(listed_from(cfg@, k as int) == seq![k as int] + listed_from(cfg@, k + 1));
                assert(keys + (seq![k as int] + listed_from(cfg@, k + 1)) =~= keys.push(k as int) + listed_from(cfg@, k + 1));
                keys = keys.push(k as int);
                assert(decoded(cfg@, k as int, dev));
            }
        } else {
            proof {
                assert(listed_from(cfg@, k as int) == listed_from(cfg@, k + 1));
            }
        }
        k = k + 1;
    }
    proof {
        assert(listed_from(cfg@, 256) =~= Seq::<int>::empty());
        assert(keys + Seq::<int>::empty() =~= keys);
    }
    devices
}

/// The listed functions are increasing and lie on the bus.
pub proof fn lemma_listed_sorted(cfg: Seq<u32>, k: int)
    requires
        0 <= k,
    ensures
        forall|i: int| 0 <= i < listed_from(cfg, k).len() ==> k <= #[trigger] listed_from(cfg, k)[i] < 256,
        forall|i: int, j: int| 0 <= i < j < listed_from(cfg, k).len() ==> #[trigger] listed_from(cfg, k)[i] < #[trigger] listed_from(cfg, k)[j],
    decreases 256 - k,
{
    if k < 256 {
        lemma_listed_sorted(cfg, k + 1);
        let rest = listed_from(cfg, k + 1);
        if cfg_listed(cfg, k) {
            let l = listed_from(cfg, k);
            assert(l == seq![k] + rest);
            assert forall|i: int| 0 <= i < l.len() implies k <= #[trigger] l[i] < 256 by {
                if i > 0 {
                    assert(l[i] == rest[i - 1]);
                }
            }
            assert forall|i: int, j: int| 0 <= i < j < l.len() implies #[trigger] l[i] < #[trigger] l[j] by {
                assert(l[j] == rest[j - 1]);
                if i > 0 {
                    assert(l[i] == rest[i - 1]);
                }
            }
        }
    }
}

/// The header dwords of the 256 functions of bus 0, function `k` at `16 * k`.
pub fn read_config_headers<C: ConfigSpace>(c: &mut C) -> (cfg: Vec<u32>)
    ensures
        cfg@.len() == BUS_FUNCTIONS * HEADER_DWORDS,
{
    let mut cfg: Vec<u32> = Vec::new();
    let mut k: usize = 0;
    while k < BUS_FUNCTIONS
        invariant
            k <= BUS_FUNCTIONS,
            cfg@.len() == k * HEADER_DWORDS,
        decreases BUS_FUNCTIONS - k,
    {
        let mut r: usize = 0;
        while r < HEADER_DWORDS
            invariant
                r <= HEADER_DWORDS,
                k < BUS_FUNCTIONS,
                cfg@.len() == k * HEADER_DWORDS + r,
            decreases HEADER_DWORDS - r,
        {
            cfg.push(config_read32(c, 0, (k / 8) as u8, (k % 8) as u8, (r * 4) as u8));
            r = r + 1;
        }
        k = k + 1;
    }
    cfg
}

/// The functions found on bus 0: their headers are read and decoded as
/// `devices_from_config` does.
pub fn enumerate<C: ConfigSpace>(c: &mut C) -> (devices: Vec<PciDevice>)
    ensures
        exists|cfg: Seq<u32>| {
            &&& cfg.len() == BUS_FUNCTIONS * HEADER_DWORDS
            &&& devices@.len() == #[trigger] listed(cfg).len()
            &&& forall|i: int| 0 <= i < devices@.len() ==> decoded(cfg, #[trigger] listed(cfg)[i], devices@[i])
        },
{
    let cfg = read_config_headers(c);
    let devices = devices_from_config(&cfg);
    assert(listed(cfg@).len() == devices@.len());
    devices
}

/// The first device with the given vendor and device ids.
pub fn find_device(devices: &Vec<PciDevice>, vendor: u16, device_id: u16) -> (r: Option<&PciDevice>)
    ensures
        match r {
            Some(d) => exists|i: int| 0 <= i < devices@.len() && devices@[i] == *d
                && d.vendor_id == vendor && d.device_id == device_id
                && forall|j: int| 0 <= j < i ==> !(#[trigger] devices@[j].vendor_id == vendor && devices@[j].device_id == device_id),
            None => forall|j: int| 0 <= j < devices@.len() ==> !(#[trigger] devices@[j].vendor_id == vendor && devices@[j].device_id == device_id),
        },
{
    let mut i: usize = 0;
    while i < devices.len()
        invariant
            i <= devices@.len(),
            forall|j: int| 0 <= j < i ==> !(#[trigger] devices@[j].vendor_id == vendor && devices@[j].device_id == device_id),
        decreases devices@.len() - i,
    {
        if devices[i].vendor_id == vendor && devices[i].device_id == device_id {
            return Some(&devices[i]);
        }
        i = i + 1;
    }
    None
}

} // verus!
