//! The legacy 8259 interrupt controllers, which are remapped and then masked.
use vstd::prelude::*;

verus! {

pub const PIC1_CMD: u16 = 0x20;
pub const PIC1_DATA: u16 = 0x21;
pub const PIC2_CMD: u16 = 0xA0;
pub const PIC2_DATA: u16 = 0xA1;

/// The port writes that turn the legacy controllers off: initialise both (ICW1 to
/// ICW4: vectors 0x20 and 0x28, the second cascaded on line 2, 8086 mode), then mask
/// every line of both.
pub open spec fn disable_writes() -> Seq<(u16, u8)> {
    seq![
        (PIC1_CMD, 0x11u8),
        (PIC2_CMD, 0x11u8),
        (PIC1_DATA, 0x20u8),
        (PIC2_DATA, 0x28u8),
        (PIC1_DATA, 0x04u8),
        (PIC2_DATA, 0x02u8),
        (PIC1_DATA, 0x01u8),
        (PIC2_DATA, 0x01u8),
        (PIC1_DATA, 0xFFu8),
        (PIC2_DATA, 0xFFu8),
    ]
}

/// Disable the legacy controllers: the port writes to make, in order.
pub fn disable() -> (w: Vec<(u16, u8)>)
    ensures
        w@ == disable_writes(),
{
    let mut w: Vec<(u16, u8)> = Vec::new();
    w.push((PIC1_CMD, 0x11));
    w.push((PIC2_CMD, 0x11));
    w.push((PIC1_DATA, 0x20));
    w.push((PIC2_DATA, 0x28));
    w.push((PIC1_DATA, 0x04));
    w.push((PIC2_DATA, 0x02));
    w.push((PIC1_DATA, 0x01));
    w.push((PIC2_DATA, 0x01));
    w.push((PIC1_DATA, 0xFF));
    w.push((PIC2_DATA, 0xFF));
    assert(w@ =~= disable_writes());
    w
}

} // verus!
