//! 16550 UART on COM1: line setup and output encoding.
use vstd::prelude::*;

verus! {

/// COM1 base port.
pub const COM1: u16 = 0x3F8;

/// A UART at a base port.
pub struct Serial {
    pub port: u16,
}

/// The bytes sent for `s`: each line feed preceded by a carriage return.
pub open spec fn serial_bytes(s: Seq<u8>) -> Seq<u8>
    decreases s.len(),
{
    if s.len() == 0 {
        Seq::empty()
    } else {
        let rest = serial_bytes(s.drop_last());
        if s.last() == 10 { rest.push(13).push(10) } else { rest.push(s.last()) }
    }
}

impl Serial {
    pub fn new(port: u16) -> (s: Self)
        ensures
            s.port == port,
    {
        Serial { port }
    }

    /// The port writes that set the line up: interrupts off, 115200 baud (divisor 1),
    /// 8N1, FIFOs on, loopback test byte 0xAE, then normal operation.
    pub fn init(&self) -> (w: Vec<(u16, u8)>)
        requires
            self.port <= 0xFFFF - 5,
        ensures
            w@ == seq![
                ((self.port + 1) as u16, 0x00u8),
                ((self.port + 3) as u16, 0x80u8),
                (self.port, 0x01u8),
                ((self.port + 1) as u16, 0x00u8),
                ((self.port + 3) as u16, 0x03u8),
                ((self.port + 2) as u16, 0xC7u8),
                ((self.port + 4) as u16, 0x0Bu8),
                ((self.port + 4) as u16, 0x1Eu8),
                (self.port, 0xAEu8),
                ((self.port + 4) as u16, 0x0Fu8),
            ],
    {
        let p = self.port;
        let mut w: Vec<(u16, u8)> = Vec::new();
        w.push((p + 1, 0x00));
        w.push((p + 3, 0x80));
        w.push((p, 0x01));
        w.push((p + 1, 0x00));
        w.push((p + 3, 0x03));
        w.push((p + 2, 0xC7));
        w.push((p + 4, 0x0B));
        w.push((p + 4, 0x1E));
        w.push((p, 0xAE));
        w.push((p + 4, 0x0F));
        w
    }

    /// The line status port, polled before each byte.
    pub fn line_status_port(&self) -> (p: u16)
        requires
            self.port <= 0xFFFF - 5,
        ensures
            p == self.port + 5,
    {
        self.port + 5
    }

    /// One step of sending `byte`: the port write once the line status shows the
    /// transmit register empty, else `None` (poll again).
    pub fn write_byte(&self, line_status: u8, byte: u8) -> (w: Option<(u16, u8)>)
        ensures
            line_status & 0x20 != 0 ==> w == Some((self.port, byte)),
            line_status & 0x20 == 0 ==> w is None,
    {
        if transmit_ready(line_status) {
            Some((self.port, byte))
        } else {
            None
        }
    }

    /// The bytes written for a string: line feeds become CR LF.
    pub fn write_str_serial(&self, s: &[u8]) -> (out: Vec<u8>)
        ensures
            out@ == serial_bytes(s@),
    {
        let mut out: Vec<u8> = Vec::new();
        let mut i: usize = 0;
        while i < s.len()
            invariant
                i <= s@.len(),
                out@ == serial_bytes(s@.take(i as int)),
            decreases s@.len() - i,
        {
            proof {
                assert(s@.take(i + 1).drop_last() =~= s@.take(i as int));
            }
            if s[i] == 10 {
                out.push(13);
            }
            out.push(s[i]);
            i = i + 1;
        }
        assert(s@.take(s@.len() as int) =~= s@);
        out
    }
}

/// Whether the transmit holding register is empty, from the line status register.
pub fn transmit_ready(line_status: u8) -> (r: bool)
    ensures
        r == (line_status & 0x20 != 0),
{
    line_status & 0x20 != 0
}

} // verus!
