//! PS/2 keyboard: scan code set 1 translation, modifier state and the input ring.
use vstd::prelude::*;

verus! {

/// Size of the keyboard ring buffer; it holds at most one byte less.
pub const KBD_BUF_SIZE: usize = 256;

/// Scan codes of the modifier keys.
pub const SC_LEFT_SHIFT: u8 = 0x2A;
pub const SC_RIGHT_SHIFT: u8 = 0x36;
pub const SC_LEFT_CTRL: u8 = 0x1D;
pub const SC_CAPS_LOCK: u8 = 0x3A;

/// The (unshifted, shifted) characters of a key of scan code set 1.
pub open spec fn key_table(code: u8) -> Option<(char, char)> {
    match code {
        0x02 => Some(('1', '!')),
        0x03 => Some(('2', '@')),
        0x04 => Some(('3', '#')),
        0x05 => Some(('4', '$')),
        0x06 => Some(('5', '%')),
        0x07 => Some(('6', '^')),
        0x08 => Some(('7', '&')),
        0x09 => Some(('8', '*')),
        0x0A => Some(('9', '(')),
        0x0B => Some(('0', ')')),
        0x0C => Some(('-', '_')),
        0x0D => Some(('=', '+')),
        0x0E => Some(('\x08', '\x08')),
        0x0F => Some(('\t', '\t')),
        0x10 => Some(('q', 'Q')),
        0x11 => Some(('w', 'W')),
        0x12 => Some(('e', 'E')),
        0x13 => Some(('r', 'R')),
        0x14 => Some(('t', 'T')),
        0x15 => Some(('y', 'Y')),
        0x16 => Some(('u', 'U')),
        0x17 => Some(('i', 'I')),
        0x18 => Some(('o', 'O')),
        0x19 => Some(('p', 'P')),
        0x1A => Some(('[', '{')),
        0x1B => Some((']', '}')),
        0x1C => Some(('\n', '\n')),
        0x1E => Some(('a', 'A')),
        0x1F => Some(('s', 'S')),
        0x20 => Some(('d', 'D')),
        0x21 => Some(('f', 'F')),
        0x22 => Some(('g', 'G')),
        0x23 => Some(('h', 'H')),
        0x24 => Some(('j', 'J')),
        0x25 => Some(('k', 'K')),
        0x26 => Some(('l', 'L')),
        0x27 => Some((';', ':')),
        0x28 => Some(('\'', '"')),
        0x29 => Some(('`', '~')),
        0x2B => Some(('\\', '|')),
        0x2C => Some(('z', 'Z')),
        0x2D => Some(('x', 'X')),
        0x2E => Some(('c', 'C')),
        0x2F => Some(('v', 'V')),
        0x30 => Some(('b', 'B')),
        0x31 => Some(('n', 'N')),
        0x32 => Some(('m', 'M')),
        0x33 => Some((',', '<')),
        0x34 => Some(('.', '>')),
        0x35 => Some(('/', '?')),
        0x39 => Some((' ', ' ')),
        _ => None,
    }
}

pub open spec fn is_ascii_lower(c: char) -> bool {
    'a' <= c <= 'z'
}

pub open spec fn is_ascii_upper(c: char) -> bool {
    'A' <= c <= 'Z'
}

pub open spec fn is_ascii_letter(c: char) -> bool {
    is_ascii_lower(c) || is_ascii_upper(c)
}

/// The character of a key press: letters take the shifted form when exactly one of
/// shift and caps lock is on, other keys when shift is on.
pub open spec fn ascii_of(code: u8, shift: bool, caps: bool) -> Option<char> {
    match key_table(code) {
        Some((lower, upper)) => {
            let use_upper = if is_ascii_letter(lower) { shift != caps } else { shift };
            Some(if use_upper { upper } else { lower })
        },
        None => None,
    }
}

fn key_pair(code: u8) -> (r: Option<(char, char)>)
    ensures
        r == key_table(code),
{
    match code {
        0x02 => Some(('1', '!')),
        0x03 => Some(('2', '@')),
        0x04 => Some(('3', '#')),
        0x05 => Some(('4', '$')),
        0x06 => Some(('5', '%')),
        0x07 => Some(('6', '^')),
        0x08 => Some(('7', '&')),
        0x09 => Some(('8', '*')),
        0x0A => Some(('9', '(')),
        0x0B => Some(('0', ')')),
        0x0C => Some(('-', '_')),
        0x0D => Some(('=', '+')),
        0x0E => Some(('\x08', '\x08')),
        0x0F => Some(('\t', '\t')),
        0x10 => Some(('q', 'Q')),
        0x11 => Some(('w', 'W')),
        0x12 => Some(('e', 'E')),
        0x13 => Some(('r', 'R')),
        0x14 => Some(('t', 'T')),
        0x15 => Some(('y', 'Y')),
        0x16 => Some(('u', 'U')),
        0x17 => Some(('i', 'I')),
        0x18 => Some(('o', 'O')),
        0x19 => Some(('p', 'P')),
        0x1A => Some(('[', '{')),
        0x1B => Some((']', '}')),
        0x1C => Some(('\n', '\n')),
        0x1E => Some(('a', 'A')),
        0x1F => Some(('s', 'S')),
        0x20 => Some(('d', 'D')),
        0x21 => Some(('f', 'F')),
        0x22 => Some(('g', 'G')),
        0x23 => Some(('h', 'H')),
        0x24 => Some(('j', 'J')),
        0x25 => Some(('k', 'K')),
        0x26 => Some(('l', 'L')),
        0x27 => Some((';', ':')),
        0x28 => Some(('\'', '"')),
        0x29 => Some(('`', '~')),
        0x2B => Some(('\\', '|')),
        0x2C => Some(('z', 'Z')),
        0x2D => Some(('x', 'X')),
        0x2E => Some(('c', 'C')),
        0x2F => Some(('v', 'V')),
        0x30 => Some(('b', 'B')),
        0x31 => Some(('n', 'N')),
        0x32 => Some(('m', 'M')),
        0x33 => Some((',', '<')),
        0x34 => Some(('.', '>')),
        0x35 => Some(('/', '?')),
        0x39 => Some((' ', ' ')),
        _ => None,
    }
}

/// Translate a scan code of set 1 (without the release bit) to ASCII.
pub fn scancode_to_ascii(code: u8, shift: bool, caps: bool) -> (r: Option<char>)
    ensures
        r == ascii_of(code, shift, caps),
{
    match key_pair(code) {
        Some((lower, upper)) => {
            let alpha = ('a' <= lower && lower <= 'z') || ('A' <= lower && lower <= 'Z');
            let use_upper = if alpha { shift != caps } else { shift };
            Some(if use_upper { upper } else { lower })
        },
        None => None,
    }
}

/// The byte a character gives with Ctrl held: letters become 1..26, others stay.
pub open spec fn ctrl_byte(c: char) -> u8 {
    if is_ascii_lower(c) {
        (c as u8 - 'a' as u8 + 1) as u8
    } else if is_ascii_upper(c) {
        (c as u8 - 'A' as u8 + 1) as u8
    } else {
        c as u8
    }
}

/// Byte of a key press, before it enters the ring.
fn key_byte(c: char, ctrl: bool) -> (b: u8)
    requires
        (c as u32) < 128,
    ensures
        b == if ctrl { ctrl_byte(c) } else { c as u8 },
{
    let v: u32 = c as u32;
    let byte: u8 = v as u8;
    if ctrl {
        if 'a' <= c && c <= 'z' {
            byte - 97 + 1
        } else if 'A' <= c && c <= 'Z' {
            byte - 65 + 1
        } else {
            byte
        }
    } else {
        byte
    }
}

/// Modifier state and input ring of the keyboard.
pub struct Keyboard {
    pub shift: bool,
    pub ctrl: bool,
    pub caps: bool,
    pub buf: Vec<u8>,
    pub head: usize,
    pub tail: usize,
}

/// Every character of the key table is ASCII.
proof fn lemma_table_ascii(code: u8)
    ensures
        key_table(code) matches Some((l, u)) ==> (l as u32) < 128 && (u as u32) < 128,
{
}

impl Keyboard {
    pub open spec fn wf(&self) -> bool {
        &&& self.buf@.len() == KBD_BUF_SIZE
        &&& self.head < KBD_BUF_SIZE
        &&& self.tail < KBD_BUF_SIZE
    }

    /// Number of buffered bytes.
    pub open spec fn len_spec(&self) -> int {
        (self.head - self.tail + KBD_BUF_SIZE as int) % (KBD_BUF_SIZE as int)
    }

    /// The buffered bytes, oldest first.
    pub open spec fn contents(&self) -> Seq<u8> {
        Seq::new(self.len_spec() as nat, |i: int| self.buf@[(self.tail + i) % (KBD_BUF_SIZE as int)])
    }

    /// No modifier held, caps lock off, empty ring.
    pub fn new() -> (k: Self)
        ensures
            k.wf(),
            !k.shift && !k.ctrl && !k.caps,
            k.contents() == Seq::<u8>::empty(),
    {
        let mut buf: Vec<u8> = Vec::new();
        while buf.len() < KBD_BUF_SIZE
            invariant
                buf@.len() <= KBD_BUF_SIZE,
            decreases KBD_BUF_SIZE - buf@.len(),
        {
            buf.push(0);
        }
        let k = Keyboard { shift: false, ctrl: false, caps: false, buf, head: 0, tail: 0 };
        assert(k.contents() =~= Seq::<u8>::empty());
        k
    }

    /// Append a byte unless the ring is full (holding `KBD_BUF_SIZE - 1` bytes).
    pub fn buf_push(&mut self, ch: u8)
        requires
            old(self).wf(),
        ensures
            final(self).wf(),
            final(self).shift == old(self).shift,
            final(self).ctrl == old(self).ctrl,
            final(self).caps == old(self).caps,
            final(self).contents() == if old(self).contents().len() < KBD_BUF_SIZE - 1 {
                old(self).contents().push(ch)
            } else {
                old(self).contents()
            },
    {
        let next = (self.head + 1) % KBD_BUF_SIZE;
        if next != self.tail {
            let ghost before = self.contents();
            self.buf.set(self.head, ch);
            self.head = next;
            assert(self.contents() =~= before.push(ch)) by {
                assert forall|i: int| 0 <= i < before.len() implies #[trigger] self.contents()[i] == before[i] by {
                    assert((self.tail + i) % 256 != old(self).head as int);
                }
                assert((self.tail + before.len()) % 256 == old(self).head as int);
            }
        } else {
            assert(old(self).contents().len() == KBD_BUF_SIZE - 1);
        }
    }

    /// Take the oldest byte, if any.
    pub fn buf_pop(&mut self) -> (r: Option<u8>)
        requires
            old(self).wf(),
        ensures
            final(self).wf(),
            final(self).shift == old(self).shift,
            final(self).ctrl == old(self).ctrl,
            final(self).caps == old(self).caps,
            old(self).contents().len() == 0 ==> r is None && final(self).contents() == old(self).contents(),
            old(self).contents().len() > 0 ==> r == Some(old(self).contents()[0])
                && final(self).contents() == old(self).contents().drop_first(),
    {
        if self.tail == self.head {
            return None;
        }
        let ch = self.buf[self.tail];
        let ghost before = self.contents();
        self.tail = (self.tail + 1) % KBD_BUF_SIZE;
        assert(self.contents() =~= before.drop_first()) by {
            assert forall|i: int| 0 <= i < self.contents().len() implies #[trigger] self.contents()[i] == before[i + 1] by {
                assert((self.tail + i) % 256 == (old(self).tail + i + 1) % 256);
            }
        }
        Some(ch)
    }

    /// The state after a scan code arrives: modifier keys change the modifier state,
    /// a released key does nothing else, and a pressed key with a character appends its
    /// byte to the ring (Ctrl turns letters into 1..26).
    pub fn handle_scancode(&mut self, scancode: u8)
        requires
            old(self).wf(),
        ensures
            final(self).wf(),
            ({
                let released = scancode >= 0x80;
                let code = (scancode % 0x80) as u8;
                if code == SC_LEFT_SHIFT || code == SC_RIGHT_SHIFT {
                    &&& final(self).shift == !released
                    &&& final(self).ctrl == old(self).ctrl && final(self).caps == old(self).caps
                    &&& final(self).contents() == old(self).contents()
                } else if code == SC_LEFT_CTRL {
                    &&& final(self).ctrl == !released
                    &&& final(self).shift == old(self).shift && final(self).caps == old(self).caps
                    &&& final(self).contents() == old(self).contents()
                } else if code == SC_CAPS_LOCK && !released {
                    &&& final(self).caps == !old(self).caps
                    &&& final(self).shift == old(self).shift && final(self).ctrl == old(self).ctrl
                    &&& final(self).contents() == old(self).contents()
                } else {
                    &&& final(self).shift == old(self).shift
                    &&& final(self).ctrl == old(self).ctrl
                    &&& final(self).caps == old(self).caps
                    &&& final(self).contents() == match ascii_of(code, old(self).shift, old(self).caps) {
                        Some(c) if !released && old(self).contents().len() < KBD_BUF_SIZE - 1 =>
                            old(self).contents().push(if old(self).ctrl { ctrl_byte(c) } else { c as u8 }),
                        _ => old(self).contents(),
                    }
                }
            }),
    {
        let released = scancode & 0x80 != 0;
        let code = scancode & 0x7F;
        assert(((scancode & 0x80) != 0) == (scancode >= 0x80)) by (bit_vector);
        assert((scancode & 0x7F) == scancode % 0x80) by (bit_vector);
        if code == SC_LEFT_SHIFT || code == SC_RIGHT_SHIFT {
            self.shift = !released;
            return;
        }
        if code == SC_LEFT_CTRL {
            self.ctrl = !released;
            return;
        }
        if code == SC_CAPS_LOCK && !released {
            self.caps = !self.caps;
            return;
        }
        if released {
            return;
        }
        let ch = scancode_to_ascii(code, self.shift, self.caps);
        if let Some(c) = ch {
            proof {
                lemma_table_ascii(code);
            }
            let b = key_byte(c, self.ctrl);
            self.buf_push(b);
        }
    }
}

/// The key buffer is first in, first out: a byte pushed behind others comes out after
/// them, and one pushed into an empty buffer comes out next.
pub proof fn law_keyboard_fifo(q: Seq<u8>, ch: u8)
    ensures
        q.len() == 0 ==> q.push(ch)[0] == ch && q.push(ch).drop_first() == Seq::<u8>::empty(),
        q.len() > 0 ==> q.push(ch)[0] == q[0] && q.push(ch).drop_first() == q.drop_first().push(ch),
{
    assert(q.push(ch).drop_first() =~= if q.len() == 0 { Seq::<u8>::empty() } else { q.drop_first().push(ch) });
}

} // verus!
