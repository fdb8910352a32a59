//! The shell's builtin commands. Each gives the text it prints; those that touch
//! files work on the mounted file systems, and the working directory is kept here.
use vstd::prelude::*;
use vstd::string::{StrSliceExecFns, StringExecFns};
use vstd::utf8::encode_utf8;
use crate::entropy::chacha20::{ChaCha20Rng, EntropySource};
use crate::errno::Errno;
use crate::fs::namespace::{Namespace, NodeRef};
use crate::fs::path::{normalize, normalize_spec, parent, parent_spec, basename, basename_spec};
use crate::fs::tmpfs::read_at;
use crate::fs::vfs::{DirEntry, InodeType};
use crate::ipc::pipe::Pipe;
use crate::log::KernelLog;
use crate::memory::pmm::Pmm;
use crate::shell::strings_view;
use crate::text::{decimal, digits, pad_with, ascii, push_decimal, push_ascii, push_utf8, push_digits, push_padded, push_all, digits_of};

verus! {

/// The help text.
pub const HELP_TEXT: &'static str = "Available commands:\n  help              Show this help\n  echo [args...]    Print arguments\n  ls [path]         List directory contents\n  cat <file>        Print file contents\n  mkdir <dir>       Create directory\n  touch <file>      Create empty file\n  rm <file>         Remove file\n  write <file> <text> Write text to file\n  pwd               Print working directory\n  cd <dir>          Change directory\n  stat <path>       Show file information\n  free              Show memory usage\n  uptime            Show system uptime\n  uname             Show system information\n  ps                Show running tasks\n  hexdump <file>    Hex dump of file\n  dmesg             Show kernel log\n  clear             Clear screen\n  pipe-test         Test pipe IPC\n  stress [test]     Run stress tests (alloc, vfs, pipe, all)\n  shutdown          Power off\n  reboot            Restart\n";

/// Bytes `cat` reads at a time.
pub const CAT_CHUNK: usize = 4096;

/// Bytes `hexdump` shows.
pub const HEXDUMP_BYTES: usize = 256;

/// Bytes of the log `dmesg` shows.
pub const DMESG_BYTES: usize = 4096;

/// The shell's state: its working directory.
pub struct Shell {
    pub cwd: String,
}

/// UTF-8 bytes of a text.
pub open spec fn utf8(s: Seq<char>) -> Seq<u8> {
    encode_utf8(s)
}

/// "cmd: path: ERROR\n".
pub open spec fn err_line(cmd: Seq<char>, path: Seq<char>, e: Errno) -> Seq<u8> {
    utf8(cmd) + ascii(": "@) + utf8(path) + ascii(": "@) + ascii(e.name_spec()) + seq![10u8]
}

/// The full path an argument names from working directory `cwd`.
pub open spec fn resolve_path_spec(cwd: Seq<char>, path: Seq<char>) -> Seq<char> {
    if path.len() > 0 && path[0] == '/' {
        normalize_spec(path)
    } else if cwd == seq!['/'] {
        normalize_spec(seq!['/'] + path)
    } else {
        normalize_spec(cwd + seq!['/'] + path)
    }
}

/// Words joined by single spaces.
pub open spec fn joined(ws: Seq<Seq<char>>) -> Seq<u8>
    decreases ws.len(),
{
    if ws.len() == 0 {
        Seq::empty()
    } else if ws.len() == 1 {
        utf8(ws[0])
    } else {
        joined(ws.drop_last()) + seq![32u8] + utf8(ws.last())
    }
}

/// The one-letter type `ls` shows.
pub open spec fn type_char(t: InodeType) -> u8 {
    match t {
        InodeType::Directory => 100,
        InodeType::File => 45,
        InodeType::CharDevice => 99,
        InodeType::BlockDevice => 98,
        InodeType::Symlink => 108,
        InodeType::Pipe => 112,
    }
}

/// The lines of a directory listing: type letter, two spaces, name.
pub open spec fn ls_text(es: Seq<DirEntry>) -> Seq<u8>
    decreases es.len(),
{
    if es.len() == 0 {
        Seq::empty()
    } else {
        ls_text(es.drop_last()) + seq![type_char(es.last().inode_type), 32u8, 32u8] + utf8(es.last().name@) + seq![10u8]
    }
}

/// A size in KiB as `free` shows it: whole MiB from 1024 KiB on.
pub open spec fn kb_text(kb: nat) -> Seq<u8> {
    if kb >= 1024 {
        decimal(kb / 1024) + ascii(" MiB"@)
    } else {
        decimal(kb) + ascii(" KiB"@)
    }
}

/// The text of `uptime`.
pub open spec fn uptime_line(ticks: u64) -> Seq<u8> {
    let secs = ticks / 1000;
    let mins = secs / 60;
    let hours = mins / 60;
    if hours > 0 {
        ascii("up "@) + decimal(hours as nat) + ascii("h "@) + decimal((mins % 60) as nat) + ascii("m "@)
            + decimal((secs % 60) as nat) + ascii("s\n"@)
    } else if mins > 0 {
        ascii("up "@) + decimal(mins as nat) + ascii("m "@) + decimal((secs % 60) as nat) + ascii("s\n"@)
    } else {
        ascii("up "@) + decimal(secs as nat) + ascii("s\n"@)
    }
}

/// The text of `free` for frame counts.
pub open spec fn free_text(total: nat, free: nat) -> Seq<u8> {
    let t = total * 4;
    let f = free * 4;
    ascii("              total       used       free\n"@) + ascii("Mem:    "@)
        + pad_with(kb_text(t), 10, 32) + seq![32u8] + pad_with(kb_text((t - f) as nat), 10, 32) + seq![32u8]
        + pad_with(kb_text(f), 10, 32) + seq![10u8]
}

/// Printable in a hex dump: a graphic ASCII character or a space.
pub open spec fn shown(b: u8) -> u8 {
    if 0x21 <= b <= 0x7E || b == 32 {
        b
    } else {
        46
    }
}

/// The hex part of a hex dump line: each byte in two digits and a space, an extra
/// space after the eighth column, blanks for missing bytes.
pub open spec fn hex_cols(chunk: Seq<u8>, j: nat) -> Seq<u8>
    decreases 16 - j,
{
    if j >= 16 {
        Seq::empty()
    } else {
        let cell = if j < chunk.len() {
            pad_with(digits(chunk[j as int] as nat, 16), 2, 48) + seq![32u8]
        } else {
            seq![32u8, 32u8, 32u8]
        };
        cell + (if j == 7 { seq![32u8] } else { Seq::empty() }) + hex_cols(chunk, j + 1)
    }
}

/// One hex dump line: offset in eight hex digits, the hex columns, the characters.
pub open spec fn hex_line(off: nat, chunk: Seq<u8>) -> Seq<u8> {
    pad_with(digits(off, 16), 8, 48) + seq![32u8, 32u8] + hex_cols(chunk, 0) + seq![32u8, 124u8]
        + chunk.map_values(|b: u8| shown(b)) + seq![124u8, 10u8]
}

/// A hex dump of `data`, sixteen bytes a line.
pub open spec fn hexdump_text(data: Seq<u8>) -> Seq<u8>
    decreases data.len(),
{
    if data.len() == 0 {
        Seq::empty()
    } else {
        let n = (data.len() - 1) / 16 * 16;
        hexdump_text(data.take(n as int)) + hex_line(n as nat, data.skip(n as int))
    }
}

/// The stress tests to run.
#[derive(Debug, Clone, Copy, PartialEq, Eq, Structural)]
pub enum StressTest {
    Alloc,
    Vfs,
    Pipe,
}

/// The help text.
pub fn help() -> (out: Vec<u8>)
    ensures
        out@ == ascii(HELP_TEXT@),
{
    let mut out: Vec<u8> = Vec::new();
    push_ascii(&mut out, HELP_TEXT);
    assert(out@ =~= ascii(HELP_TEXT@));
    out
}

/// The arguments joined by spaces, on a line.
pub fn echo(args: &Vec<String>) -> (out: Vec<u8>)
    ensures
        out@ == joined(strings_view(args@)) + seq![10u8],
{
    let mut out: Vec<u8> = Vec::new();
    let mut i: usize = 0;
    let ghost ws = strings_view(args@);
    while i < args.len()
        invariant
            i <= args@.len(),
            ws == strings_view(args@),
            out@ == joined(ws.take(i as int)),
        decreases args@.len() - i,
    {
        proof {
            assert(ws.take(i + 1).drop_last() =~= ws.take(i as int));
        }
        if i > 0 {
            out.push(32);
        }
        push_utf8(&mut out, args[i].as_str());
        proof {
            assert(ws.take(i + 1).last() == args@[i as int]@);
            if i == 0 {
                assert(out@ =~= joined(ws.take(1)));
            } else {
                assert(out@ =~= joined(ws.take(i + 1)));
            }
        }
        i = i + 1;
    }
    assert(ws.take(args@.len() as int) =~= ws);
    out.push(10);
    out
}

/// The system name line.
pub fn uname() -> (out: Vec<u8>)
    ensures
        out@ == ascii("LogOS 0.1.0 x86_64\n"@),
{
    let mut out: Vec<u8> = Vec::new();
    push_ascii(&mut out, "LogOS 0.1.0 x86_64\n");
    assert(out@ =~= ascii("LogOS 0.1.0 x86_64\n"@));
    out
}

/// The task table: only the kernel runs.
pub fn ps() -> (out: Vec<u8>)
    ensures
        out@ == ascii("  PID  STATE    NAME\n"@) + ascii("    1  running  kernel\n"@),
{
    let mut out: Vec<u8> = Vec::new();
    push_ascii(&mut out, "  PID  STATE    NAME\n");
    push_ascii(&mut out, "    1  running  kernel\n");
    out
}

/// The escape sequence that clears the terminal and homes the cursor.
pub fn clear() -> (out: Vec<u8>)
    ensures
        out@ == seq![27u8, 91, 50, 74, 27, 91, 72],
{
    vec![27u8, 91, 50, 74, 27, 91, 72]
}

/// The uptime line for a tick count in milliseconds.
pub fn uptime(ticks: u64) -> (out: Vec<u8>)
    ensures
        out@ == uptime_line(ticks),
{
    let secs = ticks / 1000;
    let mins = secs / 60;
    let hours = mins / 60;
    let mut out: Vec<u8> = Vec::new();
    push_ascii(&mut out, "up ");
    if hours > 0 {
        push_decimal(&mut out, hours);
        push_ascii(&mut out, "h ");
        push_decimal(&mut out, mins % 60);
        push_ascii(&mut out, "m ");
        push_decimal(&mut out, secs % 60);
    } else if mins > 0 {
        push_decimal(&mut out, mins);
        push_ascii(&mut out, "m ");
        push_decimal(&mut out, secs % 60);
    } else {
        push_decimal(&mut out, secs);
    }
    push_ascii(&mut out, "s\n");
    assert(out@ =~= uptime_line(ticks));
    out
}

/// A size in KiB: whole MiB from 1024 KiB on, else KiB.
pub fn format_kb(kb: u64) -> (out: Vec<u8>)
    ensures
        out@ == kb_text(kb as nat),
{
    let mut out: Vec<u8> = Vec::new();
    if kb >= 1024 {
        push_decimal(&mut out, kb / 1024);
        push_ascii(&mut out, " MiB");
    } else {
        push_decimal(&mut out, kb);
        push_ascii(&mut out, " KiB");
    }
    assert(out@ =~= kb_text(kb as nat));
    out
}

/// Memory use: total, used and free, in ten-column fields.
pub fn free(pmm: &Pmm) -> (out: Vec<u8>)
    requires
        pmm.total_frames * 4 <= u64::MAX,
        pmm.free_frames <= pmm.total_frames,
    ensures
        out@ == free_text(pmm.total_frames as nat, pmm.free_frames as nat),
{
    let total = pmm.total_frames() * 4;
    let freekb = pmm.free_frames() * 4;
    let used = total - freekb;
    let mut out: Vec<u8> = Vec::new();
    push_ascii(&mut out, "              total       used       free\n");
    push_ascii(&mut out, "Mem:    ");
    push_padded(&mut out, &format_kb(total), 10, 32);
    out.push(32);
    push_padded(&mut out, &format_kb(used), 10, 32);
    out.push(32);
    push_padded(&mut out, &format_kb(freekb), 10, 32);
    out.push(10);
    assert(out@ =~= free_text(pmm.total_frames as nat, pmm.free_frames as nat));
    out
}

/// Append the hex columns `j..16` of a hex dump line.
fn push_hex_cols(out: &mut Vec<u8>, chunk: &[u8], j: usize)
    requires
        j <= 16,
        chunk@.len() <= 16,
    ensures
        final(out)@ == old(out)@ + hex_cols(chunk@, j as nat),
    decreases 16 - j,
{
    if j >= 16 {
        assert(final(out)@ =~= old(out)@ + hex_cols(chunk@, j as nat));
        return;
    }
    if j < chunk.len() {
        let d = digits_of(chunk[j] as u64, 16);
        push_padded(out, &d, 2, 48);
        out.push(32);
    } else {
        out.push(32);
        out.push(32);
        out.push(32);
    }
    if j == 7 {
        out.push(32);
    }
    let ghost mid = out@;
    push_hex_cols(out, chunk, j + 1);
    assert(final(out)@ =~= old(out)@ + hex_cols(chunk@, j as nat));
}

/// A hex dump of `data`, sixteen bytes a line.
pub fn hexdump_lines(data: &[u8]) -> (out: Vec<u8>)
    ensures
        out@ == hexdump_text(data@),
{
    let mut out: Vec<u8> = Vec::new();
    let mut start: usize = 0;
    assert(data@.take(0) =~= Seq::<u8>::empty());
    while start < data.len()
        invariant
            start <= data@.len(),
            start % 16 == 0 || start == data@.len(),
            out@ == hexdump_text(data@.take(start as int)),
        decreases data@.len() - start,
    {
        let end = if data.len() - start < 16 { data.len() } else { start + 16 };
        let chunk = slice_range(data, start, end);
        let ghost before = out@;
        push_hex_line(&mut out, start as u64, chunk);
        proof {
            lemma_hexdump_step(data@, start as int, end as int);
        }
        start = end;
    }
    assert(data@.take(data@.len() as int) =~= data@);
    out
}

/// Append one hex dump line.
fn push_hex_line(out: &mut Vec<u8>, off: u64, chunk: &[u8])
    requires
        chunk@.len() <= 16,
    ensures
        final(out)@ == old(out)@ + hex_line(off as nat, chunk@),
{
    push_digits_padded_hex(out, off);
    out.push(32);
    out.push(32);
    push_hex_cols(out, chunk, 0);
    out.push(32);
    out.push(124);
    let mut k: usize = 0;
    let ghost before = out@;
    while k < chunk.len()
        invariant
            k <= chunk@.len(),
            out@ == before + chunk@.take(k as int).map_values(|b: u8| shown(b)),
        decreases chunk@.len() - k,
    {
        let b = chunk[k];
        let c: u8 = if (0x21 <= b && b <= 0x7E) || b == 32 { b } else { 46 };
        out.push(c);
        proof {
            assert(chunk@.take(k + 1).map_values(|b: u8| shown(b))
                =~= chunk@.take(k as int).map_values(|b: u8| shown(b)).push(c));
        }
        k = k + 1;
    }
    assert(chunk@.take(chunk@.len() as int) =~= chunk@);
    out.push(124);
    out.push(10);
    assert(final(out)@ =~= old(out)@ + hex_line(off as nat, chunk@));
}

proof fn lemma_hexdump_step(data: Seq<u8>, start: int, end: int)
    requires
        0 <= start < end <= data.len(),
        end <= start + 16,
        start % 16 == 0,
    ensures
        hexdump_text(data.take(end)) == hexdump_text(data.take(start)) + hex_line(start as nat, data.subrange(start, end)),
{
    let t = data.take(end);
    assert(((t.len() - 1) / 16 * 16) == start) by (nonlinear_arith)
        requires
            t.len() == end,
            start < end <= start + 16,
            start % 16 == 0,
    ;
    assert(t.take(start) =~= data.take(start));
    assert(t.skip(start) =~= data.subrange(start, end));
}

/// `s[from..to]`.
fn slice_range(s: &[u8], from: usize, to: usize) -> (r: &[u8])
    requires
        from <= to <= s@.len(),
    ensures
        r@ == s@.subrange(from as int, to as int),
{
    vstd::slice::slice_subrange(s, from, to)
}

/// Append `n` as eight hex digits (more when it needs them).
fn push_digits_padded_hex(out: &mut Vec<u8>, n: u64)
    ensures
        final(out)@ == old(out)@ + pad_with(digits(n as nat, 16), 8, 48),
{
    let d = digits_of(n, 16);
    push_padded(out, &d, 8, 48);
}

/// The last part of the kernel log, up to 4096 bytes.
pub fn dmesg(log: &KernelLog) -> (out: Vec<u8>)
    requires
        log.wf(),
    ensures
        out@ == log.contents().take(if log.len < DMESG_BYTES { log.len as int } else { DMESG_BYTES as int }),
{
    let mut buf: Vec<u8> = vec![0u8; DMESG_BYTES];
    let n = log.read(&mut buf);
    buf.truncate(n);
    assert(buf@ =~= log.contents().take(n as int));
    buf
}

/// The shutdown message and the port write that powers the machine off.
pub fn shutdown() -> (r: (Vec<u8>, (u16, u16)))
    ensures
        r.0@ == ascii("Shutting down...\n"@),
        r.1 == (0x604u16, 0x2000u16),
{
    let mut out: Vec<u8> = Vec::new();
    push_ascii(&mut out, "Shutting down...\n");
    assert(out@ =~= ascii("Shutting down...\n"@));
    (out, (0x604, 0x2000))
}

/// The reboot message and the port write that pulses the reset line.
pub fn reboot() -> (r: (Vec<u8>, (u16, u8)))
    ensures
        r.0@ == ascii("Rebooting...\n"@),
        r.1 == (0x64u16, 0xFEu8),
{
    let mut out: Vec<u8> = Vec::new();
    push_ascii(&mut out, "Rebooting...\n");
    assert(out@ =~= ascii("Rebooting...\n"@));
    (out, (0x64, 0xFE))
}

/// Write a message through a new pipe, read it back, close the write end and read
/// end of file; true when every step gives what it should (always, as proved here).
pub fn pipe_test() -> (ok: bool)
    ensures
        ok,
{
    let (mut pipe, reader, writer) = Pipe::create();
    let data: Vec<u8> = vec![72u8, 101, 108, 108, 111, 32, 116, 104, 114, 111, 117, 103, 104, 32, 116, 104, 101, 32, 112, 105, 112, 101, 33];
    let written = writer.write(&mut pipe, data.as_slice());
    let mut buf: Vec<u8> = vec![0u8; 64];
    let read = reader.read(&mut pipe, buf.as_mut_slice());
    proof {
        assert(data@.take(23) =~= data@);
    }
    let mut same = true;
    match read {
        Some(n) => {
            if n != data.len() {
                same = false;
            } else {
                assert(forall|k: int| 0 <= k < 23 ==> buf@[k] == data@[k]);
                let mut i: usize = 0;
                while i < n
                    invariant
                        i <= n,
                        n == 23,
                        buf@.len() == 64,
                        data@.len() == 23,
                        same,
                        forall|k: int| 0 <= k < 23 ==> buf@[k] == data@[k],
                    decreases n - i,
                {
                    if buf[i] != data[i] {
                        same = false;
                    }
                    i = i + 1;
                }
            }
        },
        None => {
            same = false;
        },
    }
    writer.close(&mut pipe);
    let again = reader.read(&mut pipe, buf.as_mut_slice());
    let w_ok = match written {
        Ok(n) => n == 23,
        Err(_) => false,
    };
    let eof = match again {
        Some(n) => n == 0,
        None => false,
    };
    w_ok && same && eof
}

/// The stress tests an argument selects: every test for "all" or no argument, one
/// test by its name, none for an unknown name.
pub open spec fn stress_spec(args: Seq<Seq<char>>) -> Option<Seq<StressTest>> {
    if args.len() == 0 || args[0] == "all"@ {
        Some(seq![StressTest::Alloc, StressTest::Vfs, StressTest::Pipe])
    } else if args[0] == "alloc"@ {
        Some(seq![StressTest::Alloc])
    } else if args[0] == "vfs"@ {
        Some(seq![StressTest::Vfs])
    } else if args[0] == "pipe"@ {
        Some(seq![StressTest::Pipe])
    } else {
        None
    }
}

/// The stress tests to run; `None` for an unknown name.
pub fn stress_test(args: &Vec<String>) -> (r: Option<Vec<StressTest>>)
    ensures
        match (r, stress_spec(strings_view(args@))) {
            (Some(v), Some(s)) => v@ == s,
            (None, None) => true,
            _ => false,
        },
{
    if args.len() == 0 {
        return Some(vec![StressTest::Alloc, StressTest::Vfs, StressTest::Pipe]);
    }
    let t = args[0].as_str();
    assert(strings_view(args@)[0] == t@);
    if crate::fs::names::same_name(t, "all") {
        Some(vec![StressTest::Alloc, StressTest::Vfs, StressTest::Pipe])
    } else if crate::fs::names::same_name(t, "alloc") {
        Some(vec![StressTest::Alloc])
    } else if crate::fs::names::same_name(t, "vfs") {
        Some(vec![StressTest::Vfs])
    } else if crate::fs::names::same_name(t, "pipe") {
        Some(vec![StressTest::Pipe])
    } else {
        None
    }
}


/// Append "cmd: path: ERROR\n".
fn push_err_line(out: &mut Vec<u8>, cmd: &str, path: &str, e: Errno)
    ensures
        final(out)@ == old(out)@ + err_line(cmd@, path@, e),
{
    push_utf8(out, cmd);
    push_ascii(out, ": ");
    push_utf8(out, path);
    push_ascii(out, ": ");
    push_ascii(out, e.name());
    out.push(10);
    assert(final(out)@ =~= old(out)@ + err_line(cmd@, path@, e));
}

/// The error line alone.
fn err_text(cmd: &str, path: &str, e: Errno) -> (out: Vec<u8>)
    ensures
        out@ == err_line(cmd@, path@, e),
{
    let mut out: Vec<u8> = Vec::new();
    push_err_line(&mut out, cmd, path, e);
    assert(out@ =~= err_line(cmd@, path@, e));
    out
}

/// A fixed line.
fn line(text: &str) -> (out: Vec<u8>)
    ensures
        out@ == ascii(text@),
{
    let mut out: Vec<u8> = Vec::new();
    push_ascii(&mut out, text);
    assert(out@ =~= ascii(text@));
    out
}

/// The lines of a directory listing.
pub fn ls_lines(entries: &Vec<DirEntry>) -> (out: Vec<u8>)
    ensures
        out@ == ls_text(entries@),
{
    let mut out: Vec<u8> = Vec::new();
    let mut i: usize = 0;
    while i < entries.len()
        invariant
            i <= entries@.len(),
            out@ == ls_text(entries@.take(i as int)),
        decreases entries@.len() - i,
    {
        proof {
            assert(entries@.take(i + 1).drop_last() =~= entries@.take(i as int));
        }
        let e = &entries[i];
        let c: u8 = match e.inode_type {
            InodeType::Directory => 100,
            InodeType::File => 45,
            InodeType::CharDevice => 99,
            InodeType::BlockDevice => 98,
            InodeType::Symlink => 108,
            InodeType::Pipe => 112,
        };
        out.push(c);
        out.push(32);
        out.push(32);
        push_utf8(&mut out, e.name.as_str());
        out.push(10);
        proof {
            assert(out@ =~= ls_text(entries@.take(i + 1)));
        }
        i = i + 1;
    }
    assert(entries@.take(entries@.len() as int) =~= entries@);
    out
}

impl Shell {
    /// A shell with no working directory yet.
    pub fn new() -> (s: Self)
        ensures
            s.cwd@.len() == 0,
    {
        Shell { cwd: String::new() }
    }

    /// Start in the root directory.
    pub fn init_cwd(&mut self)
        ensures
            final(self).cwd@ == seq!['/'],
    {
        self.cwd = String::from_str("/");
        proof {
            reveal_strlit("/");
        }
    }

    /// The full path `path` names: absolute paths as given, others below the working
    /// directory; normalized.
    pub fn resolve_path(&self, path: &str) -> (r: String)
        ensures
            r@ == resolve_path_spec(self.cwd@, path@),
    {
        proof {
            reveal_strlit("/");
            assert("/"@ =~= seq!['/']);
        }
        if path.unicode_len() > 0 && path.get_char(0) == '/' {
            normalize(path)
        } else if crate::fs::names::same_name(self.cwd.as_str(), "/") {
            let mut full = String::from_str("/");
            full.append(path);
            assert(full@ =~= seq!['/'] + path@);
            normalize(full.as_str())
        } else {
            let mut full = self.cwd.clone();
            full.append("/");
            full.append(path);
            assert(full@ =~= self.cwd@ + seq!['/'] + path@);
            normalize(full.as_str())
        }
    }

    /// The working directory, on a line.
    pub fn pwd(&self) -> (out: Vec<u8>)
        ensures
            out@ == utf8(self.cwd@) + seq![10u8],
    {
        let mut out: Vec<u8> = Vec::new();
        push_utf8(&mut out, self.cwd.as_str());
        out.push(10);
        out
    }

    /// Change the working directory to a directory (the root when no argument is
    /// given).
    pub fn cd(&mut self, ns: &Namespace, args: &Vec<String>) -> (out: Vec<u8>)
        requires
            ns.wf(),
        ensures
            ({
                let path = if args@.len() == 0 { seq!['/'] } else { resolve_path_spec(old(self).cwd@, args@[0]@) };
                match ns.resolve_spec(path) {
                    Ok(n) => if ns.is_dir(n) {
                        final(self).cwd@ == path && out@.len() == 0
                    } else {
                        final(self).cwd@ == old(self).cwd@
                            && out@ == ascii("cd: "@) + utf8(path) + ascii(": Not a directory\n"@)
                    },
                    Err(e) => final(self).cwd@ == old(self).cwd@ && out@ == err_line("cd"@, path, e),
                }
            }),
    {
        proof {
            reveal_strlit("/");
            assert("/"@ =~= seq!['/']);
        }
        let path = if args.len() == 0 { String::from_str("/") } else { self.resolve_path(args[0].as_str()) };
        match ns.resolve(path.as_str()) {
            Ok(n) => {
                if ns.inode_type(n) != InodeType::Directory {
                    let mut out: Vec<u8> = Vec::new();
                    push_ascii(&mut out, "cd: ");
                    push_utf8(&mut out, path.as_str());
                    push_ascii(&mut out, ": Not a directory\n");
                    assert(out@ =~= ascii("cd: "@) + utf8(path@) + ascii(": Not a directory\n"@));
                    return out;
                }
                self.cwd = path;
                Vec::new()
            },
            Err(e) => err_text("cd", path.as_str(), e),
        }
    }

    /// List a directory (the working directory when no argument is given); a file is
    /// shown by its path and size.
    pub fn ls(&self, ns: &Namespace, args: &Vec<String>) -> (out: Vec<u8>)
        requires
            ns.wf(),
            ns.room(),
        ensures
            ({
                let path = if args@.len() == 0 { self.cwd@ } else { resolve_path_spec(self.cwd@, args@[0]@) };
                &&& ns.resolve_spec(path) matches Err(e) ==> out@ == err_line("ls"@, path, e)
            }),
    {
        let path = if args.len() == 0 { self.cwd.clone() } else { self.resolve_path(args[0].as_str()) };
        match ns.resolve(path.as_str()) {
            Ok(n) => match ns.readdir(n) {
                Ok(entries) => ls_lines(&entries),
                Err(_) => {
                    proof {
                        assert(ns.fss@[n.mount as int] matches crate::fs::namespace::Mounted::Tmp(t) ==>
                            t.nodes@[n.node as int].data@.len() + 511 <= u64::MAX);
                    }
                    match ns.stat(n) {
                        Ok(st) => {
                            let mut out: Vec<u8> = Vec::new();
                            push_utf8(&mut out, path.as_str());
                            out.push(10);
                            push_ascii(&mut out, "  size: ");
                            push_decimal(&mut out, st.size);
                            push_ascii(&mut out, " bytes\n");
                            out
                        },
                        Err(_) => Vec::new(),
                    }
                },
            },
            Err(e) => err_text("ls", path.as_str(), e),
        }
    }

    /// Open the file `cat` prints: its node, or the text to print instead.
    pub fn cat(&self, ns: &Namespace, args: &Vec<String>) -> (r: Result<NodeRef, Vec<u8>>)
        requires
            ns.wf(),
        ensures
            args@.len() == 0 ==> (r matches Err(out) && out@ == ascii("cat: missing file argument\n"@)),
            args@.len() > 0 ==> match ns.resolve_spec(resolve_path_spec(self.cwd@, args@[0]@)) {
                Ok(n) => r == Ok::<NodeRef, Vec<u8>>(n),
                Err(e) => r matches Err(out) && out@ == err_line("cat"@, resolve_path_spec(self.cwd@, args@[0]@), e),
            },
            r matches Ok(n) ==> ns.valid(n),
    {
        if args.len() == 0 {
            return Err(line("cat: missing file argument\n"));
        }
        let path = self.resolve_path(args[0].as_str());
        match ns.resolve(path.as_str()) {
            Ok(n) => Ok(n),
            Err(e) => Err(err_text("cat", path.as_str(), e)),
        }
    }

    /// Create a directory.
    pub fn mkdir(&self, ns: &mut Namespace, args: &Vec<String>) -> (out: Vec<u8>)
        requires
            old(ns).wf(),
            old(ns).room(),
        ensures
            final(ns).wf(),
            final(ns).vfs == old(ns).vfs,
            args@.len() == 0 ==> out@ == ascii("mkdir: missing directory argument\n"@) && final(ns).fss@ == old(ns).fss@,
            args@.len() > 0 ==> ({
                let path = resolve_path_spec(self.cwd@, args@[0]@);
                let par = parent_spec(path);
                &&& old(ns).resolve_spec(par) matches Err(e) ==> out@ == err_line("mkdir"@, par, e)
                    && final(ns).fss@ == old(ns).fss@
            }),
    {
        if args.len() == 0 {
            return line("mkdir: missing directory argument\n");
        }
        let path = self.resolve_path(args[0].as_str());
        let par = parent(path.as_str());
        let name = basename(path.as_str());
        match ns.resolve(par) {
            Ok(d) => {
                proof {
                    assert(ns.fss@[d.mount as int] matches crate::fs::namespace::Mounted::Tmp(t) ==> t.nodes@.len() + 1 < usize::MAX);
                }
                match ns.create(d, name, InodeType::Directory, 0o755) {
                    Ok(_) => Vec::new(),
                    Err(e) => err_text("mkdir", path.as_str(), e),
                }
            },
            Err(e) => err_text("mkdir", par, e),
        }
    }

    /// Create an empty file; an existing one is left as it is.
    pub fn touch(&self, ns: &mut Namespace, args: &Vec<String>) -> (out: Vec<u8>)
        requires
            old(ns).wf(),
            old(ns).room(),
        ensures
            final(ns).wf(),
            final(ns).vfs == old(ns).vfs,
            args@.len() == 0 ==> out@ == ascii("touch: missing file argument\n"@) && final(ns).fss@ == old(ns).fss@,
            args@.len() > 0 ==> ({
                let path = resolve_path_spec(self.cwd@, args@[0]@);
                let par = parent_spec(path);
                &&& old(ns).resolve_spec(par) matches Err(e) ==> out@ == err_line("touch"@, par, e)
                    && final(ns).fss@ == old(ns).fss@
                &&& old(ns).resolve_spec(par) is Ok ==> out@.len() == 0
            }),
    {
        if args.len() == 0 {
            return line("touch: missing file argument\n");
        }
        let path = self.resolve_path(args[0].as_str());
        let par = parent(path.as_str());
        let name = basename(path.as_str());
        match ns.resolve(par) {
            Ok(d) => {
                proof {
                    assert(ns.fss@[d.mount as int] matches crate::fs::namespace::Mounted::Tmp(t) ==> t.nodes@.len() + 1 < usize::MAX);
                }
                let _ = ns.create(d, name, InodeType::File, 0o644);
                Vec::new()
            },
            Err(e) => err_text("touch", par, e),
        }
    }

    /// Remove a file.
    pub fn rm(&self, ns: &mut Namespace, args: &Vec<String>) -> (out: Vec<u8>)
        requires
            old(ns).wf(),
        ensures
            final(ns).wf(),
            final(ns).vfs == old(ns).vfs,
            args@.len() == 0 ==> out@ == ascii("rm: missing file argument\n"@) && final(ns).fss@ == old(ns).fss@,
            args@.len() > 0 ==> ({
                let path = resolve_path_spec(self.cwd@, args@[0]@);
                let par = parent_spec(path);
                &&& old(ns).resolve_spec(par) matches Err(e) ==> out@ == err_line("rm"@, par, e)
                    && final(ns).fss@ == old(ns).fss@
            }),
    {
        if args.len() == 0 {
            return line("rm: missing file argument\n");
        }
        let path = self.resolve_path(args[0].as_str());
        let par = parent(path.as_str());
        let name = basename(path.as_str());
        match ns.resolve(par) {
            Ok(d) => match ns.unlink(d, name) {
                Ok(_) => Vec::new(),
                Err(e) => err_text("rm", path.as_str(), e),
            },
            Err(e) => err_text("rm", par, e),
        }
    }

    /// Write the words after the path, joined by spaces, at the start of a file,
    /// creating the file when it does not exist.
    pub fn write_file(&self, ns: &mut Namespace, args: &Vec<String>) -> (out: Vec<u8>)
        requires
            old(ns).wf(),
            old(ns).room(),
        ensures
            final(ns).wf(),
            final(ns).vfs == old(ns).vfs,
            args@.len() < 2 ==> out@ == ascii("write: usage: write <file> <text>\n"@) && final(ns).fss@ == old(ns).fss@,
    {
        if args.len() < 2 {
            return line("write: usage: write <file> <text>\n");
        }
        let path = self.resolve_path(args[0].as_str());
        let mut text: Vec<u8> = Vec::new();
        let mut i: usize = 1;
        while i < args.len()
            invariant
                1 <= i <= args@.len(),
            decreases args@.len() - i,
        {
            if i > 1 {
                text.push(32);
            }
            push_utf8(&mut text, args[i].as_str());
            i = i + 1;
        }
        let tl = text.len();
        assert(text@.len() == tl);
        match ns.resolve(path.as_str()) {
            Ok(n) => match ns.write(n, 0, text.as_slice()) {
                Ok(_) => Vec::new(),
                Err(e) => err_text("write", path.as_str(), e),
            },
            Err(_) => {
                let par = parent(path.as_str());
                let name = basename(path.as_str());
                match ns.resolve(par) {
                    Ok(d) => {
                        proof {
                            assert(ns.fss@[d.mount as int] matches crate::fs::namespace::Mounted::Tmp(t) ==> t.nodes@.len() + 1 < usize::MAX);
                        }
                        match ns.create(d, name, InodeType::File, 0o644) {
                            Ok(f) => match ns.write(f, 0, text.as_slice()) {
                                Ok(_) => Vec::new(),
                                Err(e) => err_text("write", path.as_str(), e),
                            },
                            Err(e) => err_text("write", path.as_str(), e),
                        }
                    },
                    Err(e) => err_text("write", par, e),
                }
            },
        }
    }

    /// Show a node's stat: path, size, type, inode number, links, mode in octal.
    pub fn stat(&self, ns: &Namespace, args: &Vec<String>) -> (out: Vec<u8>)
        requires
            ns.wf(),
            ns.room(),
        ensures
            args@.len() == 0 ==> out@ == ascii("stat: missing path argument\n"@),
            args@.len() > 0 ==> ({
                let path = resolve_path_spec(self.cwd@, args@[0]@);
                &&& ns.resolve_spec(path) matches Err(e) ==> out@ == err_line("stat"@, path, e)
            }),
    {
        if args.len() == 0 {
            return line("stat: missing path argument\n");
        }
        let path = self.resolve_path(args[0].as_str());
        match ns.resolve(path.as_str()) {
            Ok(n) => {
                proof {
                    assert(ns.fss@[n.mount as int] matches crate::fs::namespace::Mounted::Tmp(t) ==>
                        t.nodes@[n.node as int].data@.len() + 511 <= u64::MAX);
                }
                match ns.stat(n) {
                    Ok(st) => {
                        let mut out: Vec<u8> = Vec::new();
                        push_ascii(&mut out, "  File: ");
                        push_utf8(&mut out, path.as_str());
                        push_ascii(&mut out, "\n  Size: ");
                        push_decimal(&mut out, st.size);
                        push_ascii(&mut out, " bytes\n  Type: ");
                        push_ascii(&mut out, st.inode_type.name());
                        push_ascii(&mut out, "\n Inode: ");
                        push_decimal(&mut out, st.inode);
                        push_ascii(&mut out, "\n Links: ");
                        push_decimal(&mut out, st.nlink);
                        push_ascii(&mut out, "\n  Mode: ");
                        push_digits(&mut out, st.mode as u64, 8);
                        out.push(10);
                        out
                    },
                    Err(e) => err_text("stat", path.as_str(), e),
                }
            },
            Err(e) => err_text("stat", path.as_str(), e),
        }
    }

    /// A hex dump of the first 256 bytes of a file.
    pub fn hexdump<E: EntropySource>(&self, ns: &Namespace, args: &Vec<String>, rng: &mut ChaCha20Rng, src: &mut E,
        ticks: u64, pmm: &Pmm) -> (out: Vec<u8>)
        requires
            ns.wf(),
            old(rng).wf(),
            pmm.total_frames * 4 <= u64::MAX,
            pmm.free_frames <= pmm.total_frames,
        ensures
            final(rng).wf(),
            args@.len() == 0 ==> out@ == ascii("hexdump: missing file argument\n"@),
            args@.len() > 0 ==> ({
                let path = resolve_path_spec(self.cwd@, args@[0]@);
                &&& ns.resolve_spec(path) matches Err(e) ==> out@ == err_line("hexdump"@, path, e)
                &&& ns.resolve_spec(path) matches Ok(n) ==> (ns.fss@[n.mount as int] matches crate::fs::namespace::Mounted::Tmp(t)
                    ==> !t.nodes@[n.node as int].is_dir
                    ==> out@ == hexdump_text(read_at(t.nodes@[n.node as int].data@, 0, HEXDUMP_BYTES as int)))
            }),
    {
        if args.len() == 0 {
            return line("hexdump: missing file argument\n");
        }
        let path = self.resolve_path(args[0].as_str());
        match ns.resolve(path.as_str()) {
            Ok(n) => {
                let mut buf: Vec<u8> = vec![0u8; HEXDUMP_BYTES];
                match ns.read(n, 0, &mut buf, rng, src, ticks, pmm) {
                    Ok(k) => {
                        buf.truncate(k);
                        proof {
                            match ns.fss@[n.mount as int] {
                                crate::fs::namespace::Mounted::Tmp(t) => {
                                    if !t.nodes@[n.node as int].is_dir {
                                        assert(buf@ =~= read_at(t.nodes@[n.node as int].data@, 0, HEXDUMP_BYTES as int));
                                    }
                                },
                                _ => {},
                            }
                        }
                        hexdump_lines(buf.as_slice())
                    },
                    Err(e) => err_text("hexdump", path.as_str(), e),
                }
            },
            Err(e) => err_text("hexdump", path.as_str(), e),
        }
    }
}

/// One step of `cat`: up to 4096 bytes of node `n` at `offset` (none at the end), or
/// the text to print when the read fails.
pub fn cat_chunk<E: EntropySource>(ns: &Namespace, n: NodeRef, offset: u64, rng: &mut ChaCha20Rng, src: &mut E,
    ticks: u64, pmm: &Pmm) -> (r: Result<Vec<u8>, Vec<u8>>)
    requires
        ns.wf(),
        ns.valid(n),
        old(rng).wf(),
        pmm.total_frames * 4 <= u64::MAX,
        pmm.free_frames <= pmm.total_frames,
    ensures
        final(rng).wf(),
        r matches Ok(b) ==> b@.len() <= CAT_CHUNK,
        ns.fss@[n.mount as int] matches crate::fs::namespace::Mounted::Tmp(t) ==> {
            &&& t.nodes@[n.node as int].is_dir ==> (r matches Err(out) && out@ == seq![10u8] + ascii("cat: read error: "@)
                + ascii(Errno::ENOSYS.name_spec()) + seq![10u8])
            &&& !t.nodes@[n.node as int].is_dir ==> r == Ok::<Vec<u8>, Vec<u8>>(r->Ok_0)
                && r->Ok_0@ == read_at(t.nodes@[n.node as int].data@, offset as int, CAT_CHUNK as int)
        },
{
    let mut buf: Vec<u8> = vec![0u8; CAT_CHUNK];
    match ns.read(n, offset, &mut buf, rng, src, ticks, pmm) {
        Ok(k) => {
            buf.truncate(k);
            proof {
                match ns.fss@[n.mount as int] {
                    crate::fs::namespace::Mounted::Tmp(t) => {
                        if !t.nodes@[n.node as int].is_dir {
                            assert(buf@ =~= read_at(t.nodes@[n.node as int].data@, offset as int, CAT_CHUNK as int));
                        }
                    },
                    _ => {},
                }
            }
            Ok(buf)
        },
        Err(e) => {
            let mut out: Vec<u8> = Vec::new();
            out.push(10);
            push_ascii(&mut out, "cat: read error: ");
            push_ascii(&mut out, e.name());
            out.push(10);
            Err(out)
        },
    }
}

/// Bytes the pipe stress test moves.
pub const STRESS_PIPE_BYTES: usize = 256 * 1024;

/// Pipe throughput: write 4096-byte chunks of 0xAB and read each back until 256 KiB
/// went through, then close the write end and drain. Gives the bytes read when every
/// byte read was 0xAB and as many came out as went in.
pub fn stress_pipe() -> (r: Result<usize, &'static str>)
    ensures
        r == Ok::<usize, &'static str>(STRESS_PIPE_BYTES),
{
    let (mut pipe, reader, writer) = Pipe::create();
    let data: Vec<u8> = vec![0xABu8; 4096];
    let mut buf: Vec<u8> = vec![0u8; 4096];
    let mut written: usize = 0;
    let mut read_total: usize = 0;
    while written < STRESS_PIPE_BYTES
        invariant
            pipe.wf(),
            pipe.readers() == 1,
            pipe.writers() == 1,
            pipe.contents().len() == 0,
            written == read_total,
            written <= STRESS_PIPE_BYTES,
            written % 4096 == 0,
            data@.len() == 4096,
            buf@.len() == 4096,
            forall|j: int| 0 <= j < 4096 ==> data@[j] == 0xAB,
        decreases STRESS_PIPE_BYTES - written,
    {
        let w = writer.write(&mut pipe, data.as_slice());
        let n = match w {
            Ok(n) => n,
            Err(_) => return Err("pipe write"),
        };
        assert(data@.take(4096) =~= data@);
        let r = reader.read(&mut pipe, buf.as_mut_slice());
        let m = match r {
            Some(m) => m,
            None => return Err("pipe read"),
        };
        let mut k: usize = 0;
        while k < m
            invariant
                k <= m,
                m == 4096,
                buf@.len() == 4096,
                forall|j: int| 0 <= j < 4096 ==> buf@[j] == 0xAB,
            decreases m - k,
        {
            if buf[k] != 0xAB {
                return Err("data corruption");
            }
            k = k + 1;
        }
        written = written + n;
        read_total = read_total + m;
        proof {
            assert(pipe.contents() =~= Seq::<u8>::empty());
        }
    }
    writer.close(&mut pipe);
    let last = reader.read(&mut pipe, buf.as_mut_slice());
    match last {
        Some(0) => {},
        _ => return Err("pipe drain"),
    }
    if written != read_total {
        return Err("byte count mismatch");
    }
    Ok(read_total)
}

/// The character of decimal digit `d`.
pub open spec fn digit_char_of(d: nat) -> char {
    (48 + d) as char
}

/// The decimal digit `d` as a one-character text.
fn digit_text(d: u64) -> (s: &'static str)
    requires
        d < 10,
    ensures
        s@ == seq![digit_char_of(d as nat)],
{
    proof {
        reveal_strlit("0");
        reveal_strlit("1");
        reveal_strlit("2");
        reveal_strlit("3");
        reveal_strlit("4");
        reveal_strlit("5");
        reveal_strlit("6");
        reveal_strlit("7");
        reveal_strlit("8");
        reveal_strlit("9");
    }
    if d == 0 { "0" } else if d == 1 { "1" } else if d == 2 { "2" } else if d == 3 { "3" } else if d == 4 { "4" }
    else if d == 5 { "5" } else if d == 6 { "6" } else if d == 7 { "7" } else if d == 8 { "8" } else { "9" }
}

/// The name of stress file `i`: "stress_" and its four digits.
pub open spec fn stress_name_spec(i: nat) -> Seq<char> {
    "stress_"@ + seq![
        digit_char_of(i / 1000),
        digit_char_of(i / 100 % 10),
        digit_char_of(i / 10 % 10),
        digit_char_of(i % 10),
    ]
}

/// Whether a name starts with "stress_".
pub open spec fn stress_prefixed(s: Seq<char>) -> bool {
    s.len() >= 7 && s.subrange(0, 7) == "stress_"@
}

/// The name of stress file `i`: "stress_" and four digits.
fn stress_name(i: u64) -> (s: String)
    requires
        i < 10000,
    ensures
        s@ == stress_name_spec(i as nat),
{
    let mut s = String::from_str("stress_");
    s.append(digit_text(i / 1000));
    s.append(digit_text(i / 100 % 10));
    s.append(digit_text(i / 10 % 10));
    s.append(digit_text(i % 10));
    assert(s@ =~= stress_name_spec(i as nat));
    s
}

/// Whether `s` starts with "stress_".
fn is_stress_name(s: &str) -> (b: bool)
    ensures
        b == stress_prefixed(s@),
{
    proof {
        reveal_strlit("stress_");
    }
    let n = s.unicode_len();
    proof {
        if n >= 7 {
            let t = "stress_"@;
            assert(s@.subrange(0, 7) == t <==> (s@[0] == 's' && s@[1] == 't' && s@[2] == 'r' && s@[3] == 'e'
                && s@[4] == 's' && s@[5] == 's' && s@[6] == '_')) by {
                if s@[0] == 's' && s@[1] == 't' && s@[2] == 'r' && s@[3] == 'e' && s@[4] == 's' && s@[5] == 's' && s@[6] == '_' {
                    assert(s@.subrange(0, 7) =~= t);
                }
                if s@.subrange(0, 7) == t {
                    assert(s@[0] == s@.subrange(0, 7)[0]);
                    assert(s@[1] == s@.subrange(0, 7)[1]);
                    assert(s@[2] == s@.subrange(0, 7)[2]);
                    assert(s@[3] == s@.subrange(0, 7)[3]);
                    assert(s@[4] == s@.subrange(0, 7)[4]);
                    assert(s@[5] == s@.subrange(0, 7)[5]);
                    assert(s@[6] == s@.subrange(0, 7)[6]);
                }
            }
        }
    }
    n >= 7 && s.get_char(0) == 's' && s.get_char(1) == 't' && s.get_char(2) == 'r' && s.get_char(3) == 'e'
        && s.get_char(4) == 's' && s.get_char(5) == 's' && s.get_char(6) == '_'
}

/// File system stress: create 100 files in /tmp, write "content of file N" to each,
/// read each back and compare, remove them all, and check that none is left.
pub fn stress_vfs(ns: &mut Namespace) -> (r: Result<(), &'static str>)
    requires
        old(ns).wf(),
    ensures
        final(ns).wf(),
        final(ns).vfs == old(ns).vfs,
        final(ns).fss@.len() == old(ns).fss@.len(),
        old(ns).resolve_spec("/tmp"@) is Err ==> r == Err::<(), &'static str>("resolve /tmp")
            && final(ns).fss@ == old(ns).fss@,
        r is Ok ==> (old(ns).resolve_spec("/tmp"@) matches Ok(d) && (final(ns).fss@[d.mount as int] matches crate::fs::namespace::Mounted::Tmp(t)
            ==> forall|i: int| 0 <= i < t.nodes@[d.node as int].entries@.len()
                ==> !stress_prefixed(#[trigger] t.nodes@[d.node as int].entries@[i].name@))),
{
    let tmp = match ns.resolve("/tmp") {
        Ok(n) => n,
        Err(_) => return Err("resolve /tmp"),
    };
    let mut i: u64 = 0;
    while i < 100
        invariant
            ns.wf(),
            ns.vfs == old(ns).vfs,
            ns.valid(tmp),
            ns.fss@.len() == old(ns).fss@.len(),
            old(ns).resolve_spec("/tmp"@) == Ok::<NodeRef, Errno>(tmp),
        decreases 100 - i,
    {
        if !ns.has_room(tmp.mount) {
            return Err("create failed");
        }
        let name = stress_name(i);
        let file = match ns.create(tmp, name.as_str(), InodeType::File, 0o644) {
            Ok(f) => f,
            Err(_) => return Err("create failed"),
        };
        let mut data: Vec<u8> = Vec::new();
        push_ascii(&mut data, "content of file ");
        push_decimal(&mut data, i);
        let dl = data.len();
        assert(data@.len() == dl);
        if ns.write(file, 0, data.as_slice()).is_err() {
            return Err("write failed");
        }
        i = i + 1;
    }
    let mut i: u64 = 0;
    while i < 100
        invariant
            ns.wf(),
            ns.vfs == old(ns).vfs,
            ns.valid(tmp),
            ns.fss@.len() == old(ns).fss@.len(),
            old(ns).resolve_spec("/tmp"@) == Ok::<NodeRef, Errno>(tmp),
        decreases 100 - i,
    {
        let name = stress_name(i);
        let file = match ns.lookup(tmp, name.as_str()) {
            Ok(f) => f,
            Err(_) => return Err("lookup failed"),
        };
        let mut buf: Vec<u8> = vec![0u8; 64];
        let n = match read_plain(ns, file, &mut buf) {
            Ok(n) => n,
            Err(_) => return Err("read failed"),
        };
        let mut expected: Vec<u8> = Vec::new();
        push_ascii(&mut expected, "content of file ");
        push_decimal(&mut expected, i);
        if n != expected.len() {
            return Err("content mismatch");
        }
        let mut k: usize = 0;
        while k < n
            invariant
                ns.wf(),
                ns.vfs == old(ns).vfs,
                ns.valid(tmp),
                ns.fss@.len() == old(ns).fss@.len(),
                old(ns).resolve_spec("/tmp"@) == Ok::<NodeRef, Errno>(tmp),
                k <= n,
                n == expected@.len(),
                n <= buf@.len(),
            decreases n - k,
        {
            if buf[k] != expected[k] {
                return Err("content mismatch");
            }
            k = k + 1;
        }
        i = i + 1;
    }
    let mut i: u64 = 0;
    while i < 100
        invariant
            ns.wf(),
            ns.vfs == old(ns).vfs,
            ns.valid(tmp),
            ns.fss@.len() == old(ns).fss@.len(),
            old(ns).resolve_spec("/tmp"@) == Ok::<NodeRef, Errno>(tmp),
        decreases 100 - i,
    {
        let name = stress_name(i);
        if ns.unlink(tmp, name.as_str()).is_err() {
            return Err("unlink failed");
        }
        i = i + 1;
    }
    let entries = match ns.readdir(tmp) {
        Ok(v) => v,
        Err(_) => return Err("readdir"),
    };
    let mut k: usize = 0;
    while k < entries.len()
        invariant
            ns.wf(),
            ns.vfs == old(ns).vfs,
            ns.valid(tmp),
            ns.fss@.len() == old(ns).fss@.len(),
            old(ns).resolve_spec("/tmp"@) == Ok::<NodeRef, Errno>(tmp),
            k <= entries@.len(),
            ns.fss@[tmp.mount as int] matches crate::fs::namespace::Mounted::Tmp(t) ==> {
                let e = t.nodes@[tmp.node as int].entries@;
                &&& entries@.len() == e.len() + 2
                &&& forall|i: int| 0 <= i < e.len() ==> (#[trigger] entries@[i + 2]).name@ == e[i].name@
            },
            forall|j: int| 0 <= j < k ==> !stress_prefixed(#[trigger] entries@[j].name@),
        decreases entries@.len() - k,
    {
        if is_stress_name(entries[k].name.as_str()) {
            return Err("files not cleaned up");
        }
        k = k + 1;
    }
    proof {
        if let crate::fs::namespace::Mounted::Tmp(t) = ns.fss@[tmp.mount as int] {
            let e = t.nodes@[tmp.node as int].entries@;
            assert forall|i: int| 0 <= i < e.len() implies !stress_prefixed(#[trigger] e[i].name@) by {
                assert(!stress_prefixed(entries@[i + 2].name@));
            }
        }
    }
    Ok(())
}

/// Read a tmpfs or proc node without a random source (device reads of the random
/// device are not asked for here): the bytes of a tmpfs file.
fn read_plain(ns: &Namespace, n: NodeRef, buf: &mut Vec<u8>) -> (r: Result<usize, Errno>)
    requires
        ns.wf(),
        ns.valid(n),
    ensures
        final(buf)@.len() == old(buf)@.len(),
        r matches Ok(k) ==> k <= old(buf)@.len(),
        match ns.fss@[n.mount as int] {
            crate::fs::namespace::Mounted::Tmp(t) => if t.nodes@[n.node as int].is_dir {
                r == Err::<usize, Errno>(Errno::ENOSYS) && final(buf)@ == old(buf)@
            } else {
                let got = crate::fs::tmpfs::read_at(t.nodes@[n.node as int].data@, 0, old(buf)@.len() as int);
                &&& r == Ok::<usize, Errno>(got.len() as usize)
                &&& final(buf)@ == got + old(buf)@.subrange(got.len() as int, old(buf)@.len() as int)
            },
            _ => r == Err::<usize, Errno>(Errno::ENOSYS) && final(buf)@ == old(buf)@,
        },
{
    match &ns.fss[n.mount] {
        crate::fs::namespace::Mounted::Tmp(t) => t.read(n.node, 0, buf),
        _ => Err(Errno::ENOSYS),
    }
}

} // verus!
