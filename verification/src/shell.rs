//! The kernel shell: reading and splitting command lines, and choosing the builtin.
use vstd::prelude::*;
use vstd::string::{StrSliceExecFns, StringExecFns};
use vstd::utf8::valid_utf8;
use crate::fs::ext2::str_from_utf8;
use crate::fs::names::same_name;

pub mod builtins;

verus! {

/// The prompt.
pub const PROMPT: &'static str = "logos# ";

/// Longest command line.
pub const MAX_LINE: usize = 1024;

/// Tokenizer state: words so far, the word being built, inside single quotes, inside
/// double quotes, after a backslash.
pub type LexState = (Seq<Seq<char>>, Seq<char>, bool, bool, bool);

/// One character of the tokenizer: a backslash escapes the next character (not inside
/// single quotes), quotes group (each kind inside the other is literal), blanks outside
/// quotes end a word.
pub open spec fn lex_step(st: LexState, ch: char) -> LexState {
    let (parts, cur, sq, dq, esc) = st;
    if esc {
        (parts, cur.push(ch), sq, dq, false)
    } else if ch == '\\' && !sq {
        (parts, cur, sq, dq, true)
    } else if ch == '\'' && !dq {
        (parts, cur, !sq, dq, false)
    } else if ch == '"' && !sq {
        (parts, cur, sq, !dq, false)
    } else if (ch == ' ' || ch == '\t') && !sq && !dq {
        if cur.len() > 0 {
            (parts.push(cur), Seq::empty(), sq, dq, false)
        } else {
            (parts, cur, sq, dq, false)
        }
    } else {
        (parts, cur.push(ch), sq, dq, false)
    }
}

/// The tokenizer state after the characters of `s`.
pub open spec fn lex(s: Seq<char>) -> LexState
    decreases s.len(),
{
    if s.len() == 0 {
        (Seq::empty(), Seq::empty(), false, false, false)
    } else {
        lex_step(lex(s.drop_last()), s.last())
    }
}

/// The words of a line.
pub open spec fn words(s: Seq<char>) -> Seq<Seq<char>> {
    let st = lex(s);
    if st.1.len() > 0 {
        st.0.push(st.1)
    } else {
        st.0
    }
}

/// A line's command (its first word, or empty) and arguments.
pub open spec fn parse_spec(s: Seq<char>) -> (Seq<char>, Seq<Seq<char>>) {
    let w = words(s);
    if w.len() == 0 {
        (Seq::empty(), Seq::empty())
    } else {
        (w[0], w.drop_first())
    }
}

/// Views of a list of strings.
pub open spec fn strings_view(v: Seq<String>) -> Seq<Seq<char>> {
    Seq::new(v.len(), |i: int| v[i]@)
}

/// Split a command line into its command and arguments.
pub fn parse_line(line: &str) -> (r: (String, Vec<String>))
    ensures
        r.0@ == parse_spec(line@).0,
        strings_view(r.1@) == parse_spec(line@).1,
{
    let n = line.unicode_len();
    let mut parts: Vec<String> = Vec::new();
    let mut current = String::new();
    let mut sq = false;
    let mut dq = false;
    let mut esc = false;
    let mut i: usize = 0;
    while i < n
        invariant
            n == line@.len(),
            i <= n,
            lex(line@.take(i as int)) == (strings_view(parts@), current@, sq, dq, esc),
        decreases n - i,
    {
        proof {
            assert(line@.take(i + 1).drop_last() =~= line@.take(i as int));
        }
        let ch = line.get_char(i);
        let one = line.substring_char(i, i + 1);
        assert(one@ =~= seq![ch]);
        if esc {
            current.append(one);
            esc = false;
        } else if ch == '\\' && !sq {
            esc = true;
        } else if ch == '\'' && !dq {
            sq = !sq;
        } else if ch == '"' && !sq {
            dq = !dq;
        } else if (ch == ' ' || ch == '\t') && !sq && !dq {
            if current.as_str().unicode_len() > 0 {
                let w = current;
                parts.push(w);
                current = String::new();
                proof {
                    assert(strings_view(parts@) =~= strings_view(old_parts_of(parts@)).push(w@));
                }
            }
        } else {
            current.append(one);
        }
        i = i + 1;
    }
    assert(line@.take(n as int) =~= line@);
    if current.as_str().unicode_len() > 0 {
        let w = current;
        parts.push(w);
        proof {
            assert(strings_view(parts@) =~= strings_view(old_parts_of(parts@)).push(w@));
        }
    }
    let ghost all = strings_view(parts@);
    assert(all == words(line@));
    if parts.len() == 0 {
        return (String::new(), parts);
    }
    let cmd = parts.remove(0);
    proof {
        assert(strings_view(parts@) =~= all.drop_first());
    }
    (cmd, parts)
}

/// All elements but the last.
pub open spec fn old_parts_of(v: Seq<String>) -> Seq<String> {
    v.drop_last()
}

/// Where a line ends in the bytes read so far: before a newline that ends them, or at
/// the limit when the buffer is full; `None` while more input is needed.
pub fn line_end(buf: &Vec<u8>, pos: usize) -> (r: Option<usize>)
    requires
        pos <= buf@.len(),
    ensures
        pos > 0 && buf@[pos - 1] == 10 ==> r == Some((pos - 1) as usize),
        !(pos > 0 && buf@[pos - 1] == 10) && pos >= MAX_LINE ==> r == Some(pos),
        !(pos > 0 && buf@[pos - 1] == 10) && pos < MAX_LINE ==> r is None,
{
    if pos > 0 && buf[pos - 1] == 10 {
        Some(pos - 1)
    } else if pos >= MAX_LINE {
        Some(pos)
    } else {
        None
    }
}

/// The text of a line's bytes: the bytes as UTF-8, or empty when they are not valid.
pub fn line_text(bytes: &[u8]) -> (s: String)
    ensures
        !valid_utf8(bytes@) ==> s@.len() == 0,
        valid_utf8(bytes@) ==> vstd::utf8::encode_utf8(s@) == bytes@,
{
    match str_from_utf8(bytes) {
        Some(t) => String::from_str(t),
        None => String::new(),
    }
}

/// The builtins.
#[derive(Debug, Clone, Copy, PartialEq, Eq, Structural)]
pub enum Command {
    Help,
    Echo,
    Ls,
    Cat,
    Mkdir,
    Touch,
    Rm,
    Write,
    Pwd,
    Cd,
    Stat,
    Free,
    Uptime,
    Uname,
    Ps,
    Clear,
    Hexdump,
    Dmesg,
    Shutdown,
    Reboot,
    PipeTest,
    Stress,
    Bench,
    LeakCheck,
    Unknown,
}

/// The builtin a command word names ("halt" is shutdown).
pub open spec fn command_spec(cmd: Seq<char>) -> Command {
    if cmd == "help"@ {
        Command::Help
    } else if cmd == "echo"@ {
        Command::Echo
    } else if cmd == "ls"@ {
        Command::Ls
    } else if cmd == "cat"@ {
        Command::Cat
    } else if cmd == "mkdir"@ {
        Command::Mkdir
    } else if cmd == "touch"@ {
        Command::Touch
    } else if cmd == "rm"@ {
        Command::Rm
    } else if cmd == "write"@ {
        Command::Write
    } else if cmd == "pwd"@ {
        Command::Pwd
    } else if cmd == "cd"@ {
        Command::Cd
    } else if cmd == "stat"@ {
        Command::Stat
    } else if cmd == "free"@ {
        Command::Free
    } else if cmd == "uptime"@ {
        Command::Uptime
    } else if cmd == "uname"@ {
        Command::Uname
    } else if cmd == "ps"@ {
        Command::Ps
    } else if cmd == "clear"@ {
        Command::Clear
    } else if cmd == "hexdump"@ {
        Command::Hexdump
    } else if cmd == "dmesg"@ {
        Command::Dmesg
    } else if cmd == "shutdown"@ {
        Command::Shutdown
    } else if cmd == "halt"@ {
        Command::Shutdown
    } else if cmd == "reboot"@ {
        Command::Reboot
    } else if cmd == "pipe-test"@ {
        Command::PipeTest
    } else if cmd == "stress"@ {
        Command::Stress
    } else if cmd == "bench"@ {
        Command::Bench
    } else if cmd == "leakcheck"@ {
        Command::LeakCheck
    } else {
        Command::Unknown
    }
}

/// The builtin a command word names.
pub fn command_of(cmd: &str) -> (c: Command)
    ensures
        c == command_spec(cmd@),
{
    if same_name(cmd, "help") {
        Command::Help
    } else if same_name(cmd, "echo") {
        Command::Echo
    } else if same_name(cmd, "ls") {
        Command::Ls
    } else if same_name(cmd, "cat") {
        Command::Cat
    } else if same_name(cmd, "mkdir") {
        Command::Mkdir
    } else if same_name(cmd, "touch") {
        Command::Touch
    } else if same_name(cmd, "rm") {
        Command::Rm
    } else if same_name(cmd, "write") {
        Command::Write
    } else if same_name(cmd, "pwd") {
        Command::Pwd
    } else if same_name(cmd, "cd") {
        Command::Cd
    } else if same_name(cmd, "stat") {
        Command::Stat
    } else if same_name(cmd, "free") {
        Command::Free
    } else if same_name(cmd, "uptime") {
        Command::Uptime
    } else if same_name(cmd, "uname") {
        Command::Uname
    } else if same_name(cmd, "ps") {
        Command::Ps
    } else if same_name(cmd, "clear") {
        Command::Clear
    } else if same_name(cmd, "hexdump") {
        Command::Hexdump
    } else if same_name(cmd, "dmesg") {
        Command::Dmesg
    } else if same_name(cmd, "shutdown") {
        Command::Shutdown
    } else if same_name(cmd, "halt") {
        Command::Shutdown
    } else if same_name(cmd, "reboot") {
        Command::Reboot
    } else if same_name(cmd, "pipe-test") {
        Command::PipeTest
    } else if same_name(cmd, "stress") {
        Command::Stress
    } else if same_name(cmd, "bench") {
        Command::Bench
    } else if same_name(cmd, "leakcheck") {
        Command::LeakCheck
    } else {
        Command::Unknown
    }
}

} // verus!
