//! Windows: processes are known by their file name and command line, and
//! measured by the bytes they wrote.

use vstd::prelude::*;

use super::bytes;
use crate::sums;
use crate::text;

verus! {

/// Where the process environment block points to the parameters.
pub const PARAMETERS_AT: u64 = 0x20;

/// Where the parameters describe the command line.
pub const COMMAND_LINE_AT: u64 = 0x70;

/// How long the basic information of a process is.
pub const BASIC_INFO_LEN: usize = 48;

/// How long a pointer is.
pub const POINTER_LEN: usize = 8;

/// How long the description of a string is.
pub const STRING_LEN: usize = 16;

/// A process that is open, by the handle of the system.
#[derive(Clone, Copy, Debug, PartialEq, Eq, Structural)]
pub struct ProcHandle {
    pub handle: isize,
}

/// An open process, where the system gave a handle.
pub fn open_proc(handle: isize) -> (h: Option<ProcHandle>)
    ensures
        h == (if handle != 0 {
            Some(ProcHandle { handle })
        } else {
            None
        }),
{
    if handle != 0 {
        Some(ProcHandle { handle })
    } else {
        None
    }
}

/// An upper-case letter of ASCII as its lower-case one.
pub open spec fn lower(c: char) -> char {
    if 'A' <= c <= 'Z' {
        (c as u32 + 32) as char
    } else {
        c
    }
}

/// The same text, but for the case of ASCII letters.
pub open spec fn same_but_case(a: Seq<char>, b: Seq<char>) -> bool {
    &&& a.len() == b.len()
    &&& forall|i: int| 0 <= i < a.len() ==> lower(#[trigger] a[i]) == lower(b[i])
}

fn lower_code(c: char) -> (n: u32)
    ensures
        n == lower(c) as u32,
{
    let n: u32 = c as u32;
    if 'A' <= c && c <= 'Z' {
        n + 32
    } else {
        n
    }
}

/// Whether two texts are the same but for the case of ASCII letters.
pub fn eq_ignore_ascii_case(a: &str, b: &str) -> (r: bool)
    ensures
        r == same_but_case(a@, b@),
{
    let x: Vec<char> = text::chars_of(a);
    let y: Vec<char> = text::chars_of(b);
    if x.len() != y.len() {
        return false;
    }
    let mut i: usize = 0;
    while i < x.len()
        invariant
            i <= x@.len(),
            x@ == a@,
            y@ == b@,
            x@.len() == y@.len(),
            forall|j: int| 0 <= j < i ==> lower(#[trigger] x@[j]) == lower(y@[j]),
        decreases x.len() - i,
    {
        if lower_code(x[i]) != lower_code(y[i]) {
            assert(lower(x@[i as int]) != lower(y@[i as int]));
            return false;
        }
        i = i + 1;
    }
    true
}

/// Whether a file name is that of the program.
pub fn is_zcode(exe: &str) -> (r: bool)
    ensures
        r == same_but_case(exe@, "zcode.exe"@),
{
    eq_ignore_ascii_case(exe, "zcode.exe")
}

/// Whether a process is a CLI process: by its file name, and by its command line
/// where that can be read.
pub open spec fn is_cli_process(exe: Seq<char>, command: Option<Seq<char>>) -> bool {
    &&& same_but_case(exe, "zcode.exe"@)
    &&& command is Some
    &&& text::occurs(command->0, "zcode.cjs"@)
}

/// A process as the system lists it.
pub struct Listed {
    pub pid: u32,
    /// Its file name.
    pub exe: String,
    /// Its command line, where that can be read.
    pub command: Option<String>,
}

impl Listed {
    pub open spec fn is_cli(self) -> bool {
        is_cli_process(
            self.exe@,
            (match self.command {
                Some(c) => Some(c@),
                None => None,
            }),
        )
    }
}

/// The numbers of the listed processes that are CLI processes.
pub open spec fn cli_pids(listed: Seq<Listed>) -> Seq<u32>
    decreases listed.len(),
{
    if listed.len() == 0 {
        Seq::empty()
    } else {
        let before = cli_pids(listed.drop_last());
        if listed.last().is_cli() {
            before.push(listed.last().pid)
        } else {
            before
        }
    }
}

/// Picks the CLI processes out of all that are listed.
pub fn discover_cli_pids(listed: &[Listed]) -> (pids: Vec<u32>)
    ensures
        pids@ == cli_pids(listed@),
{
    let mut pids: Vec<u32> = Vec::new();
    let mut i: usize = 0;
    assert(listed@.take(0) =~= Seq::empty());
    while i < listed.len()
        invariant
            i <= listed@.len(),
            pids@ == cli_pids(listed@.take(i as int)),
        decreases listed.len() - i,
    {
        assert(listed@.take(i + 1).drop_last() =~= listed@.take(i as int));
        if is_zcode(listed[i].exe.as_str()) {
            if let Some(command) = &listed[i].command {
                if text::contains(command.as_str(), "zcode.cjs") {
                    pids.push(listed[i].pid);
                }
            }
        }
        i = i + 1;
    }
    assert(listed@.take(listed@.len() as int) =~= listed@);
    pids
}

/// The bytes that a process has written, where the system told its counters.
pub fn io_write_bytes(told: bool, write_bytes: u64) -> (n: Option<u64>)
    ensures
        n == (if told {
            Some(write_bytes)
        } else {
            None
        }),
{
    if told {
        Some(write_bytes)
    } else {
        None
    }
}

/// Where a name in a field of fixed length ends: at its first zero.
pub fn name_len(units: &[u16]) -> (n: usize)
    ensures
        n <= units@.len(),
        n < units@.len() ==> units@[n as int] == 0,
        forall|i: int| 0 <= i < n ==> units@[i] != 0,
{
    let mut n: usize = 0;
    while n < units.len() && units[n] != 0
        invariant
            n <= units@.len(),
            forall|i: int| 0 <= i < n ==> units@[i] != 0,
        decreases units.len() - n,
    {
        n = n + 1;
    }
    n
}

/// Where to read on behind the pointer at place `at`: `offset` beyond where it
/// points. A pointer to nothing leads nowhere.
pub open spec fn behind(buf: Seq<u8>, at: int, offset: u64) -> Option<u64> {
    let p = bytes::little_endian(buf.subrange(at, at + 8));
    if p == 0 || p + offset > u64::MAX {
        None
    } else {
        Some((p + offset) as u64)
    }
}

fn follow(buf: &[u8], at: usize, offset: u64) -> (r: Option<u64>)
    requires
        at + 8 <= buf@.len(),
    ensures
        r == behind(buf@, at as int, offset),
{
    let p: u64 = bytes::u64_at(buf, at);
    if p == 0 || p > u64::MAX - offset {
        None
    } else {
        Some(p + offset)
    }
}

/// Where the command line is and how many bytes it has, by its description: the
/// length comes first, the pointer after it. An empty one is none.
pub open spec fn described(string: Seq<u8>) -> Option<Walk> {
    let len = bytes::little_endian(string.subrange(0, 2));
    let at = bytes::little_endian(string.subrange(8, 16));
    if string.len() >= STRING_LEN && len > 0 && at > 0 {
        Some(Walk::Line { at: at as u64, len: len as usize })
    } else {
        None
    }
}

/// What is to be read next on the way to the command line of a process.
#[derive(Clone, Copy, Debug, PartialEq, Eq, Structural)]
pub enum Walk {
    /// The basic information of the process.
    Info,
    /// The pointer to its parameters.
    Pointer { at: u64 },
    /// The description of its command line.
    Description { at: u64 },
    /// The command line itself.
    Line { at: u64, len: usize },
}

impl Walk {
    /// Where the way leads on, by what was read; nowhere behind the command line.
    pub open spec fn leads_to(self, got: Seq<u8>) -> Option<Walk> {
        match self {
            Walk::Info => if got.len() >= BASIC_INFO_LEN {
                match behind(got, 8, PARAMETERS_AT) {
                    Some(at) => Some(Walk::Pointer { at }),
                    None => None,
                }
            } else {
                None
            },
            Walk::Pointer { .. } => if got.len() >= POINTER_LEN {
                match behind(got, 0, COMMAND_LINE_AT) {
                    Some(at) => Some(Walk::Description { at }),
                    None => None,
                }
            } else {
                None
            },
            Walk::Description { .. } => described(got),
            Walk::Line { .. } => None,
        }
    }

    pub fn next(&self, got: &[u8]) -> (r: Option<Walk>)
        ensures
            r == self.leads_to(got@),
    {
        match self {
            Walk::Info => {
                if got.len() < BASIC_INFO_LEN {
                    return None;
                }
                match follow(got, 8, PARAMETERS_AT) {
                    Some(at) => Some(Walk::Pointer { at }),
                    None => None,
                }
            },
            Walk::Pointer { .. } => {
                if got.len() < POINTER_LEN {
                    return None;
                }
                match follow(got, 0, COMMAND_LINE_AT) {
                    Some(at) => Some(Walk::Description { at }),
                    None => None,
                }
            },
            Walk::Description { .. } => {
                if got.len() < STRING_LEN {
                    return None;
                }
                let len: u16 = bytes::u16_at(got, 0);
                let at: u64 = bytes::u64_at(got, 8);
                if len == 0 || at == 0 {
                    return None;
                }
                Some(Walk::Line { at, len: len as usize })
            },
            Walk::Line { .. } => None,
        }
    }

    /// How many bytes are to be read.
    pub fn wants(&self) -> (n: usize)
        ensures
            n == (match *self {
                Walk::Info => BASIC_INFO_LEN,
                Walk::Pointer { .. } => POINTER_LEN,
                Walk::Description { .. } => STRING_LEN,
                Walk::Line { len, .. } => len,
            }),
    {
        match self {
            Walk::Info => BASIC_INFO_LEN,
            Walk::Pointer { .. } => POINTER_LEN,
            Walk::Description { .. } => STRING_LEN,
            Walk::Line { len, .. } => *len,
        }
    }
}

/// The units of 16 bits that a stretch of memory holds; an odd byte at its end is
/// left out.
pub open spec fn units_of(b: Seq<u8>) -> Seq<u16> {
    Seq::new(b.len() / 2, |i: int| bytes::little_endian(b.subrange(2 * i, 2 * i + 2)) as u16)
}

pub fn code_units(b: &[u8]) -> (v: Vec<u16>)
    ensures
        v@ == units_of(b@),
{
    let mut v: Vec<u16> = Vec::new();
    let n: usize = b.len() / 2;
    let mut i: usize = 0;
    while i < n
        invariant
            i <= n,
            n == b@.len() / 2,
            b@.len() <= usize::MAX,
            v@ =~= units_of(b@).take(i as int),
        decreases n - i,
    {
        let unit: u16 = bytes::u16_at(b, 2 * i);
        v.push(unit);
        i = i + 1;
    }
    v
}

/// The bytes of all tracked files: the logs of the CLI and the write-ahead log of
/// its database, where that is there. A sum beyond 64 bits is none.
pub fn tracked_files_total(logs: &[u64], wal: Option<u64>) -> (n: Option<u64>)
    ensures
        ({
            let total = sums::total(logs@) + (match wal {
                Some(w) => w as int,
                None => 0,
            });
            n == (if total <= u64::MAX {
                Some(total as u64)
            } else {
                None
            })
        }),
{
    let in_logs: u128 = sums::sum(logs);
    let in_wal: u64 = match wal {
        Some(w) => w,
        None => 0,
    };
    if in_logs > (u64::MAX - in_wal) as u128 {
        None
    } else {
        Some(in_logs as u64 + in_wal)
    }
}

} // verus!
