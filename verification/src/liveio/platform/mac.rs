//! macOS: processes are known by an argument, and measured by the bytes that
//! reached the disk.

use vstd::prelude::*;

use super::bytes;

verus! {

/// The bytes of the argument by which a CLI process is known: `zcode-cli`.
pub open spec fn marker() -> Seq<u8> {
    seq![122u8, 99u8, 111u8, 100u8, 101u8, 45u8, 99u8, 108u8, 105u8]
}

/// Where the number of arguments ends and the arguments begin.
pub const ARGS_START: usize = 4;

/// Where the resource record holds the time at which the process began.
pub const START_ABSTIME_AT: usize = 80;

/// Where the resource record holds the bytes written to disk.
pub const DISK_WRITTEN_AT: usize = 152;

/// How long the resource record is.
pub const RECORD_LEN: usize = 296;

/// How many more processes than were counted there may be a moment later.
pub const SPARE_PIDS: usize = 16;

/// What matters of the resource record of a process.
#[derive(Clone, Copy, Debug, PartialEq, Eq, Structural)]
pub struct Rusage {
    pub start_abstime: u64,
    pub disk_bytes_written: u64,
}

/// A process, known by its number and the time at which it began.
#[derive(Clone, Copy, Debug, PartialEq, Eq, Structural)]
pub struct ProcHandle {
    pub pid: u32,
    pub start_abstime: u64,
}

/// What the resource record tells, where it is whole.
pub open spec fn record_of(buf: Seq<u8>) -> Option<Rusage> {
    if buf.len() >= RECORD_LEN {
        Some(
            Rusage {
                start_abstime: bytes::little_endian(
                    buf.subrange(START_ABSTIME_AT as int, START_ABSTIME_AT + 8),
                ) as u64,
                disk_bytes_written: bytes::little_endian(
                    buf.subrange(DISK_WRITTEN_AT as int, DISK_WRITTEN_AT + 8),
                ) as u64,
            },
        )
    } else {
        None
    }
}

/// Reads a resource record.
pub fn read_rusage(buf: &[u8]) -> (r: Option<Rusage>)
    ensures
        r == record_of(buf@),
{
    if buf.len() < RECORD_LEN {
        return None;
    }
    Some(
        Rusage {
            start_abstime: bytes::u64_at(buf, START_ABSTIME_AT),
            disk_bytes_written: bytes::u64_at(buf, DISK_WRITTEN_AT),
        },
    )
}

/// Opens a process: remembers when it began, where that can be read.
pub fn open_proc(pid: u32, rusage: Option<Rusage>) -> (h: Option<ProcHandle>)
    ensures
        h == (match rusage {
            Some(ru) => Some(ProcHandle { pid, start_abstime: ru.start_abstime }),
            None => None,
        }),
{
    match rusage {
        Some(ru) => Some(ProcHandle { pid, start_abstime: ru.start_abstime }),
        None => None,
    }
}

/// The bytes that a process has written since it began. One that is gone, or
/// whose number belongs to another process by now, has none.
pub fn io_write_bytes(h: &ProcHandle, rusage: Option<Rusage>) -> (n: Option<u64>)
    ensures
        n == (match rusage {
            Some(ru) => if ru.start_abstime == h.start_abstime {
                Some(ru.disk_bytes_written)
            } else {
                None
            },
            None => None,
        }),
{
    match rusage {
        Some(ru) => if ru.start_abstime == h.start_abstime {
            Some(ru.disk_bytes_written)
        } else {
            None
        },
        None => None,
    }
}

/// No file is tracked here: the folder can shrink, and what it lost would be
/// counted the wrong way round.
pub fn tracked_files_total() -> (n: u64)
    ensures
        n == 0,
{
    0
}

/// A whole string of the packed arguments, from `from` to `to`: zeros, or the
/// ends of the arguments, stand on either side of it and none inside.
pub open spec fn whole_string(buf: Seq<u8>, from: int, to: int) -> bool {
    &&& ARGS_START <= from < to <= buf.len()
    &&& from == ARGS_START || buf[from - 1] == 0
    &&& to == buf.len() || buf[to] == 0
    &&& forall|i: int| from <= i < to ==> buf[i] != 0
}

/// One of the packed strings is exactly the marker.
pub open spec fn has_marker(buf: Seq<u8>) -> bool {
    exists|from: int, to: int| #[trigger] whole_string(buf, from, to) && buf.subrange(from, to) == marker()
}

fn is_marker(buf: &[u8], from: usize, to: usize) -> (r: bool)
    requires
        from <= to <= buf@.len(),
    ensures
        r == (buf@.subrange(from as int, to as int) == marker()),
{
    assert(marker().len() == 9);
    if to - from != 9 {
        return false;
    }
    let r: bool = buf[from] == 122 && buf[from + 1] == 99 && buf[from + 2] == 111 && buf[from + 3] == 100
        && buf[from + 4] == 101 && buf[from + 5] == 45 && buf[from + 6] == 99 && buf[from + 7] == 108
        && buf[from + 8] == 105;
    proof {
        let part = buf@.subrange(from as int, to as int);
        if r {
            assert(part =~= marker());
        } else if part == marker() {
            assert(part[0] == buf@[from as int] && part[1] == buf@[from + 1] && part[2] == buf@[from + 2]);
            assert(part[3] == buf@[from + 3] && part[4] == buf@[from + 4] && part[5] == buf@[from + 5]);
            assert(part[6] == buf@[from + 6] && part[7] == buf@[from + 7] && part[8] == buf@[from + 8]);
        }
    }
    r
}

/// Whether the packed arguments of a process hold the marker. Padding of zeros
/// between the strings is skipped; the number of arguments is not relied upon.
pub fn argv_has_cli_marker(buf: &[u8]) -> (r: bool)
    ensures
        r == has_marker(buf@),
{
    let len: usize = buf.len();
    if len < ARGS_START {
        return false;
    }
    let mut pos: usize = ARGS_START;
    while pos < len
        invariant
            ARGS_START <= pos <= len,
            len == buf@.len(),
            pos == ARGS_START || pos == len || buf@[pos - 1] == 0 || buf@[pos as int] == 0,
            forall|from: int, to: int|
                #[trigger] whole_string(buf@, from, to) && from < pos ==> buf@.subrange(from, to) != marker(),
        decreases len - pos,
    {
        if buf[pos] == 0 {
            proof {
                assert forall|from: int, to: int| #[trigger]
                    whole_string(buf@, from, to) && from < pos + 1 implies buf@.subrange(from, to) != marker() by {
                    if from == pos {
                        assert(buf@[from] != 0);
                    }
                }
            }
            pos = pos + 1;
        } else {
            let start: usize = pos;
            let mut end: usize = pos;
            while end < len && buf[end] != 0
                invariant
                    start <= end <= len,
                    len == buf@.len(),
                    forall|i: int| start <= i < end ==> buf@[i] != 0,
                decreases len - end,
            {
                end = end + 1;
            }
            assert(whole_string(buf@, start as int, end as int));
            if is_marker(buf, start, end) {
                return true;
            }
            proof {
                assert forall|from: int, to: int| #[trigger]
                    whole_string(buf@, from, to) && from < end implies buf@.subrange(from, to) != marker() by {
                    if from >= start {
                        if from > start {
                            assert(buf@[from - 1] != 0);
                        }
                        if to < end {
                            assert(buf@[to] != 0);
                        }
                        if to > end {
                            assert(buf@[end as int] != 0);
                        }
                        assert(to == end);
                    }
                }
            }
            pos = end;
        }
    }
    false
}

/// The numbers of the listed processes that are CLI processes: those above zero
/// that bear the marker.
pub open spec fn cli_pids(listed: Seq<(i32, bool)>) -> Seq<u32>
    decreases listed.len(),
{
    if listed.len() == 0 {
        Seq::empty()
    } else {
        let before = cli_pids(listed.drop_last());
        if listed.last().0 > 0 && listed.last().1 {
            before.push(listed.last().0 as u32)
        } else {
            before
        }
    }
}

/// Picks the CLI processes out of all that are listed, each with whether its
/// arguments hold the marker.
pub fn discover_cli_pids(listed: &[(i32, bool)]) -> (pids: Vec<u32>)
    ensures
        pids@ == cli_pids(listed@),
{
    let mut pids: Vec<u32> = Vec::new();
    let mut i: usize = 0;
    assert(listed@.take(0) =~= Seq::empty());
    while i < listed.len()
        invariant
            i <= listed@.len(),
            pids@ == cli_pids(listed@.take(i as int)),
        decreases listed.len() - i,
    {
        assert(listed@.take(i + 1).drop_last() =~= listed@.take(i as int));
        let (pid, marked): (i32, bool) = listed[i];
        if pid > 0 && marked {
            pids.push(pid as u32);
        }
        i = i + 1;
    }
    assert(listed@.take(listed@.len() as int) =~= listed@);
    pids
}

/// How many places to offer for a list of processes, when `counted` of them were
/// counted before.
pub fn pid_capacity(counted: i32) -> (n: Option<usize>)
    ensures
        n == (if counted > 0 {
            Some((counted + SPARE_PIDS) as usize)
        } else {
            None
        }),
        n matches Some(places) ==> places == counted + 16,
{
    if counted > 0 {
        Some(counted as usize + SPARE_PIDS)
    } else {
        None
    }
}

} // verus!
