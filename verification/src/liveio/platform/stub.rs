//! Systems on which processes cannot be measured.

use vstd::prelude::*;

verus! {

/// A process that cannot be opened.
pub struct ProcHandle {}

/// Finds no process.
pub fn discover_cli_pids() -> (v: Vec<u32>)
    ensures
        v@ == Seq::<u32>::empty(),
{
    Vec::new()
}

/// Opens no process.
pub fn open_proc(pid: u32) -> (h: Option<ProcHandle>)
    ensures
        h is None,
{
    let _ = pid;
    None
}

/// Reads nothing.
pub fn io_write_bytes(h: &ProcHandle) -> (n: Option<u64>)
    ensures
        n is None,
{
    let _ = h;
    None
}

/// No file is tracked.
pub fn tracked_files_total() -> (n: u64)
    ensures
        n == 0,
{
    0
}

} // verus!
