//! The samples of each process, and what their ticks add up to.

use vstd::prelude::*;

use crate::exact::Amount;

use super::calibration;
use super::params::CleanParams;
use super::rows;
use super::rows::TickRow;

verus! {

/// The most samples kept of one series.
pub const RING_CAP: usize = 260;

/// A process and the newest samples of the bytes it has written.
#[derive(Debug)]
pub struct ProcRing {
    pub pid: u32,
    pub samples: Vec<(i64, u64)>,
}

/// A process and its samples, as a value of specifications.
pub struct Ring {
    pub pid: u32,
    pub samples: Seq<(i64, u64)>,
}

impl View for ProcRing {
    type V = Ring;

    open spec fn view(&self) -> Ring {
        Ring { pid: self.pid, samples: self.samples@ }
    }
}

/// What the processes hold.
pub open spec fn rings_of(procs: Seq<ProcRing>) -> Seq<Ring> {
    procs.map_values(|r: ProcRing| r@)
}

/// A series as long as it may be, with times that can be told apart.
pub open spec fn kept_series(s: Seq<(i64, u64)>) -> bool {
    &&& s.len() <= RING_CAP
    &&& forall|i: int| 0 <= i < s.len() ==> rows::time_ok((#[trigger] s[i]).0)
}

/// Series of distinct processes.
pub open spec fn rings_ok(rings: Seq<Ring>) -> bool {
    &&& forall|i: int| 0 <= i < rings.len() ==> kept_series((#[trigger] rings[i]).samples)
    &&& forall|i: int, j: int|
        0 <= i < j < rings.len() ==> (#[trigger] rings[i]).pid != (#[trigger] rings[j]).pid
}

/// A series after one more sample: the newest [`RING_CAP`] of them.
pub open spec fn extended(s: Seq<(i64, u64)>, sample: (i64, u64)) -> Seq<(i64, u64)> {
    let t = s.push(sample);
    if t.len() > RING_CAP {
        t.skip(t.len() - RING_CAP)
    } else {
        t
    }
}

pub fn extend(s: &mut Vec<(i64, u64)>, sample: (i64, u64))
    requires
        kept_series(old(s)@),
        rows::time_ok(sample.0),
    ensures
        final(s)@ == extended(old(s)@, sample),
        kept_series(final(s)@),
{
    s.push(sample);
    if s.len() > RING_CAP {
        let _ = s.remove(0);
    }
    assert(s@ =~= extended(old(s)@, sample));
}

/// What was read of process `pid`, in the first reading that names it.
pub open spec fn reading(readings: Seq<(u32, u64)>, pid: u32) -> Option<u64>
    decreases readings.len(),
{
    if readings.len() == 0 {
        None
    } else if readings[0].0 == pid {
        Some(readings[0].1)
    } else {
        reading(readings.drop_first(), pid)
    }
}

fn read_of(readings: &[(u32, u64)], pid: u32) -> (r: Option<u64>)
    ensures
        r == reading(readings@, pid),
{
    let mut i: usize = 0;
    assert(readings@.skip(0) =~= readings@);
    while i < readings.len()
        invariant
            i <= readings@.len(),
            reading(readings@, pid) == reading(readings@.skip(i as int), pid),
        decreases readings.len() - i,
    {
        assert(readings@.skip(i as int).drop_first() =~= readings@.skip(i + 1));
        if readings[i].0 == pid {
            return Some(readings[i].1);
        }
        i = i + 1;
    }
    None
}

/// The processes after a round of readings: each has one more sample, and those
/// that could not be read are gone.
pub open spec fn sampled(rings: Seq<Ring>, readings: Seq<(u32, u64)>, now_ms: i64) -> Seq<Ring>
    decreases rings.len(),
{
    if rings.len() == 0 {
        Seq::empty()
    } else {
        let before = sampled(rings.drop_last(), readings, now_ms);
        match reading(readings, rings.last().pid) {
            Some(w) => before.push(
                Ring { pid: rings.last().pid, samples: extended(rings.last().samples, (now_ms, w)) },
            ),
            None => before,
        }
    }
}

pub fn sample(procs: Vec<ProcRing>, readings: &[(u32, u64)], now_ms: i64) -> (out: Vec<ProcRing>)
    requires
        rings_ok(rings_of(procs@)),
        rows::time_ok(now_ms),
    ensures
        rings_of(out@) == sampled(rings_of(procs@), readings@, now_ms),
        rings_ok(rings_of(out@)),
{
    let ghost given = rings_of(procs@);
    let mut rest: Vec<ProcRing> = procs;
    let mut done: usize = 0;
    let total: usize = rest.len();
    assert(given.take(0) =~= Seq::empty());
    while done < total
        invariant
            done <= total,
            total == given.len(),
            rings_ok(given),
            rows::time_ok(now_ms),
            rest@.len() <= total,
            rest@.len() >= total - done,
            rings_ok(sampled(given.take(done as int), readings@, now_ms)),
            forall|i: int|
                0 <= i < rings_of(rest@).len() - (total - done) ==> #[trigger] rings_of(rest@)[i]
                    == sampled(given.take(done as int), readings@, now_ms)[i],
            sampled(given.take(done as int), readings@, now_ms).len() == rest@.len() - (total - done),
            forall|i: int|
                done <= i < total ==> rings_of(rest@)[i - total + rest@.len()] == #[trigger] given[i],
            forall|i: int|
                0 <= i < sampled(given.take(done as int), readings@, now_ms).len() ==> exists|j: int|
                    0 <= j < done && (#[trigger] given[j]).pid == (#[trigger] sampled(
                        given.take(done as int),
                        readings@,
                        now_ms,
                    )[i]).pid,
        decreases total - done,
    {
        let at: usize = rest.len() - (total - done);
        let ghost was = rest@;
        let ghost seen = sampled(given.take(done as int), readings@, now_ms);
        proof {
            assert(given.take(done + 1).drop_last() =~= given.take(done as int));
            assert(rings_of(rest@)[at as int] == given[done as int]);
            assert(kept_series(given[done as int].samples));
        }
        match read_of(readings, rest[at].pid) {
            Some(w) => {
                let mut ring: ProcRing = rest.remove(at);
                extend(&mut ring.samples, (now_ms, w));
                rest.insert(at, ring);
                proof {
                    assert(rest@ =~= was.update(at as int, rest@[at as int]));
                    assert(sampled(given.take(done + 1), readings@, now_ms) =~= seen.push(rest@[at as int]@));
                }
            },
            None => {
                let _ = rest.remove(at);
                proof {
                    assert(rest@ =~= was.remove(at as int));
                    assert(sampled(given.take(done + 1), readings@, now_ms) =~= seen);
                }
            },
        }
        done = done + 1;
        proof {
            let now_seen = sampled(given.take(done as int), readings@, now_ms);
            assert forall|i: int| 0 <= i < now_seen.len() implies #[trigger] rings_of(rest@)[i]
                == now_seen[i] by {
                if i < seen.len() {
                    assert(rest@[i] == was[i]);
                    assert(rings_of(was)[i] == seen[i]);
                }
            }
            assert forall|i: int, j: int| 0 <= i < j < now_seen.len() implies (#[trigger] now_seen[i]).pid != (
            #[trigger] now_seen[j]).pid by {
                assert(now_seen[i] == seen[i]);
                if j == seen.len() {
                    let k = choose|k: int| 0 <= k < done - 1 && (#[trigger] given[k]).pid == seen[i].pid;
                    assert(given[k].pid != given[done - 1].pid);
                } else {
                    assert(now_seen[j] == seen[j]);
                }
            }
            assert forall|i: int| 0 <= i < now_seen.len() implies exists|j: int|
                0 <= j < done && (#[trigger] given[j]).pid == (#[trigger] now_seen[i]).pid by {
                if i < seen.len() {
                    assert(now_seen[i] == seen[i]);
                    let k = choose|k: int| 0 <= k < done - 1 && (#[trigger] given[k]).pid == seen[i].pid;
                    assert(given[k].pid == now_seen[i].pid);
                } else {
                    assert(given[done - 1].pid == now_seen[i].pid);
                }
            }
        }
    }
    assert(given.take(total as int) =~= given);
    assert(rings_of(rest@) =~= sampled(given, readings@, now_ms));
    rest
}

/// Whether process `pid` is among the processes.
pub open spec fn has_pid(rings: Seq<Ring>, pid: u32) -> bool {
    exists|i: int| 0 <= i < rings.len() && (#[trigger] rings[i]).pid == pid
}

/// The processes, with each one of `opened` that was not there yet.
pub open spec fn admitted(rings: Seq<Ring>, opened: Seq<u32>) -> Seq<Ring>
    decreases opened.len(),
{
    if opened.len() == 0 {
        rings
    } else {
        let before = admitted(rings, opened.drop_last());
        if has_pid(before, opened.last()) {
            before
        } else {
            before.push(Ring { pid: opened.last(), samples: Seq::empty() })
        }
    }
}

/// The processes after a look at the system: those in `found` stay, and those in
/// `opened` join them.
pub open spec fn refreshed(rings: Seq<Ring>, found: Seq<u32>, opened: Seq<u32>) -> Seq<Ring> {
    admitted(rings.filter(|r: Ring| found.contains(r.pid)), opened)
}

/// Where process `pid` is among the processes.
pub fn find(procs: &Vec<ProcRing>, pid: u32) -> (r: Option<usize>)
    ensures
        match r {
            Some(i) => i < procs@.len() && procs@[i as int].pid == pid && rings_of(procs@)[i as int].pid == pid,
            None => !has_pid(rings_of(procs@), pid),
        },
{
    let mut i: usize = 0;
    while i < procs.len()
        invariant
            i <= procs@.len(),
            forall|j: int| 0 <= j < i ==> (#[trigger] rings_of(procs@)[j]).pid != pid,
        decreases procs.len() - i,
    {
        if procs[i].pid == pid {
            return Some(i);
        }
        i = i + 1;
    }
    None
}

fn holds(pids: &[u32], pid: u32) -> (r: bool)
    ensures
        r == pids@.contains(pid),
{
    let mut i: usize = 0;
    while i < pids.len()
        invariant
            i <= pids@.len(),
            forall|j: int| 0 <= j < i ==> pids@[j] != pid,
        decreases pids.len() - i,
    {
        if pids[i] == pid {
            return true;
        }
        i = i + 1;
    }
    false
}

proof fn lemma_filter_keeps(rings: Seq<Ring>, p: spec_fn(Ring) -> bool)
    requires
        rings_ok(rings),
    ensures
        rings_ok(rings.filter(p)),
        forall|i: int|
            0 <= i < rings.filter(p).len() ==> exists|j: int|
                0 <= j < rings.len() && (#[trigger] rings[j]).pid == (#[trigger] rings.filter(p)[i]).pid,
    decreases rings.len(),
{
    reveal(Seq::filter);
    if rings.len() > 0 {
        let front = rings.drop_last();
        let rest = front.filter(p);
        let out = rings.filter(p);
        assert(rings_ok(front));
        lemma_filter_keeps(front, p);
        assert forall|i: int| 0 <= i < out.len() implies exists|j: int|
            0 <= j < rings.len() && (#[trigger] rings[j]).pid == (#[trigger] out[i]).pid by {
            if i < rest.len() {
                assert(out[i] == rest[i]);
                let j = choose|j: int| 0 <= j < front.len() && (#[trigger] front[j]).pid == rest[i].pid;
                assert(rings[j].pid == out[i].pid);
            } else {
                assert(rings[rings.len() - 1].pid == out[i].pid);
            }
        }
        assert forall|i: int, j: int| 0 <= i < j < out.len() implies (#[trigger] out[i]).pid != (
        #[trigger] out[j]).pid by {
            assert(out[i] == rest[i]);
            if j < rest.len() {
                assert(out[j] == rest[j]);
            } else {
                let k = choose|k: int| 0 <= k < front.len() && (#[trigger] front[k]).pid == rest[i].pid;
                assert(rings[k].pid != rings[rings.len() - 1].pid);
            }
        }
        assert forall|i: int| 0 <= i < out.len() implies kept_series((#[trigger] out[i]).samples) by {
            if i < rest.len() {
                assert(out[i] == rest[i]);
            } else {
                assert(out[i] == rings[rings.len() - 1]);
            }
        }
    }
}

/// Takes a look at the system into account: see [`refreshed`].
pub fn refresh(procs: Vec<ProcRing>, found: &[u32], opened: &[u32]) -> (out: Vec<ProcRing>)
    requires
        rings_ok(rings_of(procs@)),
    ensures
        rings_of(out@) == refreshed(rings_of(procs@), found@, opened@),
        rings_ok(rings_of(out@)),
{
    let ghost given = rings_of(procs@);
    let ghost here = |r: Ring| found@.contains(r.pid);
    let mut rest: Vec<ProcRing> = procs;
    let mut out: Vec<ProcRing> = Vec::new();
    assert(given.skip(0) =~= given);
    proof {
        reveal(Seq::filter);
    }
    while rest.len() > 0
        invariant
            here == (|r: Ring| found@.contains(r.pid)),
            rest@.len() <= given.len(),
            rings_of(rest@) =~= given.skip(given.len() - rest@.len()),
            rings_of(out@) =~= given.take(given.len() - rest@.len()).filter(here),
        decreases rest@.len(),
    {
        let ghost n = given.len() - rest@.len();
        let ghost was = rings_of(rest@);
        let ghost before = out@;
        let ring: ProcRing = rest.remove(0);
        proof {
            reveal(Seq::filter);
            assert(ring@ == was[0]);
            assert(ring@ == given[n]);
            assert(given.take(n + 1).drop_last() =~= given.take(n));
            assert(given.take(n + 1).last() == given[n]);
            assert(rings_of(rest@) =~= was.drop_first());
        }
        if holds(found, ring.pid) {
            out.push(ring);
            assert(rings_of(out@) =~= rings_of(before).push(given[n]));
        }
    }
    proof {
        assert(given.take(given.len() as int) =~= given);
        lemma_filter_keeps(given, here);
    }
    let ghost base = rings_of(out@);
    assert(opened@.take(0) =~= Seq::empty());
    let mut i: usize = 0;
    while i < opened.len()
        invariant
            i <= opened@.len(),
            rings_of(out@) == admitted(base, opened@.take(i as int)),
            rings_ok(rings_of(out@)),
        decreases opened.len() - i,
    {
        let ghost before = rings_of(out@);
        assert(opened@.take(i + 1).drop_last() =~= opened@.take(i as int));
        if find(&out, opened[i]).is_none() {
            out.push(ProcRing { pid: opened[i], samples: Vec::new() });
            proof {
                assert(rings_of(out@) =~= before.push(Ring { pid: opened@[i as int], samples: Seq::empty() }));
                let now = rings_of(out@);
                assert forall|a: int, b: int| 0 <= a < b < now.len() implies (#[trigger] now[a]).pid != (
                #[trigger] now[b]).pid by {
                    assert(now[a] == before[a]);
                    if b < before.len() {
                        assert(now[b] == before[b]);
                    }
                }
            }
        }
        i = i + 1;
    }
    assert(opened@.take(opened@.len() as int) =~= opened@);
    out
}

pub open spec fn pids_of(rings: Seq<Ring>) -> Seq<u32> {
    rings.map_values(|r: Ring| r.pid)
}

pub fn pids(procs: &Vec<ProcRing>) -> (v: Vec<u32>)
    ensures
        v@ == pids_of(rings_of(procs@)),
{
    let mut v: Vec<u32> = Vec::new();
    let mut i: usize = 0;
    while i < procs.len()
        invariant
            i <= procs@.len(),
            v@ =~= pids_of(rings_of(procs@)).take(i as int),
        decreases procs.len() - i,
    {
        v.push(procs[i].pid);
        i = i + 1;
    }
    v
}

/// There are no more distinct processes than process numbers.
pub proof fn lemma_ring_count(rings: Seq<Ring>)
    requires
        rings_ok(rings),
    ensures
        rings.len() <= 0x1_0000_0000,
{
    let ids = rings.map_values(|r: Ring| r.pid as int);
    assert(ids.no_duplicates()) by {
        assert forall|i: int, j: int| 0 <= i < j < ids.len() implies ids[i] != ids[j] by {
            assert(rings[i].pid != rings[j].pid);
        }
    }
    ids.unique_seq_to_set();
    vstd::set_lib::lemma_int_range(0, 0x1_0000_0000);
    vstd::set_lib::lemma_len_subset(ids.to_set(), vstd::set_lib::set_int_range(0, 0x1_0000_0000));
}

/// What a process wrote in the ticks that touch `from_ms..=to_ms`, in bytes.
pub open spec fn raw_between(samples: Seq<(i64, u64)>, from_ms: i64, to_ms: i64) -> int
    decreases samples.len(),
{
    if samples.len() < 2 {
        0
    } else {
        let a = samples[samples.len() - 2];
        let b = samples[samples.len() - 1];
        raw_between(samples.drop_last(), from_ms, to_ms) + (if b.0 >= from_ms && a.0 <= to_ms {
            rows::gained(a, b)
        } else {
            0
        })
    }
}

/// What all processes wrote in the ticks that touch `from_ms..=to_ms`.
pub open spec fn raw_total(rings: Seq<Ring>, from_ms: i64, to_ms: i64) -> int
    decreases rings.len(),
{
    if rings.len() == 0 {
        0
    } else {
        raw_total(rings.drop_last(), from_ms, to_ms) + raw_between(rings.last().samples, from_ms, to_ms)
    }
}

/// The process that wrote most in those ticks; of several, the last.
pub open spec fn top_writer(rings: Seq<Ring>, from_ms: i64, to_ms: i64) -> Option<Ring>
    decreases rings.len(),
{
    if rings.len() == 0 {
        None
    } else {
        match top_writer(rings.drop_last(), from_ms, to_ms) {
            Some(best) => if raw_between(rings.last().samples, from_ms, to_ms) >= raw_between(
                best.samples,
                from_ms,
                to_ms,
            ) {
                Some(rings.last())
            } else {
                Some(best)
            },
            None => Some(rings.last()),
        }
    }
}

pub open spec fn top_pid(rings: Seq<Ring>, from_ms: i64, to_ms: i64) -> Option<u32> {
    match top_writer(rings, from_ms, to_ms) {
        Some(r) => Some(r.pid),
        None => None,
    }
}

fn raw_of(samples: &Vec<(i64, u64)>, from_ms: i64, to_ms: i64) -> (n: u128)
    requires
        samples@.len() <= RING_CAP,
    ensures
        n == raw_between(samples@, from_ms, to_ms),
        n <= RING_CAP * u64::MAX,
{
    let mut n: u128 = 0;
    let mut i: usize = 1;
    while i < samples.len()
        invariant
            1 <= i,
            samples@.len() > 0 ==> i <= samples@.len(),
            samples@.len() <= RING_CAP,
            n == raw_between(
                samples@.take(if samples@.len() == 0 { 0 } else { i as int }),
                from_ms,
                to_ms,
            ),
            n <= (i - 1) * u64::MAX,
        decreases samples.len() - i,
    {
        let a: (i64, u64) = samples[i - 1];
        let b: (i64, u64) = samples[i];
        proof {
            assert(samples@.take(i + 1).drop_last() =~= samples@.take(i as int));
            assert(i * u64::MAX == (i - 1) * u64::MAX + u64::MAX) by (nonlinear_arith);
            assert(i * u64::MAX <= RING_CAP * u64::MAX) by (nonlinear_arith)
                requires
                    i <= RING_CAP,
            ;
        }
        if b.0 >= from_ms && a.0 <= to_ms {
            n = n + b.1.saturating_sub(a.1) as u128;
        }
        i = i + 1;
    }
    proof {
        assert(samples@.take(samples@.len() as int) =~= samples@);
        if samples@.len() > 0 {
            assert((i - 1) * u64::MAX <= RING_CAP * u64::MAX) by (nonlinear_arith)
                requires
                    i <= RING_CAP,
            ;
        }
    }
    n
}

/// What all processes wrote in a span of time, and which of them wrote most.
pub fn raw_written(procs: &Vec<ProcRing>, from_ms: i64, to_ms: i64) -> (r: (u128, Option<u32>))
    requires
        rings_ok(rings_of(procs@)),
    ensures
        r.0 == raw_total(rings_of(procs@), from_ms, to_ms),
        r.1 == top_pid(rings_of(procs@), from_ms, to_ms),
{
    let ghost rings = rings_of(procs@);
    proof {
        lemma_ring_count(rings);
    }
    let mut total: u128 = 0;
    let mut best: Option<(u32, u128)> = None;
    let mut i: usize = 0;
    assert(rings.take(0) =~= Seq::empty());
    while i < procs.len()
        invariant
            i <= procs@.len(),
            rings == rings_of(procs@),
            rings.len() <= 0x1_0000_0000,
            rings_ok(rings),
            total == raw_total(rings.take(i as int), from_ms, to_ms),
            total <= i * (RING_CAP * u64::MAX),
            match top_writer(rings.take(i as int), from_ms, to_ms) {
                Some(r) => best == Some((r.pid, raw_between(r.samples, from_ms, to_ms) as u128)) && 0
                    <= raw_between(r.samples, from_ms, to_ms) <= u128::MAX,
                None => best is None,
            },
        decreases procs.len() - i,
    {
        proof {
            assert(rings.take(i + 1).drop_last() =~= rings.take(i as int));
            assert(rings.take(i + 1).last() == procs@[i as int]@);
            assert(kept_series(rings[i as int].samples));
            assert((i + 1) * (RING_CAP * u64::MAX) == i * (RING_CAP * u64::MAX) + RING_CAP * u64::MAX)
                by (nonlinear_arith);
            assert((i + 1) * (RING_CAP * u64::MAX) <= 0x1_0000_0000 * (RING_CAP * u64::MAX)) by (nonlinear_arith)
                requires
                    i + 1 <= 0x1_0000_0000,
            ;
        }
        let n: u128 = raw_of(&procs[i].samples, from_ms, to_ms);
        total = total + n;
        let wins: bool = match best {
            Some((_, most)) => n >= most,
            None => true,
        };
        if wins {
            best = Some((procs[i].pid, n));
        }
        i = i + 1;
    }
    assert(rings.take(procs@.len() as int) =~= rings);
    let top: Option<u32> = match best {
        Some((pid, _)) => Some(pid),
        None => None,
    };
    (total, top)
}

/// The cleaned ticks of a process.
pub open spec fn ring_rows(ring: Ring, files: Seq<(i64, u64)>, p: CleanParams) -> Seq<TickRow> {
    rows::rows_of(ring.samples, files, calibration::adaptive_floor(ring.samples), p)
}

/// What the ticks of process `pid` have in `from_ms..to_ms`.
pub open spec fn pid_span(
    rings: Seq<Ring>,
    files: Seq<(i64, u64)>,
    p: CleanParams,
    pid: u32,
    from_ms: i64,
    to_ms: i64,
) -> (real, int)
    decreases rings.len(),
{
    if rings.len() == 0 {
        (0 as real, 0)
    } else if rings.last().pid == pid {
        rows::integral(ring_rows(rings.last(), files, p), from_ms, to_ms)
    } else {
        pid_span(rings.drop_last(), files, p, pid, from_ms, to_ms)
    }
}

/// What the ticks of all processes have in `from_ms..to_ms`, bytes and time each
/// added up.
pub open spec fn total_span(
    rings: Seq<Ring>,
    files: Seq<(i64, u64)>,
    p: CleanParams,
    from_ms: i64,
    to_ms: i64,
) -> (real, int)
    decreases rings.len(),
{
    if rings.len() == 0 {
        (0 as real, 0)
    } else {
        let before = total_span(rings.drop_last(), files, p, from_ms, to_ms);
        let last = rows::integral(ring_rows(rings.last(), files, p), from_ms, to_ms);
        (before.0 + last.0, before.1 + last.1)
    }
}

/// The rows are the cleaned ticks of the processes, in their order.
pub open spec fn cleaned(
    all: Seq<Vec<TickRow>>,
    rings: Seq<Ring>,
    files: Seq<(i64, u64)>,
    p: CleanParams,
) -> bool {
    &&& all.len() == rings.len()
    &&& forall|i: int|
        0 <= i < all.len() ==> #[trigger] all[i]@ == ring_rows(rings[i], files, p) && all[i]@.len()
            <= RING_CAP
}

/// Cleans the ticks of every process.
pub fn clean(procs: &Vec<ProcRing>, files: &Vec<(i64, u64)>, p: &CleanParams) -> (all: Vec<Vec<TickRow>>)
    requires
        rings_ok(rings_of(procs@)),
        files@.len() <= RING_CAP,
    ensures
        cleaned(all@, rings_of(procs@), files@, *p),
{
    let ghost rings = rings_of(procs@);
    let mut all: Vec<Vec<TickRow>> = Vec::new();
    let mut i: usize = 0;
    while i < procs.len()
        invariant
            i <= procs@.len(),
            rings == rings_of(procs@),
            rings_ok(rings),
            files@.len() <= RING_CAP,
            all@.len() == i,
            forall|j: int|
                0 <= j < i ==> #[trigger] all@[j]@ == ring_rows(rings[j], files@, *p) && all@[j]@.len()
                    <= RING_CAP,
        decreases procs.len() - i,
    {
        assert(kept_series(rings[i as int].samples));
        assert(procs@[i as int]@ == rings[i as int]);
        let floor: u128 = calibration::noise_floor(&procs[i].samples);
        let r: Vec<TickRow> = rows::build_rows(&procs[i].samples, files, floor, p);
        all.push(r);
        i = i + 1;
    }
    all
}

/// The time that a few ticks have in a span is not long.
proof fn lemma_integral_short(r: Seq<TickRow>, from_ms: i64, to_ms: i64)
    ensures
        0 <= rows::integral(r, from_ms, to_ms).1 <= u64::MAX * r.len(),
        r.len() <= RING_CAP ==> rows::integral(r, from_ms, to_ms).1 <= u64::MAX * RING_CAP,
    decreases r.len(),
{
    if r.len() > 0 {
        let front = r.drop_last();
        lemma_integral_short(front, from_ms, to_ms);
        assert(u64::MAX * r.len() == u64::MAX * front.len() + u64::MAX) by (nonlinear_arith)
            requires
                r.len() == front.len() + 1,
        ;
    }
    assert(r.len() <= RING_CAP ==> u64::MAX * r.len() <= u64::MAX * RING_CAP) by (nonlinear_arith);
}

/// The ticks of all processes in a span of time.
pub(crate) fn span_all(
    procs: &Vec<ProcRing>,
    all: &Vec<Vec<TickRow>>,
    Ghost(files): Ghost<Seq<(i64, u64)>>,
    p: &CleanParams,
    from_ms: i64,
    to_ms: i64,
) -> (sum: (Amount, i128))
    requires
        rings_ok(rings_of(procs@)),
        cleaned(all@, rings_of(procs@), files, *p),
    ensures
        (sum.0.value(), sum.1 as int) == total_span(rings_of(procs@), files, *p, from_ms, to_ms),
        0 <= sum.1 <= 0x1_0000_0000 * (u64::MAX * RING_CAP),
{
    let ghost rings = rings_of(procs@);
    let ghost longest = u64::MAX * RING_CAP;
    proof {
        lemma_ring_count(rings);
        assert(rings.take(0) =~= Seq::empty());
    }
    let mut bytes: Amount = Amount::zero();
    let mut ms: i128 = 0;
    let mut i: usize = 0;
    while i < all.len()
        invariant
            i <= all@.len(),
            rings == rings_of(procs@),
            rings.len() <= 0x1_0000_0000,
            cleaned(all@, rings, files, *p),
            longest == u64::MAX * RING_CAP,
            (bytes.value(), ms as int) == total_span(rings.take(i as int), files, *p, from_ms, to_ms),
            0 <= ms <= longest * i,
        decreases all.len() - i,
    {
        proof {
            assert(rings.take(i + 1).drop_last() =~= rings.take(i as int));
            assert(rings.take(i + 1).last() == rings[i as int]);
            assert(all@[i as int]@ == ring_rows(rings[i as int], files, *p));
            lemma_integral_short(all@[i as int]@, from_ms, to_ms);
            assert(longest * (i + 1) == longest * i + longest) by (nonlinear_arith);
            assert(longest * (i + 1) <= longest * 0x1_0000_0000) by (nonlinear_arith)
                requires
                    i + 1 <= 0x1_0000_0000,
                    longest >= 0,
            ;
        }
        let part: (Amount, i128) = rows::integrate(&all[i], from_ms, to_ms);
        bytes = bytes.plus(&part.0);
        ms = ms + part.1;
        i = i + 1;
    }
    proof {
        assert(rings.take(all@.len() as int) =~= rings);
        assert(longest * i <= longest * 0x1_0000_0000) by (nonlinear_arith)
            requires
                i <= 0x1_0000_0000,
                longest >= 0,
        ;
        assert(longest * 0x1_0000_0000 == 0x1_0000_0000 * longest) by (nonlinear_arith);
    }
    (bytes, ms)
}

/// The span of a process is that of its own ticks.
pub proof fn lemma_pid_span(
    rings: Seq<Ring>,
    files: Seq<(i64, u64)>,
    p: CleanParams,
    i: int,
    from_ms: i64,
    to_ms: i64,
)
    requires
        rings_ok(rings),
        0 <= i < rings.len(),
    ensures
        pid_span(rings, files, p, rings[i].pid, from_ms, to_ms) == rows::integral(
            ring_rows(rings[i], files, p),
            from_ms,
            to_ms,
        ),
    decreases rings.len(),
{
    if i < rings.len() - 1 {
        assert(rings[i].pid != rings[rings.len() - 1].pid);
        assert(rings_ok(rings.drop_last()));
        assert(rings.drop_last()[i] == rings[i]);
        lemma_pid_span(rings.drop_last(), files, p, i, from_ms, to_ms);
    }
}

/// A process that is not there has written nothing.
pub proof fn lemma_absent_span(
    rings: Seq<Ring>,
    files: Seq<(i64, u64)>,
    p: CleanParams,
    pid: u32,
    from_ms: i64,
    to_ms: i64,
)
    requires
        !has_pid(rings, pid),
    ensures
        pid_span(rings, files, p, pid, from_ms, to_ms) == (0 as real, 0int),
    decreases rings.len(),
{
    if rings.len() > 0 {
        assert(rings[rings.len() - 1].pid != pid);
        assert(!has_pid(rings.drop_last(), pid)) by {
            if has_pid(rings.drop_last(), pid) {
                let i = choose|i: int|
                    0 <= i < rings.drop_last().len() && (#[trigger] rings.drop_last()[i]).pid == pid;
                assert(rings[i].pid == pid);
            }
        }
        lemma_absent_span(rings.drop_last(), files, p, pid, from_ms, to_ms);
    }
}

/// The ticks of one process in a span of time.
pub(crate) fn span_pid(
    procs: &Vec<ProcRing>,
    all: &Vec<Vec<TickRow>>,
    Ghost(files): Ghost<Seq<(i64, u64)>>,
    p: &CleanParams,
    pid: u32,
    from_ms: i64,
    to_ms: i64,
) -> (sum: (Amount, i128))
    requires
        rings_ok(rings_of(procs@)),
        cleaned(all@, rings_of(procs@), files, *p),
    ensures
        (sum.0.value(), sum.1 as int) == pid_span(rings_of(procs@), files, *p, pid, from_ms, to_ms),
        0 <= sum.1 <= 0x1_0000_0000 * (u64::MAX * RING_CAP),
{
    let ghost rings = rings_of(procs@);
    match find(procs, pid) {
        Some(i) => {
            proof {
                lemma_pid_span(rings, files, *p, i as int, from_ms, to_ms);
                assert(all@[i as int]@ == ring_rows(rings[i as int], files, *p));
                lemma_integral_short(all@[i as int]@, from_ms, to_ms);
            }
            rows::integrate(&all[i], from_ms, to_ms)
        },
        None => {
            proof {
                lemma_absent_span(rings, files, *p, pid, from_ms, to_ms);
            }
            (Amount::zero(), 0)
        },
    }
}

/// A process after a round of readings was there before.
proof fn lemma_sampled_was_there(rings: Seq<Ring>, readings: Seq<(u32, u64)>, now_ms: i64, i: int)
    requires
        0 <= i < sampled(rings, readings, now_ms).len(),
    ensures
        has_pid(rings, sampled(rings, readings, now_ms)[i].pid),
    decreases rings.len(),
{
    let front = rings.drop_last();
    let before = sampled(front, readings, now_ms);
    let pid = sampled(rings, readings, now_ms)[i].pid;
    if i < before.len() {
        lemma_sampled_was_there(front, readings, now_ms, i);
        let j = choose|j: int| 0 <= j < front.len() && (#[trigger] front[j]).pid == pid;
        assert(rings[j].pid == pid);
    } else {
        assert(rings[rings.len() - 1].pid == pid);
    }
}

/// A round of readings leaves series of distinct processes.
pub proof fn lemma_sampled_ok(rings: Seq<Ring>, readings: Seq<(u32, u64)>, now_ms: i64)
    requires
        rings_ok(rings),
        rows::time_ok(now_ms),
    ensures
        rings_ok(sampled(rings, readings, now_ms)),
    decreases rings.len(),
{
    if rings.len() > 0 {
        let front = rings.drop_last();
        let last = rings[rings.len() - 1];
        assert(rings_ok(front));
        lemma_sampled_ok(front, readings, now_ms);
        assert(kept_series(last.samples));
        let before = sampled(front, readings, now_ms);
        let out = sampled(rings, readings, now_ms);
        assert forall|i: int, j: int| 0 <= i < j < out.len() implies (#[trigger] out[i]).pid != (
        #[trigger] out[j]).pid by {
            assert(out[i] == before[i]);
            lemma_sampled_was_there(front, readings, now_ms, i);
            let k = choose|k: int| 0 <= k < front.len() && (#[trigger] front[k]).pid == before[i].pid;
            assert(rings[k].pid == before[i].pid);
            if j < before.len() {
                assert(out[j] == before[j]);
            }
        }
    }
}

} // verus!
