//! What holds of the series of samples and of the ticks between them.

use vstd::prelude::*;

use crate::exact;

use super::params::CleanParams;
use super::rings;
use super::rings::Ring;
use super::rows;
use super::rows::TickRow;
use super::state;
use super::state::LiveState;

verus! {

/// A series takes in every sample: it ends with the newest one, and before that
/// stands the newest part of what there was. Only where 260 were there already is
/// one let go, and that is the oldest.
pub proof fn newest_sample_is_kept(s: Seq<(i64, u64)>, x: (i64, u64))
    requires
        s.len() <= 260,
    ensures
        rings::extended(s, x).len() > 0,
        rings::extended(s, x).last() == x,
        s.len() < 260 ==> rings::extended(s, x).drop_last() == s,
        s.len() == 260 ==> rings::extended(s, x).drop_last() == s.drop_first(),
        rings::extended(s, x).len() <= 260,
{
    let e = rings::extended(s, x);
    if s.len() < 260 {
        assert(e.drop_last() =~= s);
    } else {
        assert(e.drop_last() =~= s.drop_first());
    }
}

/// What is told of a process is what the first reading that names it holds; there
/// is none exactly where no reading names it.
pub proof fn readings_are_told_by_process(readings: Seq<(u32, u64)>, pid: u32)
    ensures
        rings::reading(readings, pid) is None <==> forall|i: int|
            0 <= i < readings.len() ==> (#[trigger] readings[i]).0 != pid,
        rings::reading(readings, pid) matches Some(w) ==> exists|i: int|
            0 <= i < readings.len() && #[trigger] readings[i] == (pid, w) && forall|j: int|
                0 <= j < i ==> (#[trigger] readings[j]).0 != pid,
    decreases readings.len(),
{
    if readings.len() > 0 {
        let rest = readings.drop_first();
        readings_are_told_by_process(rest, pid);
        if readings[0].0 == pid {
            assert(readings[0] == (pid, readings[0].1));
        } else {
            assert forall|i: int| 0 <= i < readings.len() && rings::reading(readings, pid) is None implies (
            #[trigger] readings[i]).0 != pid by {
                if i > 0 {
                    assert(rest[i - 1] == readings[i]);
                }
            }
            if let Some(w) = rings::reading(readings, pid) {
                let k = choose|k: int|
                    0 <= k < rest.len() && #[trigger] rest[k] == (pid, w) && forall|j: int|
                        0 <= j < k ==> (#[trigger] rest[j]).0 != pid;
                assert(readings[k + 1] == (pid, w));
                assert forall|j: int| 0 <= j < k + 1 implies (#[trigger] readings[j]).0 != pid by {
                    if j > 0 {
                        assert(rest[j - 1] == readings[j]);
                    }
                }
            }
        }
    }
}

proof fn lemma_sampled_comes_from(r: Seq<Ring>, readings: Seq<(u32, u64)>, now_ms: i64, i: int) -> (j: int)
    requires
        0 <= i < rings::sampled(r, readings, now_ms).len(),
    ensures
        0 <= j < r.len(),
        rings::reading(readings, r[j].pid) is Some,
        rings::sampled(r, readings, now_ms)[i].pid == r[j].pid,
        rings::sampled(r, readings, now_ms)[i].samples == rings::extended(
            r[j].samples,
            (now_ms, rings::reading(readings, r[j].pid)->0),
        ),
    decreases r.len(),
{
    let before = rings::sampled(r.drop_last(), readings, now_ms);
    if i < before.len() {
        lemma_sampled_comes_from(r.drop_last(), readings, now_ms, i)
    } else {
        r.len() - 1
    }
}

proof fn lemma_read_is_sampled(r: Seq<Ring>, readings: Seq<(u32, u64)>, now_ms: i64, j: int)
    requires
        0 <= j < r.len(),
        rings::reading(readings, r[j].pid) is Some,
    ensures
        rings::has_pid(rings::sampled(r, readings, now_ms), r[j].pid),
    decreases r.len(),
{
    let out = rings::sampled(r, readings, now_ms);
    let before = rings::sampled(r.drop_last(), readings, now_ms);
    if j < r.len() - 1 {
        lemma_read_is_sampled(r.drop_last(), readings, now_ms, j);
        let i = choose|i: int| 0 <= i < before.len() && (#[trigger] before[i]).pid == r[j].pid;
        assert(out[i].pid == r[j].pid);
    } else {
        assert(out[out.len() - 1].pid == r[j].pid);
    }
}

/// After every poll each process ends with what was read of it in that poll, behind
/// the newest part of its own samples. A process that was read stays, one that was
/// not is gone, and the files end with what was read of them.
pub proof fn poll_ends_every_series_with_its_reading(
    s: LiveState,
    now_ms: i64,
    readings: Seq<(u32, u64)>,
    files_total: u64,
)
    requires
        forall|j: int| 0 <= j < s.rings.len() ==> (#[trigger] s.rings[j]).samples.len() <= 260,
        s.files.len() <= 260,
    ensures
        ({
            let t = state::measured(s, now_ms, readings, files_total).0;
            &&& t.files.last() == (now_ms, files_total)
            &&& t.files.drop_last() == (if s.files.len() < 260 {
                s.files
            } else {
                s.files.drop_first()
            })
            &&& forall|i: int|
                0 <= i < t.rings.len() ==> {
                    let ring = #[trigger] t.rings[i];
                    &&& ring.samples.len() > 0
                    &&& ring.samples.last().0 == now_ms
                    &&& readings.contains((ring.pid, ring.samples.last().1))
                    &&& exists|j: int|
                        0 <= j < s.rings.len() && (#[trigger] s.rings[j]).pid == ring.pid
                            && ring.samples.drop_last() == (if s.rings[j].samples.len() < 260 {
                            s.rings[j].samples
                        } else {
                            s.rings[j].samples.drop_first()
                        })
                }
            &&& forall|j: int, k: int|
                0 <= j < s.rings.len() && 0 <= k < readings.len() && (#[trigger] s.rings[j]).pid == (
                #[trigger] readings[k]).0 ==> rings::has_pid(t.rings, s.rings[j].pid)
        }),
{
    let o = state::observed(s, now_ms, readings, files_total);
    let t = state::measured(s, now_ms, readings, files_total).0;
    state::lemma_calibrated_keeps(o, now_ms);
    newest_sample_is_kept(s.files, (now_ms, files_total));
    assert forall|i: int| 0 <= i < t.rings.len() implies {
        let ring = #[trigger] t.rings[i];
        &&& ring.samples.len() > 0
        &&& ring.samples.last().0 == now_ms
        &&& readings.contains((ring.pid, ring.samples.last().1))
        &&& exists|j: int|
            0 <= j < s.rings.len() && (#[trigger] s.rings[j]).pid == ring.pid && ring.samples.drop_last() == (
            if s.rings[j].samples.len() < 260 {
                s.rings[j].samples
            } else {
                s.rings[j].samples.drop_first()
            })
    } by {
        let j = lemma_sampled_comes_from(s.rings, readings, now_ms, i);
        let w = rings::reading(readings, s.rings[j].pid)->0;
        newest_sample_is_kept(s.rings[j].samples, (now_ms, w));
        readings_are_told_by_process(readings, s.rings[j].pid);
        let k = choose|k: int| 0 <= k < readings.len() && #[trigger] readings[k] == (s.rings[j].pid, w);
        assert(readings.contains(readings[k]));
    }
    assert forall|j: int, k: int|
        0 <= j < s.rings.len() && 0 <= k < readings.len() && (#[trigger] s.rings[j]).pid == (
        #[trigger] readings[k]).0 implies rings::has_pid(t.rings, s.rings[j].pid) by {
        readings_are_told_by_process(readings, s.rings[j].pid);
        lemma_read_is_sampled(s.rings, readings, now_ms, j);
    }
}

proof fn lemma_admitted(r: Seq<Ring>, opened: Seq<u32>)
    ensures
        rings::admitted(r, opened).len() >= r.len(),
        forall|i: int| 0 <= i < r.len() ==> rings::admitted(r, opened)[i] == #[trigger] r[i],
        forall|i: int|
            r.len() <= i < rings::admitted(r, opened).len() ==> (#[trigger] rings::admitted(r, opened)[i]).samples
                == Seq::<(i64, u64)>::empty() && opened.contains(rings::admitted(r, opened)[i].pid)
                && !rings::has_pid(r, rings::admitted(r, opened)[i].pid),
        forall|k: int| 0 <= k < opened.len() ==> rings::has_pid(rings::admitted(r, opened), #[trigger] opened[k]),
    decreases opened.len(),
{
    if opened.len() > 0 {
        let front = opened.drop_last();
        lemma_admitted(r, front);
        let before = rings::admitted(r, front);
        let out = rings::admitted(r, opened);
        let last = opened[opened.len() - 1];
        assert(opened.contains(last));
        assert forall|i: int| 0 <= i < r.len() implies out[i] == #[trigger] r[i] by {
            assert(before[i] == r[i]);
        }
        assert forall|i: int| r.len() <= i < out.len() implies (#[trigger] out[i]).samples == Seq::<
            (i64, u64),
        >::empty() && opened.contains(out[i].pid) && !rings::has_pid(r, out[i].pid) by {
            if i < before.len() {
                assert(out[i] == before[i]);
                let k = choose|k: int| 0 <= k < front.len() && front[k] == before[i].pid;
                assert(opened[k] == before[i].pid);
            } else if rings::has_pid(r, last) {
                let k = choose|k: int| 0 <= k < r.len() && (#[trigger] r[k]).pid == last;
                assert(before[k].pid == last);
            }
        }
        assert forall|k: int| 0 <= k < opened.len() implies rings::has_pid(out, #[trigger] opened[k]) by {
            if k < front.len() {
                assert(front[k] == opened[k]);
                let i = choose|i: int| 0 <= i < before.len() && (#[trigger] before[i]).pid == front[k];
                assert(out[i].pid == opened[k]);
            } else if !rings::has_pid(before, last) {
                assert(out[out.len() - 1].pid == last);
            }
        }
    }
}

/// After a look at the system each process is either one that was known and was
/// found again, with all of its samples, or one that was opened and has none yet.
/// None that was found again is lost, and every one that was opened is there.
pub proof fn known_processes_keep_their_samples(r: Seq<Ring>, found: Seq<u32>, opened: Seq<u32>)
    ensures
        ({
            let out = rings::refreshed(r, found, opened);
            &&& forall|i: int|
                0 <= i < out.len() ==> (r.contains(#[trigger] out[i]) && found.contains(out[i].pid)) || (
                opened.contains(out[i].pid) && out[i].samples.len() == 0)
            &&& forall|j: int|
                0 <= j < r.len() && found.contains((#[trigger] r[j]).pid) ==> out.contains(r[j])
            &&& forall|k: int| 0 <= k < opened.len() ==> rings::has_pid(out, #[trigger] opened[k])
            &&& forall|i: int|
                0 <= i < out.len() && out[i].samples.len() == 0 && !r.contains(#[trigger] out[i])
                    ==> forall|j: int|
                    0 <= j < r.len() && found.contains((#[trigger] r[j]).pid) ==> r[j].pid != out[i].pid
        }),
{
    let again = |x: Ring| found.contains(x.pid);
    let kept = r.filter(again);
    let out = rings::refreshed(r, found, opened);
    broadcast use vstd::seq_lib::group_filter_ensures;
    assert(out == rings::admitted(kept, opened));
    lemma_admitted(kept, opened);
    assert forall|i: int| 0 <= i < kept.len() implies r.contains(#[trigger] kept[i]) && again(kept[i]) by {
        assert(kept.contains(kept[i]));
        r.lemma_filter_contains_rev(again, kept[i]);
    }
    assert forall|i: int| 0 <= i < out.len() implies (r.contains(#[trigger] out[i]) && found.contains(
        out[i].pid,
    )) || (opened.contains(out[i].pid) && out[i].samples.len() == 0) by {
        if i < kept.len() {
            assert(again(kept[i]));
            assert(kept.contains(kept[i]));
            assert(out[i] == kept[i]);
        }
    }
    assert forall|j: int| 0 <= j < r.len() && found.contains((#[trigger] r[j]).pid) implies out.contains(r[j]) by {
        assert(again(r[j]));
        assert(kept.contains(r[j]));
        let i = choose|i: int| 0 <= i < kept.len() && kept[i] == r[j];
        assert(out[i] == r[j]);
    }
    assert forall|i: int|
        0 <= i < out.len() && out[i].samples.len() == 0 && !r.contains(#[trigger] out[i]) implies forall|j: int|
        0 <= j < r.len() && found.contains((#[trigger] r[j]).pid) ==> r[j].pid != out[i].pid by {
        assert forall|j: int| 0 <= j < r.len() && found.contains((#[trigger] r[j]).pid) implies r[j].pid
            != out[i].pid by {
            if i < kept.len() {
                assert(out[i] == kept[i]);
                assert(kept.contains(kept[i]));
            }
            assert(again(r[j]));
            assert(kept.contains(r[j]));
            let m = choose|m: int| 0 <= m < kept.len() && kept[m] == r[j];
            assert(kept[m].pid == r[j].pid);
        }
    }
}

/// One more sample adds what was written since the one before, where the time
/// between the two touches the span, and nothing where it does not. A total that
/// fell back adds nothing.
pub proof fn sample_adds_what_was_written(s: Seq<(i64, u64)>, x: (i64, u64), from_ms: i64, to_ms: i64)
    requires
        s.len() > 0,
    ensures
        s.last().0 <= to_ms && from_ms <= x.0 && x.1 >= s.last().1 ==> rings::raw_between(
            s.push(x),
            from_ms,
            to_ms,
        ) - rings::raw_between(s, from_ms, to_ms) == x.1 - s.last().1,
        s.last().0 > to_ms || from_ms > x.0 || x.1 <= s.last().1 ==> rings::raw_between(
            s.push(x),
            from_ms,
            to_ms,
        ) == rings::raw_between(s, from_ms, to_ms),
        s.len() == 1 ==> rings::raw_between(s, from_ms, to_ms) == 0,
{
    assert(s.push(x).drop_last() =~= s);
}

/// A process whose total only rises wrote, in a span that its samples lie in, what
/// the total rose by.
pub proof fn rising_total_is_what_was_written(s: Seq<(i64, u64)>, from_ms: i64, to_ms: i64)
    requires
        s.len() > 0,
        forall|i: int| 0 <= i < s.len() ==> from_ms <= (#[trigger] s[i]).0 <= to_ms,
        forall|i: int, j: int| 0 <= i <= j < s.len() ==> (#[trigger] s[i]).1 <= (#[trigger] s[j]).1,
    ensures
        rings::raw_between(s, from_ms, to_ms) == s.last().1 - s.first().1,
    decreases s.len(),
{
    if s.len() > 1 {
        let front = s.drop_last();
        rising_total_is_what_was_written(front, from_ms, to_ms);
        sample_adds_what_was_written(front, s.last(), from_ms, to_ms);
        assert(front.push(s.last()) =~= s);
        assert(s[s.len() - 2].1 <= s[s.len() - 1].1);
    }
}

/// What all processes wrote is what each of them wrote.
pub proof fn processes_add_up(a: Seq<Ring>, b: Seq<Ring>, r: Ring, from_ms: i64, to_ms: i64)
    ensures
        rings::raw_total(seq![r], from_ms, to_ms) == rings::raw_between(r.samples, from_ms, to_ms),
        rings::raw_total(a + b, from_ms, to_ms) == rings::raw_total(a, from_ms, to_ms) + rings::raw_total(
            b,
            from_ms,
            to_ms,
        ),
    decreases b.len(),
{
    assert(seq![r].drop_last() =~= Seq::empty());
    reveal_with_fuel(rings::raw_total, 2);
    if b.len() == 0 {
        assert(a + b =~= a);
    } else {
        assert((a + b).drop_last() =~= a + b.drop_last());
        processes_add_up(a, b.drop_last(), r, from_ms, to_ms);
    }
}

proof fn lemma_top_writes_most(r: Seq<Ring>, from_ms: i64, to_ms: i64)
    ensures
        rings::top_writer(r, from_ms, to_ms) is Some <==> r.len() > 0,
        rings::top_writer(r, from_ms, to_ms) matches Some(best) ==> r.contains(best) && forall|j: int|
            0 <= j < r.len() ==> rings::raw_between((#[trigger] r[j]).samples, from_ms, to_ms)
                <= rings::raw_between(best.samples, from_ms, to_ms),
    decreases r.len(),
{
    if r.len() > 0 {
        let front = r.drop_last();
        lemma_top_writes_most(front, from_ms, to_ms);
        let best = rings::top_writer(r, from_ms, to_ms)->0;
        assert(r.contains(r[r.len() - 1]));
        if let Some(b) = rings::top_writer(front, from_ms, to_ms) {
            let i = choose|i: int| 0 <= i < front.len() && front[i] == b;
            assert(r[i] == b);
        }
        assert forall|j: int| 0 <= j < r.len() implies rings::raw_between(
            (#[trigger] r[j]).samples,
            from_ms,
            to_ms,
        ) <= rings::raw_between(best.samples, from_ms, to_ms) by {
            if j < front.len() {
                assert(front[j] == r[j]);
            }
        }
    }
}

/// The process that is told to have written most is one of the processes, and no
/// other one wrote more in the span. One is told wherever there is any.
pub proof fn told_process_wrote_most(r: Seq<Ring>, from_ms: i64, to_ms: i64)
    ensures
        rings::top_pid(r, from_ms, to_ms) is None <==> r.len() == 0,
        rings::top_pid(r, from_ms, to_ms) matches Some(pid) ==> exists|i: int|
            0 <= i < r.len() && (#[trigger] r[i]).pid == pid && forall|j: int|
                0 <= j < r.len() ==> rings::raw_between((#[trigger] r[j]).samples, from_ms, to_ms)
                    <= rings::raw_between(r[i].samples, from_ms, to_ms),
{
    lemma_top_writes_most(r, from_ms, to_ms);
    if let Some(best) = rings::top_writer(r, from_ms, to_ms) {
        let i = choose|i: int| 0 <= i < r.len() && r[i] == best;
        assert(r[i].pid == best.pid);
    }
}

/// What the tracked files gained is told by the samples of them: one more adds what
/// it gained where it was taken after the tick began and the one before it before
/// the tick ended.
pub proof fn file_sample_adds_what_it_gained(f: Seq<(i64, u64)>, x: (i64, u64), t0: i64, t1: i64)
    requires
        f.len() > 0,
    ensures
        f.last().0 < t1 && t0 < x.0 && x.1 >= f.last().1 ==> rows::file_growth(f.push(x), t0, t1)
            - rows::file_growth(f, t0, t1) == x.1 - f.last().1,
        f.last().0 >= t1 || t0 >= x.0 || x.1 <= f.last().1 ==> rows::file_growth(f.push(x), t0, t1)
            == rows::file_growth(f, t0, t1),
        f.len() == 1 ==> rows::file_growth(f, t0, t1) == 0,
{
    assert(f.push(x).drop_last() =~= f);
}

/// A sample that came later than the one before, with no more than a burst in it,
/// makes one tick: it lasted from the one to the other, and holds what was written
/// less what the files gained, the noise floor up to its cap, and the noise of its
/// time. Every other sample makes none.
pub proof fn sample_makes_one_tick(
    s: Seq<(i64, u64)>,
    x: (i64, u64),
    files: Seq<(i64, u64)>,
    floor: int,
    p: CleanParams,
)
    requires
        s.len() > 0,
        rows::time_ok(s.last().0),
        rows::time_ok(x.0),
        files.len() <= rows::MAX_SERIES,
        floor >= 0,
    ensures
        ({
            let (before, after) = (rows::rows_of(s, files, floor, p), rows::rows_of(s.push(x), files, floor, p));
            let a = s.last();
            &&& x.0 <= a.0 || x.1 - a.1 > p.burst_tick_bytes ==> after == before
            &&& x.0 > a.0 && x.1 - a.1 <= p.burst_tick_bytes ==> {
                &&& after.len() == before.len() + 1
                &&& after.drop_last() == before
                &&& after.last().dt_ms == x.0 - a.0
                &&& after.last().end_ms == x.0
                &&& x.1 >= a.1 && floor <= p.floor_cap_bytes ==> after.last().millibytes == 1000 * (x.1 - a.1)
                    - 1000 * rows::file_growth(files, a.0, x.0) - 1000 * floor - p.base_noise_bps * (x.0 - a.0)
                &&& x.1 >= a.1 && floor >= p.floor_cap_bytes ==> after.last().millibytes == 1000 * (x.1 - a.1)
                    - 1000 * rows::file_growth(files, a.0, x.0) - 1000 * p.floor_cap_bytes - p.base_noise_bps * (
                x.0 - a.0)
                &&& x.1 < a.1 && floor <= p.floor_cap_bytes ==> after.last().millibytes == -1000
                    * rows::file_growth(files, a.0, x.0) - 1000 * floor - p.base_noise_bps * (x.0 - a.0)
            }
            &&& s.len() == 1 ==> before.len() == 0
        }),
{
    assert(s.push(x).drop_last() =~= s);
    let before = rows::rows_of(s, files, floor, p);
    let a = s.last();
    if x.0 > a.0 && x.1 - a.1 <= p.burst_tick_bytes {
        rows::lemma_row_bound(a, x, files, floor, p);
        let row = rows::tick_row(a, x, files, floor, p);
        assert(before.push(row).drop_last() =~= before);
    }
}

/// A span within one tick has the tick's bytes in proportion to its length; one that
/// the tick lies beside has nothing of it.
pub proof fn tick_is_shared_by_time(r: TickRow, from_ms: i64, to_ms: i64)
    requires
        r.dt_ms > 0,
        from_ms < to_ms,
    ensures
        r.end_ms - r.dt_ms <= from_ms && to_ms <= r.end_ms ==> rows::integral(seq![r], from_ms, to_ms) == (
            exact::ratio(r.millibytes * (to_ms - from_ms), r.dt_ms as int),
            to_ms - from_ms,
        ),
        to_ms <= r.end_ms - r.dt_ms || r.end_ms <= from_ms ==> rows::integral(seq![r], from_ms, to_ms) == (
            0 as real,
            0int,
        ),
{
    assert(seq![r].drop_last() =~= Seq::empty());
    reveal_with_fuel(rows::integral, 2);
}

/// The ticks of all processes are those of each, bytes and time added up.
pub proof fn spans_of_processes_add_up(
    a: Seq<Ring>,
    b: Seq<Ring>,
    r: Ring,
    files: Seq<(i64, u64)>,
    p: CleanParams,
    from_ms: i64,
    to_ms: i64,
)
    ensures
        rings::total_span(seq![r], files, p, from_ms, to_ms) == rows::integral(
            rings::ring_rows(r, files, p),
            from_ms,
            to_ms,
        ),
        rings::total_span(a + b, files, p, from_ms, to_ms).0 == rings::total_span(a, files, p, from_ms, to_ms).0
            + rings::total_span(b, files, p, from_ms, to_ms).0,
        rings::total_span(a + b, files, p, from_ms, to_ms).1 == rings::total_span(a, files, p, from_ms, to_ms).1
            + rings::total_span(b, files, p, from_ms, to_ms).1,
    decreases b.len(),
{
    assert(seq![r].drop_last() =~= Seq::empty());
    reveal_with_fuel(rings::total_span, 2);
    if b.len() == 0 {
        assert(a + b =~= a);
    } else {
        assert((a + b).drop_last() =~= a + b.drop_last());
        spans_of_processes_add_up(a, b.drop_last(), r, files, p, from_ms, to_ms);
    }
}

/// What is read of one process is what would be read if it were the only one; of a
/// process that is not there, nothing is.
pub proof fn process_is_read_alone(
    r: Seq<Ring>,
    i: int,
    absent: u32,
    files: Seq<(i64, u64)>,
    p: CleanParams,
    from_ms: i64,
    to_ms: i64,
)
    requires
        rings::rings_ok(r),
        0 <= i < r.len(),
        forall|j: int| 0 <= j < r.len() ==> (#[trigger] r[j]).pid != absent,
    ensures
        rings::pid_span(r, files, p, r[i].pid, from_ms, to_ms) == rings::total_span(
            seq![r[i]],
            files,
            p,
            from_ms,
            to_ms,
        ),
        rings::pid_span(r, files, p, absent, from_ms, to_ms) == (0 as real, 0int),
{
    rings::lemma_pid_span(r, files, p, i, from_ms, to_ms);
    rings::lemma_absent_span(r, files, p, absent, from_ms, to_ms);
    spans_of_processes_add_up(Seq::empty(), Seq::empty(), r[i], files, p, from_ms, to_ms);
}

} // verus!
