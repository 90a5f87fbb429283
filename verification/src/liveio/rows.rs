//! Cleaned ticks and their integral over a span of time.

use vstd::prelude::*;

use crate::exact;
use crate::exact::Amount;

use super::params::CleanParams;

verus! {

/// The most samples of one series whose sums are sure to fit 128 bits.
pub const MAX_SERIES: usize = 0x400_0000;

/// Times are milliseconds; within this bound the difference of any two fits an
/// `i64`.
pub const TIME_LIMIT: i64 = 0x3fff_ffff_ffff_ffff;

/// The most thousandths of a byte in one tick, either way.
pub const ROW_LIMIT: i128 = 0x10_0000_0000_0000_0000_0000_0000;

/// One cleaned tick. Its bytes may be negative: files can grow in another tick
/// than the one in which the process wrote, and only the sum over a span
/// settles that.
#[derive(Clone, Copy, Debug, PartialEq, Eq, Structural)]
pub struct TickRow {
    /// How long the tick lasted.
    pub dt_ms: i64,
    /// Bytes left after cleaning, in thousandths.
    pub millibytes: i128,
    /// When the tick ended.
    pub end_ms: i64,
}

pub open spec fn min_int(a: int, b: int) -> int {
    if a <= b {
        a
    } else {
        b
    }
}

pub open spec fn max_int(a: int, b: int) -> int {
    if a >= b {
        a
    } else {
        b
    }
}

pub open spec fn time_ok(t: i64) -> bool {
    -TIME_LIMIT <= t <= TIME_LIMIT
}

/// A series of samples (time, running total) whose sums fit.
pub open spec fn series_ok(s: Seq<(i64, u64)>) -> bool {
    &&& s.len() <= MAX_SERIES
    &&& forall|i: int| 0 <= i < s.len() ==> time_ok((#[trigger] s[i]).0)
}

/// What a running total gained from one sample to the next; a total that fell
/// back gained nothing.
pub open spec fn gained(a: (i64, u64), b: (i64, u64)) -> int {
    if b.1 >= a.1 {
        b.1 - a.1
    } else {
        0
    }
}

/// What the tracked files gained in the intervals that overlap `t0..t1`.
pub open spec fn file_growth(files: Seq<(i64, u64)>, t0: i64, t1: i64) -> int
    decreases files.len(),
{
    if files.len() < 2 {
        0
    } else {
        let a = files[files.len() - 2];
        let b = files[files.len() - 1];
        file_growth(files.drop_last(), t0, t1) + (if b.0 > t0 && a.0 < t1 {
            gained(a, b)
        } else {
            0
        })
    }
}

/// What cleaning takes off a tick from `a` to `b`, in thousandths of a byte:
/// the growth of the tracked files, the capped adaptive floor and the expected
/// idle noise.
pub open spec fn deduction(
    a: (i64, u64),
    b: (i64, u64),
    files: Seq<(i64, u64)>,
    min_delta: int,
    p: CleanParams,
) -> int {
    1000 * file_growth(files, a.0, b.0) + 1000 * min_int(min_delta, p.floor_cap_bytes as int)
        + p.base_noise_bps * (b.0 - a.0)
}

/// Whether the tick from `a` to `b` counts: it takes time and is no burst.
pub open spec fn tick_kept(a: (i64, u64), b: (i64, u64), p: CleanParams) -> bool {
    b.0 > a.0 && gained(a, b) <= p.burst_tick_bytes
}

pub open spec fn tick_row(
    a: (i64, u64),
    b: (i64, u64),
    files: Seq<(i64, u64)>,
    min_delta: int,
    p: CleanParams,
) -> TickRow {
    TickRow {
        dt_ms: (b.0 - a.0) as i64,
        millibytes: (1000 * gained(a, b) - deduction(a, b, files, min_delta, p)) as i128,
        end_ms: b.0,
    }
}

/// The cleaned ticks of a series of samples, in order.
pub open spec fn rows_of(
    samples: Seq<(i64, u64)>,
    files: Seq<(i64, u64)>,
    min_delta: int,
    p: CleanParams,
) -> Seq<TickRow>
    decreases samples.len(),
{
    if samples.len() < 2 {
        Seq::empty()
    } else {
        let a = samples[samples.len() - 2];
        let b = samples[samples.len() - 1];
        let before = rows_of(samples.drop_last(), files, min_delta, p);
        if tick_kept(a, b, p) {
            before.push(tick_row(a, b, files, min_delta, p))
        } else {
            before
        }
    }
}

/// The share of one tick in `from..to`: its bytes in proportion to the time that
/// it shares with the span, and that time.
pub open spec fn row_share(r: TickRow, from_ms: i64, to_ms: i64) -> (real, int) {
    let lo = max_int(r.end_ms - r.dt_ms, from_ms as int);
    let hi = min_int(r.end_ms as int, to_ms as int);
    if hi <= lo {
        (0 as real, 0)
    } else {
        (exact::ratio(r.millibytes * (hi - lo), r.dt_ms as int), hi - lo)
    }
}

/// Thousandths of a byte and milliseconds that the ticks have in `from..to`.
pub open spec fn integral(rows: Seq<TickRow>, from_ms: i64, to_ms: i64) -> (real, int)
    decreases rows.len(),
{
    if rows.len() == 0 {
        (0 as real, 0)
    } else {
        let before = integral(rows.drop_last(), from_ms, to_ms);
        let last = row_share(rows.last(), from_ms, to_ms);
        (before.0 + last.0, before.1 + last.1)
    }
}

pub proof fn lemma_file_growth_bound(files: Seq<(i64, u64)>, t0: i64, t1: i64)
    ensures
        0 <= file_growth(files, t0, t1) <= files.len() * u64::MAX,
    decreases files.len(),
{
    if files.len() >= 2 {
        lemma_file_growth_bound(files.drop_last(), t0, t1);
        assert(files.len() * u64::MAX == (files.len() - 1) * u64::MAX + u64::MAX) by (nonlinear_arith);
    } else {
        assert(0 <= files.len() * u64::MAX) by (nonlinear_arith);
    }
}

/// The growth of the tracked files in the intervals that overlap `t0..t1`.
fn growth(files: &[(i64, u64)], t0: i64, t1: i64) -> (g: u128)
    requires
        files@.len() <= MAX_SERIES,
    ensures
        g == file_growth(files@, t0, t1),
{
    let mut g: u128 = 0;
    let mut i: usize = 1;
    while i < files.len()
        invariant
            1 <= i,
            files@.len() > 0 ==> i <= files@.len(),
            files@.len() <= MAX_SERIES,
            g == file_growth(files@.take(if files@.len() == 0 { 0 } else { i as int }), t0, t1),
            g <= i * u64::MAX,
        decreases files.len() - i,
    {
        let a: (i64, u64) = files[i - 1];
        let b: (i64, u64) = files[i];
        proof {
            assert(files@.take(i + 1).drop_last() =~= files@.take(i as int));
            assert((i + 1) * u64::MAX == i * u64::MAX + u64::MAX) by (nonlinear_arith);
            assert(i * u64::MAX <= MAX_SERIES * u64::MAX) by (nonlinear_arith)
                requires
                    i <= MAX_SERIES,
            ;
        }
        if b.0 > t0 && a.0 < t1 {
            g = g + b.1.saturating_sub(a.1) as u128;
        }
        i = i + 1;
    }
    assert(files@.take(files@.len() as int) =~= files@);
    g
}

pub proof fn lemma_row_bound(
    a: (i64, u64),
    b: (i64, u64),
    files: Seq<(i64, u64)>,
    min_delta: int,
    p: CleanParams,
)
    requires
        0 <= min_delta,
        files.len() <= MAX_SERIES,
        time_ok(a.0),
        time_ok(b.0),
        b.0 > a.0,
    ensures
        0 <= p.base_noise_bps * (b.0 - a.0) <= 0x1_0000 * 0x8000_0000_0000_0000,
        0 <= 1000 * file_growth(files, a.0, b.0) <= 1000 * (MAX_SERIES * u64::MAX),
        -ROW_LIMIT <= 1000 * gained(a, b) - deduction(a, b, files, min_delta, p) <= ROW_LIMIT,
{
    lemma_file_growth_bound(files, a.0, b.0);
    assert(files.len() * u64::MAX <= MAX_SERIES * u64::MAX) by (nonlinear_arith)
        requires
            files.len() <= MAX_SERIES,
    ;
    assert(0 <= p.base_noise_bps * (b.0 - a.0) <= 0x1_0000 * 0x8000_0000_0000_0000) by (nonlinear_arith)
        requires
            0 <= p.base_noise_bps <= 0x1_0000,
            0 <= b.0 - a.0 <= 0x8000_0000_0000_0000,
    ;
}

/// Builds the cleaned ticks from samples of bytes written and of the total size
/// of the tracked files. `min_delta` is the adaptive noise floor in bytes.
pub fn build_rows(
    samples: &[(i64, u64)],
    files: &[(i64, u64)],
    min_delta: u128,
    p: &CleanParams,
) -> (rows: Vec<TickRow>)
    requires
        series_ok(samples@),
        files@.len() <= MAX_SERIES,
    ensures
        rows@ == rows_of(samples@, files@, min_delta as int, *p),
        rows@.len() <= samples@.len(),
{
    let cap: u128 = p.floor_cap_bytes as u128;
    let floor_static: u128 = if min_delta < cap {
        min_delta
    } else {
        cap
    };
    let mut rows: Vec<TickRow> = Vec::new();
    let mut i: usize = 1;
    while i < samples.len()
        invariant
            1 <= i,
            samples@.len() > 0 ==> i <= samples@.len(),
            series_ok(samples@),
            files@.len() <= MAX_SERIES,
            floor_static == min_int(min_delta as int, p.floor_cap_bytes as int),
            rows@ == rows_of(
                samples@.take(if samples@.len() == 0 { 0 } else { i as int }),
                files@,
                min_delta as int,
                *p,
            ),
            rows@.len() < i,
        decreases samples.len() - i,
    {
        let a: (i64, u64) = samples[i - 1];
        let b: (i64, u64) = samples[i];
        proof {
            assert(time_ok(samples@[i - 1].0));
            assert(time_ok(samples@[i as int].0));
            assert(samples@.take(i + 1).drop_last() =~= samples@.take(i as int));
        }
        let dt_ms: i64 = b.0 - a.0;
        let raw: u64 = b.1.saturating_sub(a.1);
        if dt_ms > 0 && raw <= p.burst_tick_bytes {
            proof {
                lemma_row_bound(a, b, files@, min_delta as int, *p);
            }
            let fg: u128 = growth(files, a.0, b.0);
            let noise: i128 = (p.base_noise_bps as i128) * (dt_ms as i128);
            let millibytes: i128 = 1000 * (raw as i128) - 1000 * (fg as i128) - 1000 * (
            floor_static as i128) - noise;
            rows.push(TickRow { dt_ms, millibytes, end_ms: b.0 });
        }
        i = i + 1;
    }
    assert(samples@.take(samples@.len() as int) =~= samples@);
    rows
}

/// Sums what the ticks have in `from_ms..to_ms`: thousandths of a byte, and
/// milliseconds. A dropped tick adds no time, so it does not thin out the rate.
pub fn integrate(rows: &[TickRow], from_ms: i64, to_ms: i64) -> (sum: (Amount, i128))
    requires
        rows@.len() <= MAX_SERIES,
    ensures
        (sum.0.value(), sum.1 as int) == integral(rows@, from_ms, to_ms),
{
    let mut bytes: Amount = Amount::zero();
    let mut ms: i128 = 0;
    let mut i: usize = 0;
    while i < rows.len()
        invariant
            i <= rows@.len(),
            rows@.len() <= MAX_SERIES,
            (bytes.value(), ms as int) == integral(rows@.take(i as int), from_ms, to_ms),
            0 <= ms <= u64::MAX * i,
        decreases rows.len() - i,
    {
        let r: TickRow = rows[i];
        proof {
            assert(rows@.take(i + 1).drop_last() =~= rows@.take(i as int));
            assert(u64::MAX * (i + 1) == u64::MAX * i + u64::MAX) by (nonlinear_arith);
            assert(u64::MAX * i <= u64::MAX * MAX_SERIES) by (nonlinear_arith)
                requires
                    i <= MAX_SERIES,
            ;
        }
        let start: i128 = r.end_ms as i128 - r.dt_ms as i128;
        let lo: i128 = if start >= from_ms as i128 {
            start
        } else {
            from_ms as i128
        };
        let hi: i128 = if r.end_ms <= to_ms {
            r.end_ms as i128
        } else {
            to_ms as i128
        };
        if hi > lo {
            let part: Amount = Amount::share(r.millibytes, (hi - lo) as u128, r.dt_ms as u128);
            bytes = bytes.plus(&part);
            ms = ms + (hi - lo);
        }
        i = i + 1;
    }
    assert(rows@.take(rows@.len() as int) =~= rows@);
    (bytes, ms)
}

} // verus!
