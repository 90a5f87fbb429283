//! What today's calls add up to.

use vstd::hash_set::StringHashSet;
use vstd::prelude::*;

use crate::clock;
use crate::order;
use crate::speed::Speed;

use super::call::Call;

verus! {

/// Calls that finished this recently make up the current speed.
pub const LIVE_WINDOW_MS: i64 = 600_000;

/// Bounds of the time for which a silent gap still counts as generating.
pub const ESTIMATE_MIN_MS: i64 = 20_000;

pub const ESTIMATE_MAX_MS: i64 = 240_000;

pub const ESTIMATE_DEFAULT_MS: i64 = 60_000;

/// Gaps this long between calls say nothing about the pace of work.
pub const GAP_LIMIT_MS: i64 = 600_000;

/// A call counts as having generated for at least this long.
pub const MIN_DUR_MS: i64 = 50;

/// The speed curve: 15 minutes in steps of 10 seconds.
pub const SPARK_BUCKETS: usize = 90;

pub const SPARK_BUCKET_MS: i64 = 10_000;

/// Where the current speed comes from.
#[derive(Clone, Copy, Debug, PartialEq, Eq, Structural)]
pub enum LiveSource {
    /// Measured from a running stream.
    Io,
    /// Taken from calls that finished lately.
    Window,
    Idle,
}

impl LiveSource {
    pub open spec fn name(self) -> Seq<char> {
        match self {
            LiveSource::Io => "io"@,
            LiveSource::Window => "window"@,
            LiveSource::Idle => "idle"@,
        }
    }

    pub fn as_str(self) -> (s: &'static str)
        ensures
            s@ == self.name(),
    {
        match self {
            LiveSource::Io => "io",
            LiveSource::Window => "window",
            LiveSource::Idle => "idle",
        }
    }
}

/// The figures that the panel shows.
#[derive(Debug)]
pub struct Snapshot {
    pub current_tps: Speed,
    pub avg_tps: Speed,
    /// Input, output, reasoning and cache creation; a cache hit is reuse and
    /// does not count.
    pub total_tokens: u64,
    pub output_tokens: u64,
    pub reasoning_tokens: u64,
    pub input_tokens: u64,
    pub cache_creation_tokens: u64,
    pub cache_read_tokens: u64,
    pub calls_today: u64,
    pub sessions_today: u64,
    pub is_live: bool,
    /// The speed is that of calls that finished, not one that was measured.
    pub is_estimating: bool,
    /// A stream runs but has not filled its window yet.
    pub ramping: bool,
    /// A call runs but has not streamed a byte yet.
    pub is_starting: bool,
    /// The speed of the calls that finished in the last ten minutes.
    pub window_tps: Speed,
    pub live_source: LiveSource,
    pub last_activity_ms: i64,
    pub now_ms: i64,
    pub rollout_dir: String,
    pub spark: Vec<Speed>,
}

/// The sum of `f` over calls.
pub open spec fn total(calls: Seq<Call>, f: spec_fn(Call) -> int) -> int
    decreases calls.len(),
{
    if calls.len() == 0 {
        0
    } else {
        total(calls.drop_last(), f) + f(calls.last())
    }
}

pub open spec fn outputs() -> spec_fn(Call) -> int {
    |c: Call| c.output as int
}

pub open spec fn reasonings() -> spec_fn(Call) -> int {
    |c: Call| c.reasoning as int
}

pub open spec fn inputs() -> spec_fn(Call) -> int {
    |c: Call| c.input as int
}

pub open spec fn cache_creations() -> spec_fn(Call) -> int {
    |c: Call| c.cache_creation as int
}

pub open spec fn cache_reads() -> spec_fn(Call) -> int {
    |c: Call| c.cache_read as int
}

/// All tokens of a call that count as used.
pub open spec fn used_tokens() -> spec_fn(Call) -> int {
    |c: Call| c.output + c.reasoning + c.input + c.cache_creation
}

/// How long a call generated, at least [`MIN_DUR_MS`].
pub open spec fn duration(c: Call) -> int {
    if c.gen_ms >= MIN_DUR_MS {
        c.gen_ms as int
    } else {
        MIN_DUR_MS as int
    }
}

pub open spec fn durations() -> spec_fn(Call) -> int {
    |c: Call| duration(c)
}

/// The sums that a snapshot shows fit their types.
pub open spec fn totals_fit(calls: Seq<Call>) -> bool {
    &&& total(calls, used_tokens()) <= u64::MAX
    &&& total(calls, cache_reads()) <= u64::MAX
    &&& total(calls, durations()) <= i64::MAX
}

/// Finished within [`LIVE_WINDOW_MS`] of `now`, or after it.
pub open spec fn recent(c: Call, now: i64) -> bool {
    c.completed_ms >= now - LIVE_WINDOW_MS
}

pub open spec fn recent_tokens(now: i64) -> spec_fn(Call) -> int {
    |c: Call|
        if recent(c, now) {
            c.effective()
        } else {
            0
        }
}

pub open spec fn recent_durations(now: i64) -> spec_fn(Call) -> int {
    |c: Call|
        if recent(c, now) {
            duration(c)
        } else {
            0
        }
}

/// Whether a call finished in step `k` of the curve that ends at `now`. Steps
/// begin at whole multiples of [`SPARK_BUCKET_MS`]; the last one holds `now`.
pub open spec fn in_bucket(c: Call, now: i64, k: int) -> bool {
    now as int / SPARK_BUCKET_MS as int - c.completed_ms as int / SPARK_BUCKET_MS as int == SPARK_BUCKETS - 1
        - k
}

pub open spec fn bucket_tokens(now: i64, k: int) -> spec_fn(Call) -> int {
    |c: Call|
        if in_bucket(c, now, k) {
            c.effective()
        } else {
            0
        }
}

pub open spec fn bucket_durations(now: i64, k: int) -> spec_fn(Call) -> int {
    |c: Call|
        if in_bucket(c, now, k) {
            duration(c)
        } else {
            0
        }
}

/// When the last call finished, 0 where none did after 1970 began.
pub open spec fn last_completed(calls: Seq<Call>) -> int
    decreases calls.len(),
{
    if calls.len() == 0 {
        0
    } else {
        let before = last_completed(calls.drop_last());
        if calls.last().completed_ms > before {
            calls.last().completed_ms as int
        } else {
            before
        }
    }
}

/// The sessions that calls belong to; a nameless one does not count.
pub open spec fn sessions_of(calls: Seq<Call>) -> Set<Seq<char>>
    decreases calls.len(),
{
    if calls.len() == 0 {
        Set::empty()
    } else {
        let before = sessions_of(calls.drop_last());
        if calls.last().session@.len() > 0 {
            before.insert(calls.last().session@)
        } else {
            before
        }
    }
}

/// An increasing sequence of times with one more in it.
pub open spec fn with_time(s: Seq<i64>, x: i64) -> Seq<i64>
    decreases s.len(),
{
    if s.len() == 0 {
        seq![x]
    } else if x > s.last() {
        s.push(x)
    } else if x == s.last() {
        s
    } else {
        with_time(s.drop_last(), x).push(s.last())
    }
}

/// The times at which calls finished, increasing, each once.
pub open spec fn finish_times(calls: Seq<Call>) -> Seq<i64>
    decreases calls.len(),
{
    if calls.len() == 0 {
        Seq::empty()
    } else {
        with_time(finish_times(calls.drop_last()), calls.last().completed_ms)
    }
}

/// The gaps between neighbouring times that are shorter than [`GAP_LIMIT_MS`].
pub open spec fn short_gaps(times: Seq<i64>) -> Seq<i128>
    decreases times.len(),
{
    if times.len() < 2 {
        Seq::empty()
    } else {
        let gap = times[times.len() - 1] - times[times.len() - 2];
        let before = short_gaps(times.drop_last());
        if 0 < gap < GAP_LIMIT_MS {
            before.push(gap as i128)
        } else {
            before
        }
    }
}

/// The newest ten gaps.
pub open spec fn newest(gaps: Seq<i128>) -> Seq<i128> {
    if gaps.len() > 10 {
        gaps.skip(gaps.len() - 10)
    } else {
        gaps
    }
}

/// How long after the last call one that is not yet recorded may be running: the
/// upper median of the newest gaps, within bounds, or a minute where there are
/// fewer than three.
pub open spec fn grace(calls: Seq<Call>) -> int {
    let gaps = short_gaps(finish_times(calls));
    if gaps.len() >= 3 {
        let tail = newest(gaps);
        let mid = order::kth_smallest(tail, (tail.len() / 2) as int) as int;
        if mid < ESTIMATE_MIN_MS {
            ESTIMATE_MIN_MS as int
        } else if mid > ESTIMATE_MAX_MS {
            ESTIMATE_MAX_MS as int
        } else {
            mid
        }
    } else {
        ESTIMATE_DEFAULT_MS as int
    }
}

/// Whether, going by the pace of today's calls, one is still being generated.
pub open spec fn estimating(calls: Seq<Call>, now: i64) -> bool {
    &&& last_completed(calls) > 0
    &&& now - last_completed(calls) <= grace(calls)
    &&& total(calls, recent_durations(now)) > 0
}

/// The speed of the calls that finished lately.
pub open spec fn window_speed(calls: Seq<Call>, now: i64) -> Speed {
    Speed::of_tokens(total(calls, recent_tokens(now)), total(calls, recent_durations(now)))
}

/// Step `k` of the curve, as the finished calls have it.
pub open spec fn bucket_speed(calls: Seq<Call>, now: i64, k: int) -> Speed {
    Speed::of_tokens(total(calls, bucket_tokens(now, k)), total(calls, bucket_durations(now, k)))
}

/// Step `k` of the curve as it is shown: while the speed is estimated, an empty
/// last step shows the estimate.
pub open spec fn spark_speed(calls: Seq<Call>, now: i64, k: int) -> Speed {
    let own = bucket_speed(calls, now, k);
    if k == SPARK_BUCKETS - 1 && estimating(calls, now) && own.value() <= 0 as real {
        window_speed(calls, now)
    } else {
        own
    }
}

/// The figures that follow from the calls alone, at `now`.
pub open spec fn shows(s: Snapshot, calls: Seq<Call>, now: i64) -> bool {
    &&& s.current_tps == (if estimating(calls, now) {
        window_speed(calls, now)
    } else {
        Speed::Zero
    })
    &&& s.avg_tps == Speed::of_tokens(
        total(calls, outputs()) + total(calls, reasonings()),
        total(calls, durations()),
    )
    &&& s.total_tokens == total(calls, used_tokens())
    &&& s.output_tokens == total(calls, outputs())
    &&& s.reasoning_tokens == total(calls, reasonings())
    &&& s.input_tokens == total(calls, inputs())
    &&& s.cache_creation_tokens == total(calls, cache_creations())
    &&& s.cache_read_tokens == total(calls, cache_reads())
    &&& s.calls_today == calls.len()
    &&& s.sessions_today == sessions_of(calls).len()
    &&& !s.is_live
    &&& s.is_estimating == estimating(calls, now)
    &&& !s.ramping
    &&& !s.is_starting
    &&& s.window_tps == window_speed(calls, now)
    &&& s.live_source == (if estimating(calls, now) {
        LiveSource::Window
    } else {
        LiveSource::Idle
    })
    &&& s.last_activity_ms == last_completed(calls)
    &&& s.now_ms == now
    &&& s.spark@.len() == SPARK_BUCKETS
    &&& forall|k: int| 0 <= k < SPARK_BUCKETS ==> #[trigger] s.spark@[k] == spark_speed(calls, now, k)
}

/// A prefix adds up to no more than the whole.
proof fn lemma_total_prefix(calls: Seq<Call>, f: spec_fn(Call) -> int, i: int)
    requires
        0 <= i <= calls.len(),
        forall|c: Call| #[trigger] f(c) >= 0,
    ensures
        0 <= total(calls.take(i), f) <= total(calls, f),
    decreases calls.len(),
{
    if i == calls.len() {
        assert(calls.take(i) =~= calls);
        if calls.len() > 0 {
            lemma_total_prefix(calls.drop_last(), f, calls.len() - 1);
            assert(calls.drop_last().take(calls.len() - 1) =~= calls.drop_last());
            assert(f(calls.last()) >= 0);
        }
    } else {
        lemma_total_prefix(calls.drop_last(), f, i);
        assert(calls.drop_last().take(i) =~= calls.take(i));
        assert(f(calls.last()) >= 0);
    }
}

/// What is smaller for each call adds up to no more.
proof fn lemma_total_le(calls: Seq<Call>, f: spec_fn(Call) -> int, g: spec_fn(Call) -> int)
    requires
        forall|c: Call| #[trigger] f(c) <= g(c),
    ensures
        total(calls, f) <= total(calls, g),
    decreases calls.len(),
{
    if calls.len() > 0 {
        lemma_total_le(calls.drop_last(), f, g);
        assert(f(calls.last()) <= g(calls.last()));
    }
}

proof fn lemma_total_step(calls: Seq<Call>, f: spec_fn(Call) -> int, i: int)
    requires
        0 <= i < calls.len(),
    ensures
        total(calls.take(i + 1), f) == total(calls.take(i), f) + f(calls[i]),
{
    assert(calls.take(i + 1).drop_last() =~= calls.take(i));
}

/// The used tokens are the sum of their four parts.
pub proof fn lemma_used_parts(calls: Seq<Call>)
    ensures
        total(calls, used_tokens()) == total(calls, outputs()) + total(calls, reasonings()) + total(
            calls,
            inputs(),
        ) + total(calls, cache_creations()),
    decreases calls.len(),
{
    if calls.len() > 0 {
        lemma_used_parts(calls.drop_last());
    }
}

/// Where the sums fit, so do the figures of each call.
pub proof fn lemma_each_fits(calls: Seq<Call>, i: int)
    requires
        totals_fit(calls),
        0 <= i < calls.len(),
    ensures
        calls[i].effective() <= u64::MAX,
        duration(calls[i]) <= i64::MAX,
{
    lemma_total_step(calls, used_tokens(), i);
    lemma_total_prefix(calls, used_tokens(), i);
    lemma_total_prefix(calls, used_tokens(), i + 1);
}

struct TokenSums {
    output: u64,
    reasoning: u64,
    input: u64,
    cache_creation: u64,
    cache_read: u64,
    duration: u64,
}

fn token_sums(calls: &[Call]) -> (s: TokenSums)
    requires
        totals_fit(calls@),
    ensures
        s.output == total(calls@, outputs()),
        s.reasoning == total(calls@, reasonings()),
        s.input == total(calls@, inputs()),
        s.cache_creation == total(calls@, cache_creations()),
        s.cache_read == total(calls@, cache_reads()),
        s.duration == total(calls@, durations()),
{
    let mut s: TokenSums = TokenSums {
        output: 0,
        reasoning: 0,
        input: 0,
        cache_creation: 0,
        cache_read: 0,
        duration: 0,
    };
    let mut i: usize = 0;
    while i < calls.len()
        invariant
            i <= calls@.len(),
            totals_fit(calls@),
            s.output == total(calls@.take(i as int), outputs()),
            s.reasoning == total(calls@.take(i as int), reasonings()),
            s.input == total(calls@.take(i as int), inputs()),
            s.cache_creation == total(calls@.take(i as int), cache_creations()),
            s.cache_read == total(calls@.take(i as int), cache_reads()),
            s.duration == total(calls@.take(i as int), durations()),
        decreases calls.len() - i,
    {
        let c: &Call = &calls[i];
        proof {
            lemma_total_step(calls@, outputs(), i as int);
            lemma_total_step(calls@, reasonings(), i as int);
            lemma_total_step(calls@, inputs(), i as int);
            lemma_total_step(calls@, cache_creations(), i as int);
            lemma_total_step(calls@, cache_reads(), i as int);
            lemma_total_step(calls@, durations(), i as int);
            lemma_total_prefix(calls@, used_tokens(), i + 1);
            lemma_total_prefix(calls@, outputs(), i + 1);
            lemma_total_prefix(calls@, reasonings(), i + 1);
            lemma_total_prefix(calls@, inputs(), i + 1);
            lemma_total_prefix(calls@, cache_creations(), i + 1);
            lemma_total_prefix(calls@, cache_reads(), i + 1);
            lemma_total_prefix(calls@, durations(), i + 1);
            lemma_used_parts(calls@.take(i + 1));
        }
        s.output = s.output + c.output;
        s.reasoning = s.reasoning + c.reasoning;
        s.input = s.input + c.input;
        s.cache_creation = s.cache_creation + c.cache_creation;
        s.cache_read = s.cache_read + c.cache_read;
        s.duration = s.duration + floored(c.gen_ms);
        i = i + 1;
    }
    assert(calls@.take(calls@.len() as int) =~= calls@);
    s
}

fn floored(gen_ms: i64) -> (d: u64)
    ensures
        d == (if gen_ms >= MIN_DUR_MS {
            gen_ms
        } else {
            MIN_DUR_MS
        }),
{
    if gen_ms >= MIN_DUR_MS {
        gen_ms as u64
    } else {
        MIN_DUR_MS as u64
    }
}

/// Tokens and time of the calls that finished lately.
fn window_sums(calls: &[Call], now: i64) -> (w: (u64, u64))
    requires
        totals_fit(calls@),
    ensures
        w.0 == total(calls@, recent_tokens(now)),
        w.1 == total(calls@, recent_durations(now)),
{
    let mut out: u64 = 0;
    let mut dur: u64 = 0;
    let mut i: usize = 0;
    proof {
        lemma_total_le(calls@, recent_tokens(now), used_tokens());
        lemma_total_le(calls@, recent_durations(now), durations());
    }
    while i < calls.len()
        invariant
            i <= calls@.len(),
            totals_fit(calls@),
            total(calls@, recent_tokens(now)) <= u64::MAX,
            total(calls@, recent_durations(now)) <= i64::MAX,
            out == total(calls@.take(i as int), recent_tokens(now)),
            dur == total(calls@.take(i as int), recent_durations(now)),
        decreases calls.len() - i,
    {
        let c: &Call = &calls[i];
        proof {
            lemma_each_fits(calls@, i as int);
            lemma_total_step(calls@, recent_tokens(now), i as int);
            lemma_total_step(calls@, recent_durations(now), i as int);
            lemma_total_prefix(calls@, recent_tokens(now), i + 1);
            lemma_total_prefix(calls@, recent_durations(now), i + 1);
        }
        if c.completed_ms as i128 >= now as i128 - LIVE_WINDOW_MS as i128 {
            out = out + c.effective_out();
            dur = dur + floored(c.gen_ms);
        }
        i = i + 1;
    }
    assert(calls@.take(calls@.len() as int) =~= calls@);
    (out, dur)
}

/// The step of the clock that a time falls into.
fn slot_of(t: i64) -> (q: i64)
    ensures
        q == t as int / SPARK_BUCKET_MS as int,
        -1_000_000_000_000_000 < q < 1_000_000_000_000_000,
{
    match t.checked_div_euclid(SPARK_BUCKET_MS) {
        Some(q) => q,
        None => 0,
    }
}

/// Tokens and time of each step of the curve.
fn bucket_sums(calls: &[Call], now: i64) -> (b: Vec<(u64, u64)>)
    requires
        totals_fit(calls@),
    ensures
        b@.len() == SPARK_BUCKETS,
        forall|k: int|
            0 <= k < SPARK_BUCKETS ==> (#[trigger] b@[k]).0 == total(calls@, bucket_tokens(now, k)) && b@[k].1
                == total(calls@, bucket_durations(now, k)) && b@[k].1 <= i64::MAX,
{
    let mut b: Vec<(u64, u64)> = Vec::new();
    let mut n: usize = 0;
    while n < SPARK_BUCKETS
        invariant
            n <= SPARK_BUCKETS,
            b@.len() == n,
            forall|k: int| 0 <= k < n ==> #[trigger] b@[k] == (0u64, 0u64),
        decreases SPARK_BUCKETS - n,
    {
        b.push((0, 0));
        n = n + 1;
    }
    let now_slot: i64 = slot_of(now);
    let mut i: usize = 0;
    assert(calls@.take(0) =~= Seq::<Call>::empty());
    while i < calls.len()
        invariant
            i <= calls@.len(),
            totals_fit(calls@),
            now_slot == now as int / SPARK_BUCKET_MS as int,
            -1_000_000_000_000_000 < now_slot < 1_000_000_000_000_000,
            b@.len() == SPARK_BUCKETS,
            forall|k: int|
                0 <= k < SPARK_BUCKETS ==> (#[trigger] b@[k]).0 == total(
                    calls@.take(i as int),
                    bucket_tokens(now, k),
                ) && b@[k].1 == total(calls@.take(i as int), bucket_durations(now, k)),
        decreases calls.len() - i,
    {
        let c: &Call = &calls[i];
        let back: i64 = now_slot - slot_of(c.completed_ms);
        let ghost before = b@;
        proof {
            lemma_each_fits(calls@, i as int);
            assert forall|k: int| 0 <= k < SPARK_BUCKETS implies (#[trigger] before[k]).0 + bucket_tokens(now, k)(
                *c,
            ) == total(calls@.take(i + 1), bucket_tokens(now, k)) && before[k].1 + bucket_durations(now, k)(*c)
                == total(calls@.take(i + 1), bucket_durations(now, k)) && total(
                calls@.take(i + 1),
                bucket_tokens(now, k),
            ) <= u64::MAX && total(calls@.take(i + 1), bucket_durations(now, k)) <= i64::MAX by {
                lemma_total_step(calls@, bucket_tokens(now, k), i as int);
                lemma_total_step(calls@, bucket_durations(now, k), i as int);
                lemma_total_prefix(calls@, bucket_tokens(now, k), i + 1);
                lemma_total_prefix(calls@, bucket_durations(now, k), i + 1);
                lemma_total_le(calls@, bucket_tokens(now, k), used_tokens());
                lemma_total_le(calls@, bucket_durations(now, k), durations());
            }
        }
        if 0 <= back && back < SPARK_BUCKETS as i64 {
            let k: usize = SPARK_BUCKETS - 1 - back as usize;
            let old: (u64, u64) = b[k];
            assert(before[k as int] == old);
            b.set(k, (old.0 + c.effective_out(), old.1 + floored(c.gen_ms)));
        }
        assert forall|k: int| 0 <= k < SPARK_BUCKETS implies (#[trigger] b@[k]).0 == total(
            calls@.take(i + 1),
            bucket_tokens(now, k),
        ) && b@[k].1 == total(calls@.take(i + 1), bucket_durations(now, k)) by {
            assert(before[k].0 + bucket_tokens(now, k)(*c) == total(calls@.take(i + 1), bucket_tokens(now, k)));
        }
        i = i + 1;
    }
    assert(calls@.take(calls@.len() as int) =~= calls@);
    assert forall|k: int| 0 <= k < SPARK_BUCKETS implies (#[trigger] b@[k]).1 <= i64::MAX by {
        lemma_total_le(calls@, bucket_durations(now, k), durations());
    }
    b
}

fn latest(calls: &[Call]) -> (t: i64)
    ensures
        t == last_completed(calls@),
        t >= 0,
{
    let mut t: i64 = 0;
    let mut i: usize = 0;
    while i < calls.len()
        invariant
            i <= calls@.len(),
            t == last_completed(calls@.take(i as int)),
            t >= 0,
        decreases calls.len() - i,
    {
        assert(calls@.take(i + 1).drop_last() =~= calls@.take(i as int));
        if calls[i].completed_ms > t {
            t = calls[i].completed_ms;
        }
        i = i + 1;
    }
    assert(calls@.take(calls@.len() as int) =~= calls@);
    t
}

fn session_count(calls: &[Call]) -> (n: usize)
    ensures
        n == sessions_of(calls@).len(),
{
    let mut seen: StringHashSet = StringHashSet::new();
    let mut i: usize = 0;
    while i < calls.len()
        invariant
            i <= calls@.len(),
            seen@ == sessions_of(calls@.take(i as int)),
        decreases calls.len() - i,
    {
        assert(calls@.take(i + 1).drop_last() =~= calls@.take(i as int));
        if !calls[i].session.as_str().is_empty() {
            let _ = seen.insert(calls[i].session.clone());
        }
        i = i + 1;
    }
    assert(calls@.take(calls@.len() as int) =~= calls@);
    seen.len()
}

/// Inserting below `j` larger times amounts to inserting at place `j`.
proof fn lemma_with_time_at(s: Seq<i64>, x: i64, j: int)
    requires
        0 <= j <= s.len(),
        forall|i: int| j <= i < s.len() ==> #[trigger] s[i] > x,
        j > 0 ==> s[j - 1] <= x,
    ensures
        j > 0 && s[j - 1] == x ==> with_time(s, x) == s,
        !(j > 0 && s[j - 1] == x) ==> with_time(s, x) == s.insert(j, x),
    decreases s.len() - j,
{
    if j == s.len() {
        assert(s.insert(j, x) =~= s.push(x));
        if s.len() == 0 {
            assert(s.push(x) =~= seq![x]);
        }
    } else {
        assert(s[s.len() - 1] > x);
        let t = s.drop_last();
        assert forall|i: int| j <= i < t.len() implies #[trigger] t[i] > x by {
            assert(t[i] == s[i]);
        }
        lemma_with_time_at(t, x, j);
        assert(t.push(s.last()) =~= s);
        assert(t.insert(j, x).push(s.last()) =~= s.insert(j, x));
    }
}

/// The times at which calls finished are in order, each once.
pub proof fn finish_times_increase(calls: Seq<Call>)
    ensures
        forall|i: int, j: int|
            0 <= i < j < finish_times(calls).len() ==> #[trigger] finish_times(calls)[i]
                < #[trigger] finish_times(calls)[j],
        forall|t: i64|
            #[trigger] finish_times(calls).contains(t) <==> exists|i: int|
                0 <= i < calls.len() && (#[trigger] calls[i]).completed_ms == t,
    decreases calls.len(),
{
    if calls.len() > 0 {
        let before = calls.drop_last();
        finish_times_increase(before);
        let x = calls.last().completed_ms;
        lemma_with_time(finish_times(before), x);
        assert forall|t: i64| #[trigger] finish_times(calls).contains(t) implies exists|i: int|
            0 <= i < calls.len() && (#[trigger] calls[i]).completed_ms == t by {
            if t == x {
                assert(calls[calls.len() - 1].completed_ms == t);
            } else {
                assert(finish_times(before).contains(t));
                let i = choose|i: int| 0 <= i < before.len() && (#[trigger] before[i]).completed_ms == t;
                assert(calls[i].completed_ms == t);
            }
        }
        assert forall|t: i64|
            (exists|i: int| 0 <= i < calls.len() && (#[trigger] calls[i]).completed_ms == t)
            implies #[trigger] finish_times(calls).contains(t) by {
            let i = choose|i: int| 0 <= i < calls.len() && (#[trigger] calls[i]).completed_ms == t;
            if i < before.len() {
                assert(before[i].completed_ms == t);
                assert(finish_times(before).contains(t));
            }
        }
    }
}

proof fn lemma_with_time(s: Seq<i64>, x: i64)
    requires
        forall|i: int, j: int| 0 <= i < j < s.len() ==> #[trigger] s[i] < #[trigger] s[j],
    ensures
        forall|i: int, j: int|
            0 <= i < j < with_time(s, x).len() ==> #[trigger] with_time(s, x)[i] < #[trigger] with_time(
                s,
                x,
            )[j],
        forall|t: i64| #[trigger] with_time(s, x).contains(t) <==> t == x || s.contains(t),
        s.len() > 0 ==> with_time(s, x).last() == (if x > s.last() {
            x
        } else {
            s.last()
        }),
        with_time(s, x).len() > 0,
    decreases s.len(),
{
    let r = with_time(s, x);
    if s.len() == 0 {
        assert(r[0] == x);
        assert forall|t: i64| r.contains(t) <==> t == x || s.contains(t) by {
            if t == x {
                assert(r[0] == t);
            }
        }
    } else if x > s.last() {
        assert forall|t: i64| r.contains(t) <==> t == x || s.contains(t) by {
            if t == x {
                assert(r[r.len() - 1] == t);
            }
            if s.contains(t) {
                let i = choose|i: int| 0 <= i < s.len() && s[i] == t;
                assert(r[i] == t);
            }
        }
    } else if x == s.last() {
        assert(s[s.len() - 1] == x);
    } else {
        let d = s.drop_last();
        lemma_with_time(d, x);
        let q = with_time(d, x);
        assert forall|i: int, j: int| 0 <= i < j < r.len() implies #[trigger] r[i] < #[trigger] r[j] by {
            if j == r.len() - 1 {
                assert(q.contains(q[i]));
                assert(q[i] == x || d.contains(q[i]));
            }
        }
        assert forall|t: i64| r.contains(t) <==> t == x || s.contains(t) by {
            if r.contains(t) {
                let i = choose|i: int| 0 <= i < r.len() && r[i] == t;
                if i < q.len() {
                    assert(q.contains(q[i]));
                    if t != x {
                        let k = choose|k: int| 0 <= k < d.len() && d[k] == t;
                        assert(s[k] == t);
                    }
                } else {
                    assert(s[s.len() - 1] == t);
                }
            }
            if t == x {
                assert(q.contains(t));
                let i = choose|i: int| 0 <= i < q.len() && q[i] == t;
                assert(r[i] == t);
            }
            if s.contains(t) {
                let k = choose|k: int| 0 <= k < s.len() && s[k] == t;
                if k < d.len() {
                    assert(d[k] == t);
                    assert(q.contains(t));
                    let i = choose|i: int| 0 <= i < q.len() && q[i] == t;
                    assert(r[i] == t);
                } else {
                    assert(r[r.len() - 1] == t);
                }
            }
        }
    }
}

fn sorted_times(calls: &[Call]) -> (s: Vec<i64>)
    ensures
        s@ == finish_times(calls@),
{
    let mut s: Vec<i64> = Vec::new();
    let mut i: usize = 0;
    while i < calls.len()
        invariant
            i <= calls@.len(),
            s@ == finish_times(calls@.take(i as int)),
        decreases calls.len() - i,
    {
        assert(calls@.take(i + 1).drop_last() =~= calls@.take(i as int));
        let x: i64 = calls[i].completed_ms;
        let mut j: usize = s.len();
        while j > 0 && s[j - 1] > x
            invariant
                j <= s@.len(),
                forall|k: int| j <= k < s@.len() ==> #[trigger] s@[k] > x,
            decreases j,
        {
            j = j - 1;
        }
        proof {
            lemma_with_time_at(s@, x, j as int);
        }
        if j == 0 || s[j - 1] != x {
            s.insert(j, x);
        }
        i = i + 1;
    }
    assert(calls@.take(calls@.len() as int) =~= calls@);
    s
}

fn collect_gaps(times: &[i64]) -> (g: Vec<i128>)
    ensures
        g@ == short_gaps(times@),
{
    let mut g: Vec<i128> = Vec::new();
    let mut i: usize = 1;
    while i < times.len()
        invariant
            1 <= i,
            times@.len() > 0 ==> i <= times@.len(),
            g@ == short_gaps(times@.take(if times@.len() == 0 { 0 } else { i as int })),
        decreases times.len() - i,
    {
        assert(times@.take(i + 1).drop_last() =~= times@.take(i as int));
        let gap: i128 = times[i] as i128 - times[i - 1] as i128;
        if 0 < gap && gap < GAP_LIMIT_MS as i128 {
            g.push(gap);
        }
        i = i + 1;
    }
    assert(times@.take(times@.len() as int) =~= times@);
    g
}

fn grace_ms(calls: &[Call]) -> (g: i64)
    ensures
        g == grace(calls@),
        ESTIMATE_MIN_MS <= g <= ESTIMATE_MAX_MS,
{
    let times: Vec<i64> = sorted_times(calls);
    let gaps: Vec<i128> = collect_gaps(&times);
    if gaps.len() < 3 {
        return ESTIMATE_DEFAULT_MS;
    }
    let start: usize = gaps.len().saturating_sub(10);
    let mut tail: Vec<i128> = Vec::new();
    let mut i: usize = start;
    while i < gaps.len()
        invariant
            start <= i <= gaps@.len(),
            tail@ == gaps@.subrange(start as int, i as int),
        decreases gaps.len() - i,
    {
        tail.push(gaps[i]);
        i = i + 1;
        assert(tail@ =~= gaps@.subrange(start as int, i as int));
    }
    assert(tail@ =~= newest(gaps@));
    let mid: i128 = order::select(&tail, tail.len() / 2);
    if mid < ESTIMATE_MIN_MS as i128 {
        ESTIMATE_MIN_MS
    } else if mid > ESTIMATE_MAX_MS as i128 {
        ESTIMATE_MAX_MS
    } else {
        mid as i64
    }
}

/// Letting calls go makes no sum larger.
pub proof fn lemma_total_filter(calls: Seq<Call>, f: spec_fn(Call) -> int, keep: spec_fn(Call) -> bool)
    requires
        forall|c: Call| #[trigger] f(c) >= 0,
    ensures
        0 <= total(calls.filter(keep), f) <= total(calls, f),
    decreases calls.len(),
{
    reveal(Seq::filter);
    if calls.len() > 0 {
        let front = calls.drop_last();
        lemma_total_filter(front, f, keep);
        assert(f(calls.last()) >= 0);
        if keep(calls.last()) {
            assert(calls.filter(keep).drop_last() =~= front.filter(keep));
        }
    }
}

proof fn lemma_prefix_too_large(calls: Seq<Call>, i: int)
    requires
        0 <= i <= calls.len(),
        !totals_fit(calls.take(i)),
    ensures
        !totals_fit(calls),
{
    lemma_total_prefix(calls, used_tokens(), i);
    lemma_total_prefix(calls, cache_reads(), i);
    lemma_total_prefix(calls, durations(), i);
}

/// Whether the sums over the calls fit, as [`snapshot_at`] asks.
pub fn sums_fit(calls: &[Call]) -> (r: bool)
    ensures
        r == totals_fit(calls@),
{
    let mut used: u128 = 0;
    let mut cached: u128 = 0;
    let mut dur: u128 = 0;
    let mut i: usize = 0;
    assert(calls@.take(0) =~= Seq::<Call>::empty());
    while i < calls.len()
        invariant
            i <= calls@.len(),
            used == total(calls@.take(i as int), used_tokens()),
            cached == total(calls@.take(i as int), cache_reads()),
            dur == total(calls@.take(i as int), durations()),
            totals_fit(calls@.take(i as int)),
        decreases calls.len() - i,
    {
        let c: &Call = &calls[i];
        proof {
            lemma_total_step(calls@, used_tokens(), i as int);
            lemma_total_step(calls@, cache_reads(), i as int);
            lemma_total_step(calls@, durations(), i as int);
        }
        used = used + c.output as u128 + c.reasoning as u128 + c.input as u128 + c.cache_creation as u128;
        cached = cached + c.cache_read as u128;
        dur = dur + floored(c.gen_ms) as u128;
        i = i + 1;
        if used > u64::MAX as u128 || cached > u64::MAX as u128 || dur > i64::MAX as u128 {
            proof {
                lemma_prefix_too_large(calls@, i as int);
            }
            return false;
        }
    }
    assert(calls@.take(calls@.len() as int) =~= calls@);
    true
}

/// The figures at `now`, from today's calls.
pub fn snapshot_at(calls: &[Call], now: i64) -> (s: Snapshot)
    requires
        totals_fit(calls@),
    ensures
        shows(s, calls@, now),
        s.rollout_dir@ == Seq::<char>::empty(),
{
    let sums: TokenSums = token_sums(calls);
    let window: (u64, u64) = window_sums(calls, now);
    let buckets: Vec<(u64, u64)> = bucket_sums(calls, now);
    let last: i64 = latest(calls);
    let grace: i64 = grace_ms(calls);
    proof {
        lemma_used_parts(calls@);
        lemma_total_prefix(calls@, outputs(), calls@.len() as int);
        lemma_total_prefix(calls@, reasonings(), calls@.len() as int);
        lemma_total_prefix(calls@, inputs(), calls@.len() as int);
        lemma_total_prefix(calls@, cache_creations(), calls@.len() as int);
    }
    let is_estimating: bool = last > 0 && now as i128 - last as i128 <= grace as i128 && window.1 > 0;
    let window_tps: Speed = Speed::from_tokens(window.0, window.1);
    let current_tps: Speed = if is_estimating {
        window_tps.clone()
    } else {
        Speed::Zero
    };
    let avg_tps: Speed = Speed::from_tokens(sums.output + sums.reasoning, sums.duration);
    let mut spark: Vec<Speed> = Vec::new();
    let mut k: usize = 0;
    while k < SPARK_BUCKETS
        invariant
            k <= SPARK_BUCKETS,
            buckets@.len() == SPARK_BUCKETS,
            spark@.len() == k,
            is_estimating == estimating(calls@, now),
            is_estimating ==> current_tps == window_speed(calls@, now),
            forall|j: int|
                0 <= j < SPARK_BUCKETS ==> (#[trigger] buckets@[j]).0 == total(calls@, bucket_tokens(now, j))
                    && buckets@[j].1 == total(calls@, bucket_durations(now, j)),
            forall|j: int| 0 <= j < k ==> #[trigger] spark@[j] == spark_speed(calls@, now, j),
        decreases SPARK_BUCKETS - k,
    {
        let own: Speed = Speed::from_tokens(buckets[k].0, buckets[k].1);
        assert(own == bucket_speed(calls@, now, k as int));
        if k == SPARK_BUCKETS - 1 && is_estimating && !own.is_positive() {
            spark.push(current_tps.clone());
        } else {
            spark.push(own);
        }
        k = k + 1;
    }
    Snapshot {
        current_tps,
        avg_tps,
        total_tokens: sums.output + sums.reasoning + sums.input + sums.cache_creation,
        output_tokens: sums.output,
        reasoning_tokens: sums.reasoning,
        input_tokens: sums.input,
        cache_creation_tokens: sums.cache_creation,
        cache_read_tokens: sums.cache_read,
        calls_today: calls.len() as u64,
        sessions_today: session_count(calls) as u64,
        is_live: false,
        is_estimating,
        ramping: false,
        is_starting: false,
        window_tps,
        live_source: if is_estimating {
            LiveSource::Window
        } else {
            LiveSource::Idle
        },
        last_activity_ms: last,
        now_ms: now,
        rollout_dir: String::new(),
        spark,
    }
}

/// Today's calls and the date that they belong to.
pub struct Aggregator {
    pub calls: Vec<Call>,
    /// Year, month and day.
    pub today_ymd: (i32, u32, u32),
}

impl Aggregator {
    /// Starts with no calls, on the date of the machine.
    pub fn new() -> (a: Self)
        ensures
            a.calls@ == Seq::<Call>::empty(),
            1 <= a.today_ymd.1 <= 12,
            1 <= a.today_ymd.2 <= 31,
    {
        Self::on_day(clock::local_ymd())
    }

    /// Starts with no calls, on a given date.
    pub fn on_day(ymd: (i32, u32, u32)) -> (a: Self)
        ensures
            a.calls@ == Seq::<Call>::empty(),
            a.today_ymd == ymd,
    {
        Aggregator { calls: Vec::new(), today_ymd: ymd }
    }

    pub fn ingest(&mut self, call: Call)
        ensures
            final(self).calls@ == old(self).calls@.push(call),
            final(self).today_ymd == old(self).today_ymd,
    {
        self.calls.push(call);
    }

    /// Moves to the date `ymd`; on another date than before, yesterday's calls
    /// are forgotten.
    pub fn roll_to(&mut self, ymd: (i32, u32, u32))
        ensures
            final(self).today_ymd == ymd,
            final(self).calls@ == (if ymd == old(self).today_ymd {
                old(self).calls@
            } else {
                Seq::<Call>::empty()
            }),
    {
        if ymd.0 != self.today_ymd.0 || ymd.1 != self.today_ymd.1 || ymd.2 != self.today_ymd.2 {
            self.today_ymd = ymd;
            self.calls.clear();
        }
    }

    /// Moves to the date of the machine.
    pub fn rollover_if_needed(&mut self)
        ensures
            1 <= final(self).today_ymd.1 <= 12,
            1 <= final(self).today_ymd.2 <= 31,
            final(self).calls@ == (if final(self).today_ymd == old(self).today_ymd {
                old(self).calls@
            } else {
                Seq::<Call>::empty()
            }),
    {
        let ymd: (i32, u32, u32) = clock::local_ymd();
        self.roll_to(ymd);
    }

    pub fn calls(&self) -> (c: &[Call])
        ensures
            c@ == self.calls@,
    {
        self.calls.as_slice()
    }

    /// The figures at this moment.
    pub fn snapshot(&self) -> (s: Snapshot)
        requires
            totals_fit(self.calls@),
        ensures
            0 <= s.now_ms <= clock::CLOCK_LIMIT,
            shows(s, self.calls@, s.now_ms),
            s.rollout_dir@ == Seq::<char>::empty(),
    {
        let now: i64 = clock::now_ms();
        snapshot_at(&self.calls, now)
    }
}

} // verus!
