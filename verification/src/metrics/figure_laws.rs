//! What the day's figures say of its calls.

use vstd::prelude::*;

use crate::order;
use crate::speed;

use super::aggregate;
use super::aggregate::{LiveSource, Snapshot};
use super::call::Call;
use super::engine;
use super::engine::UsageRow;

verus! {

proof fn lemma_total_joined(a: Seq<Call>, b: Seq<Call>, f: spec_fn(Call) -> int)
    ensures
        aggregate::total(a + b, f) == aggregate::total(a, f) + aggregate::total(b, f),
    decreases b.len(),
{
    if b.len() == 0 {
        assert(a + b =~= a);
    } else {
        assert((a + b).drop_last() =~= a + b.drop_last());
        lemma_total_joined(a, b.drop_last(), f);
    }
}

proof fn lemma_total_one(c: Call, f: spec_fn(Call) -> int)
    ensures
        aggregate::total(seq![c], f) == f(c),
{
    assert(seq![c].drop_last() =~= Seq::empty());
    reveal_with_fuel(aggregate::total, 2);
}

proof fn lemma_total_none(calls: Seq<Call>, f: spec_fn(Call) -> int)
    requires
        forall|i: int| 0 <= i < calls.len() ==> f(#[trigger] calls[i]) == 0,
    ensures
        aggregate::total(calls, f) == 0,
    decreases calls.len(),
{
    if calls.len() > 0 {
        let front = calls.drop_last();
        assert forall|i: int| 0 <= i < front.len() implies f(#[trigger] front[i]) == 0 by {
            assert(front[i] == calls[i]);
        }
        lemma_total_none(front, f);
        assert(f(calls[calls.len() - 1]) == 0);
    }
}

proof fn lemma_total_alike(calls: Seq<Call>, f: spec_fn(Call) -> int, g: spec_fn(Call) -> int)
    requires
        forall|i: int| 0 <= i < calls.len() ==> f(#[trigger] calls[i]) == g(calls[i]),
    ensures
        aggregate::total(calls, f) == aggregate::total(calls, g),
    decreases calls.len(),
{
    if calls.len() > 0 {
        let front = calls.drop_last();
        assert forall|i: int| 0 <= i < front.len() implies f(#[trigger] front[i]) == g(front[i]) by {
            assert(front[i] == calls[i]);
        }
        lemma_total_alike(front, f, g);
        assert(f(calls[calls.len() - 1]) == g(calls[calls.len() - 1]));
    }
}

/// The figures of a day with one call are those of the call.
pub proof fn one_call_is_what_is_shown(c: Call, now: i64, s: Snapshot)
    requires
        aggregate::shows(s, seq![c], now),
    ensures
        s.output_tokens == c.output,
        s.reasoning_tokens == c.reasoning,
        s.input_tokens == c.input,
        s.cache_creation_tokens == c.cache_creation,
        s.cache_read_tokens == c.cache_read,
        s.total_tokens == c.input + c.output + c.reasoning + c.cache_creation,
        s.calls_today == 1,
        s.sessions_today == (if c.session@.len() > 0 {
            1int
        } else {
            0int
        }),
        s.last_activity_ms == (if c.completed_ms > 0 {
            c.completed_ms as int
        } else {
            0int
        }),
        s.now_ms == now,
        c.output + c.reasoning <= u64::MAX && c.gen_ms >= 50 ==> s.avg_tps.value() * (c.gen_ms as real) == (
        1000 * (c.output + c.reasoning)) as real,
        c.output + c.reasoning <= u64::MAX && c.gen_ms <= 50 ==> s.avg_tps.value() * (50 as real) == (1000 * (
        c.output + c.reasoning)) as real,
{
    lemma_total_one(c, aggregate::outputs());
    lemma_total_one(c, aggregate::reasonings());
    lemma_total_one(c, aggregate::inputs());
    lemma_total_one(c, aggregate::cache_creations());
    lemma_total_one(c, aggregate::cache_reads());
    lemma_total_one(c, aggregate::used_tokens());
    lemma_total_one(c, aggregate::durations());
    let none = Seq::<Call>::empty();
    assert(seq![c].drop_last() =~= none);
    reveal_with_fuel(aggregate::sessions_of, 2);
    reveal_with_fuel(aggregate::last_completed, 2);
    if c.output + c.reasoning <= u64::MAX {
        speed::speed_makes_tokens_in_time(
            c.output + c.reasoning,
            if c.gen_ms >= 50 {
                c.gen_ms as int
            } else {
                50
            },
        );
    }
}

/// The figures of two lists of calls add up to those of both together.
pub proof fn figures_add_up(a: Seq<Call>, b: Seq<Call>, now: i64, s: Snapshot, t: Snapshot, u: Snapshot)
    requires
        aggregate::shows(s, a, now),
        aggregate::shows(t, b, now),
        aggregate::shows(u, a + b, now),
    ensures
        u.output_tokens == s.output_tokens + t.output_tokens,
        u.reasoning_tokens == s.reasoning_tokens + t.reasoning_tokens,
        u.input_tokens == s.input_tokens + t.input_tokens,
        u.cache_creation_tokens == s.cache_creation_tokens + t.cache_creation_tokens,
        u.cache_read_tokens == s.cache_read_tokens + t.cache_read_tokens,
        u.total_tokens == s.total_tokens + t.total_tokens,
        u.calls_today == s.calls_today + t.calls_today,
{
    lemma_total_joined(a, b, aggregate::outputs());
    lemma_total_joined(a, b, aggregate::reasonings());
    lemma_total_joined(a, b, aggregate::inputs());
    lemma_total_joined(a, b, aggregate::cache_creations());
    lemma_total_joined(a, b, aggregate::cache_reads());
    lemma_total_joined(a, b, aggregate::used_tokens());
}

/// Two lists of calls took as long as both together, and one call took as long as it
/// generated, but no less than a twentieth of a second.
pub proof fn generation_adds_up(a: Seq<Call>, b: Seq<Call>, c: Call)
    ensures
        aggregate::total(a + b, aggregate::durations()) == aggregate::total(a, aggregate::durations())
            + aggregate::total(b, aggregate::durations()),
        c.gen_ms >= 50 ==> aggregate::total(seq![c], aggregate::durations()) == c.gen_ms,
        c.gen_ms < 50 ==> aggregate::total(seq![c], aggregate::durations()) == 50,
{
    lemma_total_joined(a, b, aggregate::durations());
    lemma_total_one(c, aggregate::durations());
}

/// The average speed makes the day's streamed tokens in the time that its calls took.
pub proof fn average_makes_the_tokens_in_the_time(calls: Seq<Call>, now: i64, s: Snapshot)
    requires
        aggregate::totals_fit(calls),
        aggregate::shows(s, calls, now),
    ensures
        s.avg_tps.value() * (aggregate::total(calls, aggregate::durations()) as real) == (1000 * (s.output_tokens
            + s.reasoning_tokens)) as real,
{
    aggregate::lemma_used_parts(calls);
    super::laws::generation_takes_time(calls);
    let (n, d) = (
        aggregate::total(calls, aggregate::outputs()) + aggregate::total(calls, aggregate::reasonings()),
        aggregate::total(calls, aggregate::durations()),
    );
    if calls.len() > 0 {
        assert(d > 0);
        lemma_parts_fit(calls);
        speed::speed_makes_tokens_in_time(n, d);
    } else {
        assert(n == 0 && d == 0);
        assert(s.avg_tps.value() == 0 as real);
    }
}

proof fn lemma_parts_fit(calls: Seq<Call>)
    requires
        aggregate::totals_fit(calls),
    ensures
        0 <= aggregate::total(calls, aggregate::outputs()) + aggregate::total(calls, aggregate::reasonings())
            <= u64::MAX,
{
    aggregate::lemma_used_parts(calls);
    lemma_total_least(calls, aggregate::inputs());
    lemma_total_least(calls, aggregate::cache_creations());
    lemma_total_least(calls, aggregate::outputs());
    lemma_total_least(calls, aggregate::reasonings());
}

proof fn lemma_total_least(calls: Seq<Call>, f: spec_fn(Call) -> int)
    requires
        forall|c: Call| #[trigger] f(c) >= 0,
    ensures
        aggregate::total(calls, f) >= 0,
    decreases calls.len(),
{
    if calls.len() > 0 {
        lemma_total_least(calls.drop_last(), f);
        assert(f(calls.last()) >= 0);
    }
}

/// The window holds the calls of the last ten minutes: what finished before them
/// changes nothing in its speed.
pub proof fn window_forgets_older_calls(older: Seq<Call>, calls: Seq<Call>, now: i64)
    requires
        forall|i: int| 0 <= i < older.len() ==> (#[trigger] older[i]).completed_ms < now - 600_000,
    ensures
        aggregate::window_speed(older + calls, now) == aggregate::window_speed(calls, now),
        aggregate::window_speed(calls + older, now) == aggregate::window_speed(calls, now),
{
    lemma_total_joined(older, calls, aggregate::recent_tokens(now));
    lemma_total_joined(older, calls, aggregate::recent_durations(now));
    lemma_total_joined(calls, older, aggregate::recent_tokens(now));
    lemma_total_joined(calls, older, aggregate::recent_durations(now));
    lemma_total_none(older, aggregate::recent_tokens(now));
    lemma_total_none(older, aggregate::recent_durations(now));
}

/// Where all calls finished in the last ten minutes, the speed of the window is the
/// average of the day.
pub proof fn window_of_a_young_day_is_its_average(calls: Seq<Call>, now: i64, s: Snapshot)
    requires
        forall|i: int| 0 <= i < calls.len() ==> (#[trigger] calls[i]).completed_ms >= now - 600_000,
        aggregate::shows(s, calls, now),
    ensures
        s.window_tps == s.avg_tps,
{
    let both = |c: Call| c.output + c.reasoning;
    lemma_total_alike(calls, aggregate::recent_tokens(now), both);
    lemma_total_alike(calls, aggregate::recent_durations(now), aggregate::durations());
    lemma_total_split(calls);
}

proof fn lemma_total_split(calls: Seq<Call>)
    ensures
        aggregate::total(calls, |c: Call| c.output + c.reasoning) == aggregate::total(calls, aggregate::outputs())
            + aggregate::total(calls, aggregate::reasonings()),
    decreases calls.len(),
{
    if calls.len() > 0 {
        lemma_total_split(calls.drop_last());
    }
}

/// A step of the curve shows the calls that finished in it, and no others. Steps are
/// ten seconds long, begin at whole tens of seconds, and the last of ninety holds
/// `now`.
pub proof fn steps_are_ten_seconds_long(c: Call, now: i64, k: int)
    ensures
        ({
            let begin = now as int - now as int % 10_000 - (89 - k) * 10_000;
            aggregate::in_bucket(c, now, k) <==> begin <= c.completed_ms < begin + 10_000
        }),
{
}

/// Calls that finished outside a step change nothing in it.
pub proof fn step_shows_its_own_calls(others: Seq<Call>, calls: Seq<Call>, now: i64, k: int)
    requires
        forall|i: int| #![trigger others[i]]
            0 <= i < others.len() ==> {
                let begin = now as int - now as int % 10_000 - (89 - k) * 10_000;
                !(begin <= others[i].completed_ms < begin + 10_000)
            },
    ensures
        aggregate::bucket_speed(others + calls, now, k) == aggregate::bucket_speed(calls, now, k),
        aggregate::bucket_speed(calls + others, now, k) == aggregate::bucket_speed(calls, now, k),
{
    assert forall|i: int| 0 <= i < others.len() implies !aggregate::in_bucket(#[trigger] others[i], now, k) by {
        steps_are_ten_seconds_long(others[i], now, k);
    }
    lemma_total_joined(others, calls, aggregate::bucket_tokens(now, k));
    lemma_total_joined(others, calls, aggregate::bucket_durations(now, k));
    lemma_total_joined(calls, others, aggregate::bucket_tokens(now, k));
    lemma_total_joined(calls, others, aggregate::bucket_durations(now, k));
    lemma_total_none(others, aggregate::bucket_tokens(now, k));
    lemma_total_none(others, aggregate::bucket_durations(now, k));
}

/// Where all calls finished in one step, that step shows their average speed.
pub proof fn step_shows_the_average(calls: Seq<Call>, now: i64, k: int, s: Snapshot)
    requires
        forall|i: int| #![trigger calls[i]]
            0 <= i < calls.len() ==> {
                let begin = now as int - now as int % 10_000 - (89 - k) * 10_000;
                begin <= calls[i].completed_ms < begin + 10_000
            },
        aggregate::shows(s, calls, now),
    ensures
        aggregate::bucket_speed(calls, now, k) == s.avg_tps,
{
    assert forall|i: int| 0 <= i < calls.len() implies aggregate::in_bucket(#[trigger] calls[i], now, k) by {
        steps_are_ten_seconds_long(calls[i], now, k);
    }
    let both = |c: Call| c.output + c.reasoning;
    lemma_total_alike(calls, aggregate::bucket_tokens(now, k), both);
    lemma_total_alike(calls, aggregate::bucket_durations(now, k), aggregate::durations());
    lemma_total_split(calls);
}

/// The curve has ninety steps, each as its calls have it. Only the last one may show
/// an estimate, where nothing else is to be seen in it.
pub proof fn curve_shows_its_steps(calls: Seq<Call>, now: i64, s: Snapshot)
    requires
        aggregate::shows(s, calls, now),
    ensures
        s.spark@.len() == 90,
        forall|k: int| 0 <= k < 89 ==> #[trigger] s.spark@[k] == aggregate::bucket_speed(calls, now, k),
        s.is_estimating && aggregate::bucket_speed(calls, now, 89).value() <= 0 as real ==> s.spark@[89]
            == s.window_tps,
        !s.is_estimating || aggregate::bucket_speed(calls, now, 89).value() > 0 as real ==> s.spark@[89]
            == aggregate::bucket_speed(calls, now, 89),
{
    assert(s.spark@[89] == aggregate::spark_speed(calls, now, 89));
}

/// While a call is thought to run, the speed is that of the window; else there is
/// none.
pub proof fn estimate_is_the_window(calls: Seq<Call>, now: i64, s: Snapshot)
    requires
        aggregate::shows(s, calls, now),
    ensures
        s.is_estimating ==> s.current_tps == s.window_tps && s.live_source == LiveSource::Window,
        !s.is_estimating ==> s.current_tps.value() == 0 as real && s.live_source == LiveSource::Idle,
        !s.is_live && !s.ramping && !s.is_starting,
{
}

/// A call is thought to run while the time since the last one is within its grace and
/// that one finished in the last ten minutes.
pub proof fn estimate_stands_within_grace(calls: Seq<Call>, now: i64, s: Snapshot)
    requires
        aggregate::shows(s, calls, now),
    ensures
        s.is_estimating <==> s.last_activity_ms > 0 && now - s.last_activity_ms <= aggregate::grace(calls) && now
            - s.last_activity_ms <= 600_000,
{
    super::laws::last_call_finished_last(calls);
    let last = aggregate::last_completed(calls);
    if last > 0 {
        let i = choose|i: int| 0 <= i < calls.len() && (#[trigger] calls[i]).completed_ms == last;
        if now - last <= 600_000 {
            let (a, b) = (calls.take(i), calls.skip(i + 1));
            assert(calls =~= a + seq![calls[i]] + b);
            let f = aggregate::recent_durations(now);
            lemma_total_joined(a, seq![calls[i]], f);
            lemma_total_joined(a + seq![calls[i]], b, f);
            lemma_total_one(calls[i], f);
            lemma_total_least(a, f);
            lemma_total_least(b, f);
        } else {
            lemma_total_none(calls, aggregate::recent_durations(now));
        }
    }
}

/// One more time, later than the others, adds the gap before it, where that is
/// shorter than ten minutes, and changes none of the earlier gaps.
pub proof fn later_time_adds_its_gap(times: Seq<i64>, t: i64)
    requires
        times.len() > 0,
        t > times.last(),
    ensures
        t - times.last() < 600_000 ==> aggregate::short_gaps(times.push(t)) == aggregate::short_gaps(times).push(
            (t - times.last()) as i128,
        ),
        t - times.last() >= 600_000 ==> aggregate::short_gaps(times.push(t)) == aggregate::short_gaps(times),
{
    assert(times.push(t).drop_last() =~= times);
}

/// Fewer than two times have no gap between them.
pub proof fn single_time_has_no_gap(times: Seq<i64>)
    requires
        times.len() < 2,
    ensures
        aggregate::short_gaps(times).len() == 0,
{
}

/// With fewer than three short gaps, the grace is a minute.
pub proof fn grace_is_a_minute_at_first(calls: Seq<Call>)
    requires
        aggregate::short_gaps(aggregate::finish_times(calls)).len() < 3,
    ensures
        aggregate::grace(calls) == 60_000,
{
}

/// Only the ten newest short gaps decide on the grace: where those of two days agree,
/// so does it, whatever came before.
pub proof fn newest_gaps_decide(a: Seq<Call>, b: Seq<Call>)
    requires
        ({
            let (x, y) = (
                aggregate::short_gaps(aggregate::finish_times(a)),
                aggregate::short_gaps(aggregate::finish_times(b)),
            );
            &&& x.len() >= 10 && y.len() >= 10
            &&& forall|k: int| 1 <= k <= 10 ==> x[x.len() - k] == #[trigger] y[y.len() - k]
        }),
    ensures
        aggregate::grace(a) == aggregate::grace(b),
{
    let (x, y) = (
        aggregate::short_gaps(aggregate::finish_times(a)),
        aggregate::short_gaps(aggregate::finish_times(b)),
    );
    let (p, q) = (aggregate::newest(x), aggregate::newest(y));
    assert forall|i: int| 0 <= i < 10 implies p[i] == q[i] by {
        assert(x[x.len() - (10 - i)] == y[y.len() - (10 - i)]);
    }
    assert(p =~= q);
}

/// Once there are three short gaps, the grace is the one in the middle of the newest
/// ten, put in order, but no less than twenty seconds and no more than four minutes.
pub proof fn grace_is_the_middle_gap(calls: Seq<Call>, sorted: Seq<i128>)
    requires
        ({
            let gaps = aggregate::short_gaps(aggregate::finish_times(calls));
            let n = if gaps.len() > 10 {
                10
            } else {
                gaps.len() as int
            };
            &&& gaps.len() >= 3
            &&& gaps.subrange(gaps.len() - n, gaps.len() as int).to_multiset() == sorted.to_multiset()
        }),
        forall|i: int, j: int| 0 <= i <= j < sorted.len() ==> #[trigger] sorted[i] <= #[trigger] sorted[j],
    ensures
        ({
            let mid = sorted[sorted.len() as int / 2];
            &&& mid < 20_000 ==> aggregate::grace(calls) == 20_000
            &&& 20_000 <= mid <= 240_000 ==> aggregate::grace(calls) == mid
            &&& mid > 240_000 ==> aggregate::grace(calls) == 240_000
        }),
{
    let gaps = aggregate::short_gaps(aggregate::finish_times(calls));
    let tail = aggregate::newest(gaps);
    let n = if gaps.len() > 10 {
        10
    } else {
        gaps.len() as int
    };
    assert(tail =~= gaps.subrange(gaps.len() - n, gaps.len() as int));
    tail.to_multiset_ensures();
    sorted.to_multiset_ensures();
    assert(tail.len() == sorted.len());
    order::smallest_are_found_by_sorting(tail, sorted, sorted.len() as int / 2);
}

proof fn lemma_steady_gaps(times: Seq<i64>, n: int, g: int)
    requires
        0 <= n < times.len(),
        0 < g < 600_000,
        forall|k: int| times.len() - n <= k < times.len() ==> #[trigger] times[k] - times[k - 1] == g,
    ensures
        aggregate::short_gaps(times).len() >= n,
        forall|k: int|
            1 <= k <= n ==> #[trigger] aggregate::short_gaps(times)[aggregate::short_gaps(times).len() - k] == g,
    decreases n,
{
    if n > 0 {
        let front = times.drop_last();
        let m = times.len() - 1;
        assert(times[m] - times[m - 1] == g);
        assert forall|k: int| front.len() - (n - 1) <= k < front.len() implies #[trigger] front[k] - front[k - 1]
            == g by {
            assert(times[k] - times[k - 1] == g);
        }
        lemma_steady_gaps(front, n - 1, g);
        let (before, gaps) = (aggregate::short_gaps(front), aggregate::short_gaps(times));
        assert(gaps == before.push(g as i128));
        assert forall|k: int| 1 <= k <= n implies #[trigger] gaps[gaps.len() - k] == g by {
            if k > 1 {
                assert(before[before.len() - (k - 1)] == g);
            }
        }
    }
}

/// Where the last eleven calls came at a steady pace, between twenty seconds and four
/// minutes apart, the grace is that pace, whatever came before.
pub proof fn steady_pace_is_the_grace(calls: Seq<Call>, g: int)
    requires
        20_000 <= g <= 240_000,
        aggregate::finish_times(calls).len() > 10,
        forall|k: int|
            aggregate::finish_times(calls).len() - 10 <= k < aggregate::finish_times(calls).len()
                ==> #[trigger] aggregate::finish_times(calls)[k] - aggregate::finish_times(calls)[k - 1] == g,
    ensures
        aggregate::grace(calls) == g,
{
    let times = aggregate::finish_times(calls);
    lemma_steady_gaps(times, 10, g);
    let gaps = aggregate::short_gaps(times);
    let sorted = gaps.subrange(gaps.len() - 10, gaps.len() as int);
    assert forall|i: int| 0 <= i < 10 implies #[trigger] sorted[i] == g by {
        assert(gaps[gaps.len() - (10 - i)] == g);
    }
    if gaps.len() == 10 {
        assert(gaps.subrange(0, 10) =~= sorted);
    }
    grace_is_the_middle_gap(calls, sorted);
}

/// Whatever calls of today came before, the grace follows the newest: where the ten
/// newest short gaps are all `g`, it is `g`.
pub proof fn newest_gaps_alike_are_the_grace(calls: Seq<Call>, g: int)
    requires
        20_000 <= g <= 240_000,
        ({
            let gaps = aggregate::short_gaps(aggregate::finish_times(calls));
            &&& gaps.len() >= 10
            &&& forall|k: int| 1 <= k <= 10 ==> #[trigger] gaps[gaps.len() - k] == g
        }),
    ensures
        aggregate::grace(calls) == g,
{
    let gaps = aggregate::short_gaps(aggregate::finish_times(calls));
    let sorted = gaps.subrange(gaps.len() - 10, gaps.len() as int);
    assert forall|i: int| 0 <= i < 10 implies #[trigger] sorted[i] == g by {
        assert(gaps[gaps.len() - (10 - i)] == g);
    }
    grace_is_the_middle_gap(calls, sorted);
}

/// A row's call has the row's tokens, column by column; missing and negative counts
/// are none.
pub proof fn call_has_the_tokens_of_its_row(row: UsageRow)
    ensures
        ({
            let c = engine::call_of(row);
            &&& row.output_tokens matches Some(n) ==> n >= 0 ==> c.output == n
            &&& row.reasoning_tokens matches Some(n) ==> n >= 0 ==> c.reasoning == n
            &&& row.input_tokens matches Some(n) ==> n >= 0 ==> c.input == n
            &&& row.cache_creation_tokens matches Some(n) ==> n >= 0 ==> c.cache_creation == n
            &&& row.cache_read_tokens matches Some(n) ==> n >= 0 ==> c.cache_read == n
            &&& row.output_tokens is None || row.output_tokens->0 < 0 ==> c.output == 0
            &&& row.reasoning_tokens is None || row.reasoning_tokens->0 < 0 ==> c.reasoning == 0
            &&& row.input_tokens is None || row.input_tokens->0 < 0 ==> c.input == 0
            &&& row.cache_creation_tokens is None || row.cache_creation_tokens->0 < 0 ==> c.cache_creation == 0
            &&& row.cache_read_tokens is None || row.cache_read_tokens->0 < 0 ==> c.cache_read == 0
        }),
{
}

/// A row's call has the row's key, session and times.
pub proof fn call_has_the_times_of_its_row(row: UsageRow)
    ensures
        engine::call_of(row).id@ == row.id@,
        engine::call_of(row).session@ == row.session_id@,
        engine::call_of(row).started_ms == row.started_at,
        engine::call_of(row).first_token_ms == row.first_token_at,
        engine::call_of(row).completed_ms == row.completed_at,
{
}

/// A call generated from its first token to its end. Where that cannot be told, its
/// recorded duration stands for it, and where there is none, a twentieth of a second.
pub proof fn generation_is_from_first_token_to_end(row: UsageRow)
    requires
        row.first_token_at matches Some(first) ==> row.completed_at - first <= i64::MAX,
    ensures
        row.first_token_at matches Some(first) ==> row.completed_at > first ==> engine::call_of(row).gen_ms
            + first == row.completed_at,
        (row.first_token_at is None || row.completed_at <= row.first_token_at->0) ==> {
            &&& row.duration_ms matches Some(d) ==> d > 0 ==> engine::call_of(row).gen_ms == d
            &&& row.duration_ms is None || row.duration_ms->0 <= 0 ==> engine::call_of(row).gen_ms == 50
        },
{
}

/// The known keys are the old ones and those on the rows.
pub proof fn known_keys_are_old_or_on_a_row(ids: Set<Seq<char>>, rows: Seq<UsageRow>, key: Seq<char>)
    ensures
        engine::known(ids, rows).contains(key) <==> ids.contains(key) || exists|i: int|
            0 <= i < rows.len() && (#[trigger] rows[i]).id@ == key,
    decreases rows.len(),
{
    if rows.len() > 0 {
        let front = rows.drop_last();
        known_keys_are_old_or_on_a_row(ids, front, key);
        if exists|i: int| 0 <= i < front.len() && (#[trigger] front[i]).id@ == key {
            let i = choose|i: int| 0 <= i < front.len() && (#[trigger] front[i]).id@ == key;
            assert(rows[i].id@ == key);
        }
        if exists|i: int| 0 <= i < rows.len() && (#[trigger] rows[i]).id@ == key {
            let i = choose|i: int| 0 <= i < rows.len() && (#[trigger] rows[i]).id@ == key;
            if i < front.len() {
                assert(front[i].id@ == key);
            }
        }
        if rows.last().id@ == key {
            assert(rows[rows.len() - 1].id@ == key);
        }
    }
}

/// Each row is taken in on its own, after the rows before it: one whose key is known
/// adds nothing, another one its call, at the end.
pub proof fn rows_are_taken_in_one_by_one(ids: Set<Seq<char>>, rows: Seq<UsageRow>, row: UsageRow)
    ensures
        engine::fresh_calls(ids, Seq::empty()).len() == 0,
        ids.contains(row.id@) || (exists|i: int| 0 <= i < rows.len() && (#[trigger] rows[i]).id@ == row.id@)
            ==> engine::fresh_calls(ids, rows.push(row)) == engine::fresh_calls(ids, rows),
        !ids.contains(row.id@) && (forall|i: int| 0 <= i < rows.len() ==> (#[trigger] rows[i]).id@ != row.id@)
            ==> engine::fresh_calls(ids, rows.push(row)) == engine::fresh_calls(ids, rows).push(
            engine::call_of(row),
        ),
{
    assert(rows.push(row).drop_last() =~= rows);
    known_keys_are_old_or_on_a_row(ids, rows, row.id@);
}

/// Every row whose key is new is taken in, wherever it stands.
pub proof fn new_rows_are_all_taken_in(ids: Set<Seq<char>>, rows: Seq<UsageRow>, i: int)
    requires
        0 <= i < rows.len(),
        !ids.contains(rows[i].id@),
        forall|j: int| 0 <= j < i ==> (#[trigger] rows[j]).id@ != rows[i].id@,
    ensures
        engine::fresh_calls(ids, rows).contains(engine::call_of(rows[i])),
    decreases rows.len(),
{
    let front = rows.drop_last();
    known_keys_are_old_or_on_a_row(ids, front, rows.last().id@);
    let (before, now) = (engine::fresh_calls(ids, front), engine::fresh_calls(ids, rows));
    if i < front.len() {
        assert(front[i] == rows[i]);
        assert forall|j: int| 0 <= j < i implies (#[trigger] front[j]).id@ != front[i].id@ by {
            assert(front[j] == rows[j]);
        }
        new_rows_are_all_taken_in(ids, front, i);
        let k = choose|k: int| 0 <= k < before.len() && before[k] == engine::call_of(rows[i]);
        assert(now[k] == engine::call_of(rows[i]));
    } else {
        assert forall|j: int| 0 <= j < front.len() implies (#[trigger] front[j]).id@ != rows.last().id@ by {
            assert(front[j] == rows[j]);
        }
        assert(now.last() == engine::call_of(rows[i]));
        assert(now[now.len() - 1] == engine::call_of(rows[i]));
    }
}

/// Calls that finished since a time are kept one by one, in their order.
pub proof fn calls_are_kept_one_by_one(calls: Seq<Call>, c: Call, start_ms: i64)
    ensures
        c.completed_ms >= start_ms ==> engine::finished_since(calls.push(c), start_ms) == engine::finished_since(
            calls,
            start_ms,
        ).push(c),
        c.completed_ms < start_ms ==> engine::finished_since(calls.push(c), start_ms) == engine::finished_since(
            calls,
            start_ms,
        ),
        engine::finished_since(Seq::empty(), start_ms).len() == 0,
{
    reveal(Seq::filter);
    assert(calls.push(c).drop_last() =~= calls);
}

/// Each source of the speed is known by its own name.
pub proof fn sources_are_known_by_their_names(s: LiveSource)
    ensures
        s.name() == "io"@ <==> s == LiveSource::Io,
        s.name() == "window"@ <==> s == LiveSource::Window,
        s.name() == "idle"@ <==> s == LiveSource::Idle,
{
    reveal_strlit("io");
    reveal_strlit("window");
    reveal_strlit("idle");
    assert("io"@.len() != "window"@.len());
    assert("io"@.len() != "idle"@.len());
    assert("window"@.len() != "idle"@.len());
}

} // verus!
