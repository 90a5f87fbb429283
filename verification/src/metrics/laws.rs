//! What holds of the day's figures as a whole.

use vstd::prelude::*;

use super::aggregate;
use super::call::Call;
use super::engine;
use super::engine::UsageRow;
use super::inflight;

verus! {

/// The tokens used are the input, the output, the reasoning and the cache
/// creation, and nothing else.
pub proof fn used_tokens_are_the_sum_of_parts(calls: Seq<Call>)
    ensures
        aggregate::total(calls, aggregate::used_tokens()) == aggregate::total(calls, aggregate::inputs())
            + aggregate::total(calls, aggregate::outputs()) + aggregate::total(calls, aggregate::reasonings())
            + aggregate::total(calls, aggregate::cache_creations()),
{
    aggregate::lemma_used_parts(calls);
}

/// What was read from a cache is not used up: whatever it is, the total of the
/// day stays the same.
pub proof fn cache_reads_do_not_count(a: Seq<Call>, b: Seq<Call>)
    requires
        a.len() == b.len(),
        forall|i: int|
            0 <= i < a.len() ==> #[trigger] b[i] == (Call { cache_read: b[i].cache_read, ..a[i] }),
    ensures
        aggregate::total(a, aggregate::used_tokens()) == aggregate::total(b, aggregate::used_tokens()),
    decreases a.len(),
{
    if a.len() > 0 {
        let (c, d) = (a.drop_last(), b.drop_last());
        assert forall|i: int| 0 <= i < c.len() implies #[trigger] d[i] == (Call {
            cache_read: d[i].cache_read,
            ..c[i]
        }) by {
            assert(b[i] == (Call { cache_read: b[i].cache_read, ..a[i] }));
        }
        cache_reads_do_not_count(c, d);
        let n = a.len() - 1;
        assert(b[n] == (Call { cache_read: b[n].cache_read, ..a[n] }));
    }
}

/// How long a call waited before its first token does not count: it generated
/// from its first token to its end, whenever it was asked for.
pub proof fn waiting_does_not_count(a: UsageRow, b: UsageRow)
    requires
        a.first_token_at == b.first_token_at,
        a.completed_at == b.completed_at,
        a.first_token_at is Some && a.completed_at > a.first_token_at->0,
    ensures
        engine::generation_ms(a) == a.completed_at - a.first_token_at->0,
        engine::generation_ms(a) == engine::generation_ms(b),
{
}

/// Every call generated for some time, so that no speed is divided by nothing.
pub proof fn generation_takes_time(calls: Seq<Call>)
    ensures
        aggregate::total(calls, aggregate::durations()) >= calls.len() * aggregate::MIN_DUR_MS,
    decreases calls.len(),
{
    if calls.len() > 0 {
        generation_takes_time(calls.drop_last());
        assert(calls.len() * aggregate::MIN_DUR_MS == (calls.len() - 1) * aggregate::MIN_DUR_MS
            + aggregate::MIN_DUR_MS) by (nonlinear_arith);
    }
}

/// What of a call the figures are made of: when it finished, how long it generated,
/// its tokens and its session.
pub open spec fn figures_of(c: Call) -> (i64, i64, (u64, u64, u64, u64, u64), Seq<char>) {
    (
        c.completed_ms,
        c.gen_ms,
        (c.output, c.reasoning, c.input, c.cache_creation, c.cache_read),
        c.session@,
    )
}

/// The same calls in any order, as far as the figures go.
pub open spec fn same_calls(a: Seq<Call>, b: Seq<Call>) -> bool {
    a.map_values(|c: Call| figures_of(c)).to_multiset() == b.map_values(
        |c: Call| figures_of(c),
    ).to_multiset()
}

/// For each call of the one list there is one of the other.
proof fn lemma_counterpart(a: Seq<Call>, b: Seq<Call>, i: int) -> (j: int)
    requires
        same_calls(a, b),
        0 <= i < a.len(),
    ensures
        0 <= j < b.len(),
        figures_of(b[j]) == figures_of(a[i]),
{
    let (x, y) = (a.map_values(|c: Call| figures_of(c)), b.map_values(|c: Call| figures_of(c)));
    x.to_multiset_ensures();
    y.to_multiset_ensures();
    assert(x[i] == figures_of(a[i]));
    assert(x.contains(x[i]));
    assert(x.to_multiset().count(x[i]) > 0);
    assert(y.to_multiset().count(x[i]) > 0);
    assert(y.contains(x[i]));
    let j = choose|j: int| 0 <= j < y.len() && y[j] == x[i];
    assert(y[j] == figures_of(b[j]));
    j
}

proof fn lemma_total_remove(calls: Seq<Call>, f: spec_fn(Call) -> int, i: int)
    requires
        0 <= i < calls.len(),
    ensures
        aggregate::total(calls, f) == aggregate::total(calls.remove(i), f) + f(calls[i]),
    decreases calls.len(),
{
    let front = calls.drop_last();
    if i == calls.len() - 1 {
        assert(calls.remove(i) =~= front);
    } else {
        lemma_total_remove(front, f, i);
        assert(calls.remove(i).drop_last() =~= front.remove(i));
        assert(calls.remove(i).last() == calls.last());
    }
}

/// A sum over what the figures are made of does not depend on the order.
proof fn lemma_total_same(a: Seq<Call>, b: Seq<Call>, f: spec_fn(Call) -> int)
    requires
        same_calls(a, b),
        forall|c: Call, d: Call| figures_of(c) == figures_of(d) ==> #[trigger] f(c) == #[trigger] f(d),
    ensures
        aggregate::total(a, f) == aggregate::total(b, f),
    decreases a.len(),
{
    let fig = |c: Call| figures_of(c);
    let (x, y) = (a.map_values(fig), b.map_values(fig));
    x.to_multiset_ensures();
    y.to_multiset_ensures();
    assert(a.len() == b.len());
    if a.len() > 0 {
        let i = a.len() - 1;
        let j = lemma_counterpart(a, b, i);
        let (front, rest) = (a.remove(i), b.remove(j));
        assert(front.map_values(fig) =~= x.remove(i));
        assert(rest.map_values(fig) =~= y.remove(j));
        assert(x[i] == y[j]);
        assert(same_calls(front, rest));
        lemma_total_same(front, rest, f);
        lemma_total_remove(a, f, i);
        lemma_total_remove(b, f, j);
        assert(f(a[i]) == f(b[j]));
    }
}

/// Increasing times with the same contents are the same.
proof fn lemma_increasing_same(s: Seq<i64>, t: Seq<i64>)
    requires
        forall|i: int, j: int| 0 <= i < j < s.len() ==> #[trigger] s[i] < #[trigger] s[j],
        forall|i: int, j: int| 0 <= i < j < t.len() ==> #[trigger] t[i] < #[trigger] t[j],
        forall|x: i64| #[trigger] s.contains(x) <==> t.contains(x),
    ensures
        s == t,
    decreases s.len(),
{
    if s.len() == 0 {
        if t.len() > 0 {
            assert(t.contains(t[0]));
            assert(s.contains(t[0]));
        }
        assert(s =~= t);
    } else {
        let (n, m) = (s.len() - 1, t.len() - 1);
        assert(s.contains(s[n]));
        let k = choose|k: int| 0 <= k < t.len() && t[k] == s[n];
        assert(t.contains(t[m]));
        assert(s.contains(t[m]));
        let l = choose|l: int| 0 <= l < s.len() && s[l] == t[m];
        assert(s[n] == t[m]) by {
            if k < m {
                assert(t[k] < t[m]);
            }
            if l < n {
                assert(s[l] < s[n]);
            }
        }
        let (u, v) = (s.drop_last(), t.drop_last());
        assert forall|x: i64| #[trigger] u.contains(x) <==> v.contains(x) by {
            if u.contains(x) {
                let i = choose|i: int| 0 <= i < u.len() && u[i] == x;
                assert(s[i] == x && s[i] < s[n]);
                assert(s.contains(x));
                let j = choose|j: int| 0 <= j < t.len() && t[j] == x;
                assert(v[j] == x);
            }
            if v.contains(x) {
                let j = choose|j: int| 0 <= j < v.len() && v[j] == x;
                assert(t[j] == x && t[j] < t[m]);
                assert(t.contains(x));
                assert(s.contains(x));
                let i = choose|i: int| 0 <= i < s.len() && s[i] == x;
                assert(u[i] == x);
            }
        }
        lemma_increasing_same(u, v);
        assert(s =~= u.push(s[n]));
        assert(t =~= v.push(t[m]));
    }
}

proof fn lemma_finish_times_same(a: Seq<Call>, b: Seq<Call>)
    requires
        same_calls(a, b),
    ensures
        aggregate::finish_times(a) == aggregate::finish_times(b),
{
    aggregate::finish_times_increase(a);
    aggregate::finish_times_increase(b);
    let (s, t) = (aggregate::finish_times(a), aggregate::finish_times(b));
    assert forall|x: i64| #[trigger] s.contains(x) <==> t.contains(x) by {
        if s.contains(x) {
            let i = choose|i: int| 0 <= i < a.len() && (#[trigger] a[i]).completed_ms == x;
            let j = lemma_counterpart(a, b, i);
            assert(b[j].completed_ms == x);
        }
        if t.contains(x) {
            let i = choose|i: int| 0 <= i < b.len() && (#[trigger] b[i]).completed_ms == x;
            let j = lemma_counterpart(b, a, i);
            assert(a[j].completed_ms == x);
        }
    }
    lemma_increasing_same(s, t);
}

/// The last call finished no earlier than any, and is one of them.
pub proof fn last_call_finished_last(calls: Seq<Call>)
    ensures
        aggregate::last_completed(calls) >= 0,
        forall|i: int|
            0 <= i < calls.len() ==> (#[trigger] calls[i]).completed_ms <= aggregate::last_completed(calls),
        aggregate::last_completed(calls) > 0 ==> exists|i: int|
            0 <= i < calls.len() && (#[trigger] calls[i]).completed_ms == aggregate::last_completed(calls),
    decreases calls.len(),
{
    if calls.len() > 0 {
        let front = calls.drop_last();
        last_call_finished_last(front);
        let last = aggregate::last_completed(calls);
        assert forall|i: int| 0 <= i < calls.len() implies (#[trigger] calls[i]).completed_ms <= last by {
            if i < front.len() {
                assert(front[i] == calls[i]);
            }
        }
        if last > 0 {
            if calls.last().completed_ms > aggregate::last_completed(front) {
                assert(calls[calls.len() - 1].completed_ms == last);
            } else {
                let i = choose|i: int| 0 <= i < front.len() && (#[trigger] front[i]).completed_ms == last;
                assert(calls[i].completed_ms == last);
            }
        }
    }
}

proof fn lemma_last_no_later(a: Seq<Call>, b: Seq<Call>)
    requires
        same_calls(a, b),
    ensures
        aggregate::last_completed(a) <= aggregate::last_completed(b),
{
    last_call_finished_last(a);
    last_call_finished_last(b);
    let last = aggregate::last_completed(a);
    if last > 0 {
        let i = choose|i: int| 0 <= i < a.len() && (#[trigger] a[i]).completed_ms == last;
        let j = lemma_counterpart(a, b, i);
        assert(b[j].completed_ms == last);
    }
}

/// The sessions of a day are those of its calls that have a name.
pub proof fn sessions_are_those_of_the_calls(calls: Seq<Call>)
    ensures
        forall|x: Seq<char>| #[trigger]
            aggregate::sessions_of(calls).contains(x) <==> x.len() > 0 && exists|i: int|
                0 <= i < calls.len() && (#[trigger] calls[i]).session@ == x,
    decreases calls.len(),
{
    if calls.len() > 0 {
        let front = calls.drop_last();
        sessions_are_those_of_the_calls(front);
        let (before, now) = (aggregate::sessions_of(front), aggregate::sessions_of(calls));
        assert forall|x: Seq<char>| #[trigger] now.contains(x) implies x.len() > 0 && exists|i: int|
            0 <= i < calls.len() && (#[trigger] calls[i]).session@ == x by {
            if before.contains(x) {
                let i = choose|i: int| 0 <= i < front.len() && (#[trigger] front[i]).session@ == x;
                assert(calls[i].session@ == x);
            } else {
                assert(calls[calls.len() - 1].session@ == x);
            }
        }
        assert forall|x: Seq<char>|
            x.len() > 0 && (exists|i: int| 0 <= i < calls.len() && (#[trigger] calls[i]).session@ == x)
            implies #[trigger] now.contains(x) by {
            let i = choose|i: int| 0 <= i < calls.len() && (#[trigger] calls[i]).session@ == x;
            if i < front.len() {
                assert(front[i].session@ == x);
                assert(before.contains(x));
            }
        }
    }
}

proof fn lemma_sessions_same(a: Seq<Call>, b: Seq<Call>)
    requires
        same_calls(a, b),
    ensures
        aggregate::sessions_of(a) == aggregate::sessions_of(b),
{
    sessions_are_those_of_the_calls(a);
    sessions_are_those_of_the_calls(b);
    let (s, t) = (aggregate::sessions_of(a), aggregate::sessions_of(b));
    assert forall|x: Seq<char>| s.contains(x) <==> t.contains(x) by {
        if s.contains(x) {
            let i = choose|i: int| 0 <= i < a.len() && (#[trigger] a[i]).session@ == x;
            let j = lemma_counterpart(a, b, i);
            assert(b[j].session@ == x);
        }
        if t.contains(x) {
            let i = choose|i: int| 0 <= i < b.len() && (#[trigger] b[i]).session@ == x;
            let j = lemma_counterpart(b, a, i);
            assert(a[j].session@ == x);
        }
    }
    assert(s =~= t);
}

proof fn lemma_speeds_same(a: Seq<Call>, b: Seq<Call>, now: i64, k: int)
    requires
        same_calls(a, b),
    ensures
        aggregate::window_speed(a, now) == aggregate::window_speed(b, now),
        aggregate::estimating(a, now) == aggregate::estimating(b, now),
        aggregate::spark_speed(a, now, k) == aggregate::spark_speed(b, now, k),
{
    lemma_total_same(a, b, aggregate::recent_tokens(now));
    lemma_total_same(a, b, aggregate::recent_durations(now));
    lemma_total_same(a, b, aggregate::bucket_tokens(now, k));
    lemma_total_same(a, b, aggregate::bucket_durations(now, k));
    lemma_finish_times_same(a, b);
    lemma_last_no_later(a, b);
    lemma_last_no_later(b, a);
}

/// In which order the calls of a day came in does not matter, nor do their keys,
/// when they began and when their first token came: all that is shown is the same.
pub proof fn order_of_calls_does_not_matter(
    a: Seq<Call>,
    b: Seq<Call>,
    now: i64,
    s: aggregate::Snapshot,
    t: aggregate::Snapshot,
)
    requires
        same_calls(a, b),
        aggregate::shows(s, a, now),
        aggregate::shows(t, b, now),
    ensures
        aggregate::totals_fit(a) == aggregate::totals_fit(b),
        t == (aggregate::Snapshot { rollout_dir: t.rollout_dir, spark: t.spark, ..s }),
        s.spark@ == t.spark@,
{
    lemma_total_same(a, b, aggregate::outputs());
    lemma_total_same(a, b, aggregate::reasonings());
    lemma_total_same(a, b, aggregate::inputs());
    lemma_total_same(a, b, aggregate::cache_creations());
    lemma_total_same(a, b, aggregate::cache_reads());
    lemma_total_same(a, b, aggregate::used_tokens());
    lemma_total_same(a, b, aggregate::durations());
    lemma_sessions_same(a, b);
    lemma_speeds_same(a, b, now, 0);
    lemma_last_no_later(a, b);
    lemma_last_no_later(b, a);
    let (x, y) = (a.map_values(|c: Call| figures_of(c)), b.map_values(|c: Call| figures_of(c)));
    x.to_multiset_ensures();
    y.to_multiset_ensures();
    assert forall|k: int| 0 <= k < s.spark@.len() implies #[trigger] s.spark@[k] == t.spark@[k] by {
        lemma_speeds_same(a, b, now, k);
        assert(t.spark@[k] == aggregate::spark_speed(b, now, k));
    }
    assert(s.spark@ =~= t.spark@);
}

/// While nothing is known to run, an estimate stands for no longer than four
/// minutes after the last call.
pub proof fn estimate_ends(calls: Seq<Call>, now: i64)
    requires
        aggregate::estimating(calls, now),
    ensures
        now - aggregate::last_completed(calls) <= aggregate::ESTIMATE_MAX_MS,
{
}

/// A call of a session that nothing was known of runs as soon as its first
/// message is there, unless another one began later.
pub proof fn first_call_runs(rows: Seq<(String, i64, bool)>, now_ms: i64, i: int, r: Option<(Seq<char>, i64)>)
    requires
        0 <= i < rows.len(),
        forall|j: int| 0 <= j < rows.len() && j != i ==> (#[trigger] rows[j]).0@ != rows[i].0@,
        !rows[i].2,
        now_ms - rows[i].1 <= inflight::INFLIGHT_LIMIT_MS,
        inflight::is_latest_running(rows, now_ms, r),
    ensures
        r matches Some((_, created)) && created >= rows[i].1,
{
    assert(inflight::is_running(rows, i, now_ms));
}

/// A message that was never completed stops counting: no call is told to run
/// that began longer ago than that.
pub proof fn old_messages_do_not_run(rows: Seq<(String, i64, bool)>, now_ms: i64, r: Option<(Seq<char>, i64)>)
    requires
        inflight::is_latest_running(rows, now_ms, r),
    ensures
        r matches Some((_, created)) ==> now_ms - created <= inflight::INFLIGHT_LIMIT_MS,
{
}

} // verus!
