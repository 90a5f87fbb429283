//! Taking in the rows of the usage database, each once a day.

use vstd::hash_set::StringHashSet;
use vstd::prelude::*;

use crate::clock;

use super::aggregate;
use super::aggregate::{Aggregator, Snapshot, MIN_DUR_MS};
use super::call::Call;
use super::inflight;
use super::inflight::SessionMessages;

verus! {

/// A finished call as its database row has it.
pub struct UsageRow {
    pub id: String,
    pub started_at: i64,
    pub first_token_at: Option<i64>,
    pub completed_at: i64,
    pub duration_ms: Option<i64>,
    pub output_tokens: Option<i64>,
    pub reasoning_tokens: Option<i64>,
    pub input_tokens: Option<i64>,
    pub cache_creation_tokens: Option<i64>,
    pub cache_read_tokens: Option<i64>,
    pub session_id: String,
}

/// A token count of a row: missing and negative ones are 0.
pub open spec fn tokens_in(column: Option<i64>) -> u64 {
    match column {
        Some(n) => if n > 0 {
            n as u64
        } else {
            0
        },
        None => 0,
    }
}

/// How long a row's call generated: from its first token to its end, or for its
/// recorded duration where the first token is missing, or for the least time.
pub open spec fn generation_ms(row: UsageRow) -> int {
    if row.first_token_at is Some && row.completed_at > row.first_token_at->0 {
        row.completed_at - row.first_token_at->0
    } else if row.duration_ms is Some && row.duration_ms->0 > 0 {
        row.duration_ms->0 as int
    } else {
        MIN_DUR_MS as int
    }
}

/// The call that a row tells of.
pub open spec fn call_of(row: UsageRow) -> Call {
    Call {
        id: row.id,
        started_ms: row.started_at,
        first_token_ms: row.first_token_at,
        completed_ms: row.completed_at,
        gen_ms: generation_ms(row) as i64,
        output: tokens_in(row.output_tokens),
        reasoning: tokens_in(row.reasoning_tokens),
        input: tokens_in(row.input_tokens),
        cache_creation: tokens_in(row.cache_creation_tokens),
        cache_read: tokens_in(row.cache_read_tokens),
        session: row.session_id,
    }
}

/// The calls of the rows whose keys are neither in `ids` nor on an earlier row.
pub open spec fn fresh_calls(ids: Set<Seq<char>>, rows: Seq<UsageRow>) -> Seq<Call>
    decreases rows.len(),
{
    if rows.len() == 0 {
        Seq::empty()
    } else {
        let before = rows.drop_last();
        if known(ids, before).contains(rows.last().id@) {
            fresh_calls(ids, before)
        } else {
            fresh_calls(ids, before).push(call_of(rows.last()))
        }
    }
}

/// The keys in `ids` and those on the rows.
pub open spec fn known(ids: Set<Seq<char>>, rows: Seq<UsageRow>) -> Set<Seq<char>>
    decreases rows.len(),
{
    if rows.len() == 0 {
        ids
    } else {
        known(ids, rows.drop_last()).insert(rows.last().id@)
    }
}

/// The calls that finished since `start_ms`.
pub open spec fn finished_since(calls: Seq<Call>, start_ms: i64) -> Seq<Call> {
    calls.filter(|c: Call| c.completed_ms >= start_ms)
}

/// The keys that are remembered beside `calls`: where no call is held, none.
pub open spec fn kept_keys(ids: Set<Seq<char>>, calls: Seq<Call>) -> Set<Seq<char>> {
    if calls.len() == 0 {
        Set::empty()
    } else {
        ids
    }
}

/// The generation times of the rows that are new fit, and so do the sums over the
/// held calls and the new ones. Rows that are known are not taken in again and may
/// hold anything.
pub open spec fn rows_fit(calls: Seq<Call>, ids: Set<Seq<char>>, rows: Seq<UsageRow>) -> bool {
    &&& forall|i: int|
        0 <= i < rows.len() ==> known(ids, rows.take(i)).contains((#[trigger] rows[i]).id@) || generation_ms(
            rows[i],
        ) <= i64::MAX
    &&& aggregate::totals_fit(calls + fresh_calls(ids, rows))
}

fn token_count(column: Option<i64>) -> (n: u64)
    ensures
        n == tokens_in(column),
{
    match column {
        Some(v) => if v > 0 {
            v as u64
        } else {
            0
        },
        None => 0,
    }
}

fn generation(row: &UsageRow) -> (ms: i128)
    ensures
        ms == generation_ms(*row),
{
    if let Some(first) = row.first_token_at {
        if row.completed_at > first {
            return row.completed_at as i128 - first as i128;
        }
    }
    match row.duration_ms {
        Some(d) => if d > 0 {
            d as i128
        } else {
            MIN_DUR_MS as i128
        },
        None => MIN_DUR_MS as i128,
    }
}

impl Call {
    /// The call that a row tells of.
    pub fn from_row(row: &UsageRow) -> (c: Call)
        requires
            generation_ms(*row) <= i64::MAX,
        ensures
            c == call_of(*row),
    {
        Call {
            id: row.id.clone(),
            started_ms: row.started_at,
            first_token_ms: row.first_token_at,
            completed_ms: row.completed_at,
            gen_ms: generation(row) as i64,
            output: token_count(row.output_tokens),
            reasoning: token_count(row.reasoning_tokens),
            input: token_count(row.input_tokens),
            cache_creation: token_count(row.cache_creation_tokens),
            cache_read: token_count(row.cache_read_tokens),
            session: row.session_id.clone(),
        }
    }
}

/// The calls that finished since `start_ms`, in their order.
fn keep_since(calls: &Vec<Call>, start_ms: i64) -> (kept: Vec<Call>)
    ensures
        kept@ == finished_since(calls@, start_ms),
{
    let mut kept: Vec<Call> = Vec::new();
    let mut k: usize = 0;
    assert(calls@.take(0) =~= Seq::<Call>::empty());
    reveal(Seq::filter);
    while k < calls.len()
        invariant
            k <= calls@.len(),
            kept@ == finished_since(calls@.take(k as int), start_ms),
        decreases calls.len() - k,
    {
        reveal(Seq::filter);
        assert(calls@.take(k + 1).drop_last() =~= calls@.take(k as int));
        assert(calls@.take(k + 1).last() == calls@[k as int]);
        if calls[k].completed_ms >= start_ms {
            kept.push(calls[k].clone());
        }
        k = k + 1;
    }
    assert(calls@.take(calls@.len() as int) =~= calls@);
    kept
}

/// What the panel knows of today's calls.
pub struct Engine {
    pub agg: Aggregator,
    /// Keys of the rows that were taken in today.
    pub ingested: StringHashSet,
    /// Where the usage database is, where that is known.
    pub db_path: Option<String>,
}

impl Engine {
    pub fn new(db_path: Option<String>) -> (e: Self)
        ensures
            e.agg.calls@ == Seq::<Call>::empty(),
            1 <= e.agg.today_ymd.1 <= 12,
            1 <= e.agg.today_ymd.2 <= 31,
            e.ingested@ == Set::<Seq<char>>::empty(),
            e.db_path == db_path,
    {
        Engine { agg: Aggregator::new(), ingested: StringHashSet::new(), db_path }
    }

    /// What is shown as the source of the figures.
    pub open spec fn label(self) -> Seq<char> {
        match self.db_path {
            Some(p) => p@,
            None => "(未找到 ~/.zcode/cli/db/db.sqlite)"@,
        }
    }

    pub fn data_source_label(&self) -> (s: String)
        ensures
            s@ == self.label(),
    {
        match &self.db_path {
            Some(p) => p.clone(),
            None => "(未找到 ~/.zcode/cli/db/db.sqlite)".to_owned(),
        }
    }

    /// Moves to the date `ymd`. Once no call is held, the keys of an earlier day
    /// are forgotten with them.
    pub fn prepare(&mut self, ymd: (i32, u32, u32))
        ensures
            final(self).agg.today_ymd == ymd,
            final(self).agg.calls@ == (if ymd == old(self).agg.today_ymd {
                old(self).agg.calls@
            } else {
                Seq::<Call>::empty()
            }),
            final(self).ingested@ == kept_keys(old(self).ingested@, final(self).agg.calls@),
            final(self).db_path == old(self).db_path,
    {
        self.agg.roll_to(ymd);
        if self.agg.calls.len() == 0 {
            self.ingested.clear();
        }
    }

    /// Moves to the date of the machine and tells from when on rows are wanted.
    pub fn begin_poll(&mut self) -> (today_start_ms: i64)
        ensures
            exists|now: i64, midnight: Option<i64>| #[trigger]
                clock::tellable(now, midnight) && today_start_ms == clock::beginning(now, midnight),
            1 <= final(self).agg.today_ymd.1 <= 12,
            1 <= final(self).agg.today_ymd.2 <= 31,
            final(self).agg.calls@ == (if final(self).agg.today_ymd == old(self).agg.today_ymd {
                old(self).agg.calls@
            } else {
                Seq::<Call>::empty()
            }),
            final(self).ingested@ == kept_keys(old(self).ingested@, final(self).agg.calls@),
            final(self).db_path == old(self).db_path,
    {
        let ymd: (i32, u32, u32) = clock::local_ymd();
        self.prepare(ymd);
        clock::local_midnight_utc_ms()
    }

    /// Whether [`Engine::poll`] can take in the rows.
    pub fn fits(&self, rows: &[UsageRow]) -> (r: bool)
        ensures
            r == rows_fit(self.agg.calls@, self.ingested@, rows@),
    {
        let mut all: Vec<Call> = Vec::new();
        let mut i: usize = 0;
        while i < self.agg.calls.len()
            invariant
                i <= self.agg.calls@.len(),
                all@ == self.agg.calls@.take(i as int),
            decreases self.agg.calls.len() - i,
        {
            all.push(self.agg.calls[i].clone());
            i = i + 1;
            assert(all@ =~= self.agg.calls@.take(i as int));
        }
        let ghost held = self.agg.calls@;
        let ghost ids = self.ingested@;
        let mut seen: StringHashSet = StringHashSet::new();
        let mut k: usize = 0;
        assert(all@ =~= held + Seq::<Call>::empty());
        assert(ids =~= ids.union(seen@));
        while k < rows.len()
            invariant
                k <= rows@.len(),
                held == self.agg.calls@,
                ids == self.ingested@,
                all@ == held + fresh_calls(ids, rows@.take(k as int)),
                known(ids, rows@.take(k as int)) == ids.union(seen@),
                forall|j: int|
                    0 <= j < k ==> known(ids, rows@.take(j)).contains((#[trigger] rows@[j]).id@) || generation_ms(
                        rows@[j],
                    ) <= i64::MAX,
            decreases rows.len() - k,
        {
            let row: &UsageRow = &rows[k];
            assert(rows@.take(k + 1).drop_last() =~= rows@.take(k as int));
            if !self.ingested.contains(row.id.as_str()) && !seen.contains(row.id.as_str()) {
                if generation(row) > i64::MAX as i128 {
                    assert(!known(ids, rows@.take(k as int)).contains(rows@[k as int].id@));
                    return false;
                }
                all.push(Call::from_row(row));
            }
            let ghost before = seen@;
            let _ = seen.insert(row.id.clone());
            k = k + 1;
            assert(ids.union(before).insert(row.id@) =~= ids.union(seen@));
            assert(all@ =~= held + fresh_calls(ids, rows@.take(k as int)));
        }
        assert(rows@.take(rows@.len() as int) =~= rows@);
        aggregate::sums_fit(&all)
    }

    /// Takes in the rows of calls that finished since the day began, each key
    /// once, and gives the calls that are new. Calls that finished before the
    /// day began are let go.
    pub fn poll(&mut self, today_start_ms: i64, rows: &[UsageRow]) -> (new_calls: Vec<Call>)
        requires
            rows_fit(old(self).agg.calls@, old(self).ingested@, rows@),
        ensures
            new_calls@ == fresh_calls(old(self).ingested@, rows@),
            final(self).ingested@ == known(old(self).ingested@, rows@),
            final(self).agg.calls@ == finished_since(old(self).agg.calls@ + new_calls@, today_start_ms),
            aggregate::totals_fit(final(self).agg.calls@),
            forall|i: int| 0 <= i < new_calls@.len() ==> (#[trigger] new_calls@[i]).effective() <= u64::MAX,
            final(self).agg.today_ymd == old(self).agg.today_ymd,
            final(self).db_path == old(self).db_path,
    {
        let mut new_calls: Vec<Call> = Vec::new();
        let ghost ids = self.ingested@;
        let mut i: usize = 0;
        assert(self.agg.calls@ =~= old(self).agg.calls@ + Seq::<Call>::empty());
        while i < rows.len()
            invariant
                i <= rows@.len(),
                rows_fit(old(self).agg.calls@, ids, rows@),
                ids == old(self).ingested@,
                new_calls@ == fresh_calls(ids, rows@.take(i as int)),
                self.ingested@ == known(ids, rows@.take(i as int)),
                self.agg.calls@ == old(self).agg.calls@ + new_calls@,
                self.agg.today_ymd == old(self).agg.today_ymd,
                self.db_path == old(self).db_path,
            decreases rows.len() - i,
        {
            let row: &UsageRow = &rows[i];
            proof {
                assert(rows@.take(i + 1).drop_last() =~= rows@.take(i as int));
                assert(known(ids, rows@.take(i as int)).contains(rows@[i as int].id@) || generation_ms(
                    rows@[i as int],
                ) <= i64::MAX);
            }
            if self.ingested.contains(row.id.as_str()) {
                assert(self.ingested@.insert(row.id@) =~= self.ingested@);
            } else {
                let _ = self.ingested.insert(row.id.clone());
                let call: Call = Call::from_row(row);
                let copy: Call = call.clone();
                self.agg.ingest(call);
                new_calls.push(copy);
                assert(self.agg.calls@ =~= old(self).agg.calls@ + new_calls@);
            }
            i = i + 1;
        }
        assert(rows@.take(rows@.len() as int) =~= rows@);
        proof {
            lemma_polled_fits(old(self).agg.calls@, new_calls@, today_start_ms);
        }
        let kept: Vec<Call> = keep_since(&self.agg.calls, today_start_ms);
        self.agg.calls = kept;
        new_calls
    }

    pub fn calls(&self) -> (c: &[Call])
        ensures
            c@ == self.agg.calls@,
    {
        self.agg.calls()
    }

    /// The figures at this moment, with their source.
    pub fn snapshot(&self) -> (s: Snapshot)
        requires
            aggregate::totals_fit(self.agg.calls@),
        ensures
            0 <= s.now_ms <= clock::CLOCK_LIMIT,
            aggregate::shows(s, self.agg.calls@, s.now_ms),
            s.rollout_dir@ == self.label(),
    {
        let mut s: Snapshot = self.agg.snapshot();
        s.rollout_dir = self.data_source_label();
        s
    }

    /// Whether a call is running at this moment, by the newest messages of the
    /// sessions that were active lately.
    pub fn call_in_flight(&self, sessions: &[SessionMessages]) -> (r: Option<(String, i64)>)
        ensures
            exists|now: i64|
                0 <= now <= clock::CLOCK_LIMIT && #[trigger] inflight::is_latest_running(
                    inflight::candidates_of(sessions@),
                    now,
                    inflight::inflight_view(r),
                ),
    {
        let rows: Vec<(String, i64, bool)> = inflight::candidates(sessions);
        let now: i64 = clock::now_ms();
        inflight::inflight_from_rows(&rows, now)
    }
}

/// What a poll holds and hands out fits where the held and the new calls do.
proof fn lemma_polled_fits(calls: Seq<Call>, fresh: Seq<Call>, start_ms: i64)
    requires
        aggregate::totals_fit(calls + fresh),
    ensures
        aggregate::totals_fit(finished_since(calls + fresh, start_ms)),
        forall|i: int| 0 <= i < fresh.len() ==> (#[trigger] fresh[i]).effective() <= u64::MAX,
{
    let late = |c: Call| c.completed_ms >= start_ms;
    aggregate::lemma_total_filter(calls + fresh, aggregate::used_tokens(), late);
    aggregate::lemma_total_filter(calls + fresh, aggregate::cache_reads(), late);
    aggregate::lemma_total_filter(calls + fresh, aggregate::durations(), late);
    assert(finished_since(calls + fresh, start_ms) == (calls + fresh).filter(late));
    assert forall|i: int| 0 <= i < fresh.len() implies (#[trigger] fresh[i]).effective() <= u64::MAX by {
        assert((calls + fresh)[calls.len() + i] == fresh[i]);
        aggregate::lemma_each_fits(calls + fresh, calls.len() + i);
    }
}

proof fn lemma_known(ids: Set<Seq<char>>, rows: Seq<UsageRow>)
    ensures
        forall|i: int| 0 <= i < rows.len() ==> known(ids, rows).contains((#[trigger] rows[i]).id@),
    decreases rows.len(),
{
    if rows.len() > 0 {
        let before = rows.drop_last();
        lemma_known(ids, before);
        assert forall|i: int| 0 <= i < rows.len() implies known(ids, rows).contains((#[trigger] rows[i]).id@) by {
            if i < before.len() {
                assert(rows[i] == before[i]);
            }
        }
    }
}

/// Rows that were taken in are not new again: polling the same rows once more
/// gives no call and changes no key.
pub proof fn rows_are_taken_in_once(ids: Set<Seq<char>>, rows: Seq<UsageRow>, again: Seq<UsageRow>)
    requires
        forall|i: int| 0 <= i < again.len() ==> rows.contains(#[trigger] again[i]),
    ensures
        fresh_calls(known(ids, rows), again) == Seq::<Call>::empty(),
        known(known(ids, rows), again) == known(ids, rows),
    decreases again.len(),
{
    if again.len() > 0 {
        let before = again.drop_last();
        assert forall|i: int| 0 <= i < before.len() implies rows.contains(#[trigger] before[i]) by {
            assert(before[i] == again[i]);
        }
        rows_are_taken_in_once(ids, rows, before);
        lemma_known(ids, rows);
        assert(rows.contains(again[again.len() - 1]));
        assert(known(ids, rows).insert(again.last().id@) =~= known(ids, rows));
    }
}

/// Every call that is held after a poll finished since the day began, and no
/// such call is lost.
pub proof fn held_calls_finished_today(calls: Seq<Call>, start_ms: i64)
    ensures
        forall|i: int|
            0 <= i < finished_since(calls, start_ms).len() ==> (#[trigger] finished_since(
                calls,
                start_ms,
            )[i]).completed_ms >= start_ms,
        forall|i: int|
            0 <= i < calls.len() && calls[i].completed_ms >= start_ms ==> finished_since(
                calls,
                start_ms,
            ).contains(#[trigger] calls[i]),
{
    let late = |c: Call| c.completed_ms >= start_ms;
    broadcast use vstd::seq_lib::group_filter_ensures;
    assert forall|i: int| 0 <= i < finished_since(calls, start_ms).len() implies (#[trigger] finished_since(
        calls,
        start_ms,
    )[i]).completed_ms >= start_ms by {
        assert(late(calls.filter(late)[i]));
    }
    assert forall|i: int| 0 <= i < calls.len() && calls[i].completed_ms >= start_ms implies finished_since(
        calls,
        start_ms,
    ).contains(#[trigger] calls[i]) by {
        assert(late(calls[i]));
    }
}

/// What holds of a day's calls and keys from poll to poll: each remembered key is
/// that of a held call, and every held call finished since the day began.
pub open spec fn day_ok(ids: Set<Seq<char>>, calls: Seq<Call>, start_ms: i64) -> bool {
    &&& forall|key: Seq<char>| #[trigger]
        ids.contains(key) ==> exists|i: int| 0 <= i < calls.len() && (#[trigger] calls[i]).id@ == key
    &&& forall|i: int| 0 <= i < calls.len() ==> (#[trigger] calls[i]).completed_ms >= start_ms
}

/// Rows of calls that finished since `start_ms`.
pub open spec fn rows_since(rows: Seq<UsageRow>, start_ms: i64) -> bool {
    forall|i: int| 0 <= i < rows.len() ==> (#[trigger] rows[i]).completed_at >= start_ms
}

/// Where every call finished since `start_ms`, none is let go.
proof fn lemma_none_let_go(calls: Seq<Call>, start_ms: i64)
    requires
        forall|i: int| 0 <= i < calls.len() ==> (#[trigger] calls[i]).completed_ms >= start_ms,
    ensures
        finished_since(calls, start_ms) == calls,
    decreases calls.len(),
{
    reveal(Seq::filter);
    if calls.len() > 0 {
        let front = calls.drop_last();
        assert forall|i: int| 0 <= i < front.len() implies (#[trigger] front[i]).completed_ms >= start_ms by {
            assert(front[i] == calls[i]);
        }
        lemma_none_let_go(front, start_ms);
        assert(calls[calls.len() - 1].completed_ms >= start_ms);
        assert(front.push(calls.last()) =~= calls);
    }
}

proof fn lemma_taken_in(ids: Set<Seq<char>>, calls: Seq<Call>, rows: Seq<UsageRow>, start_ms: i64)
    requires
        day_ok(ids, calls, start_ms),
        rows_since(rows, start_ms),
    ensures
        day_ok(known(ids, rows), calls + fresh_calls(ids, rows), start_ms),
    decreases rows.len(),
{
    let now = calls + fresh_calls(ids, rows);
    if rows.len() == 0 {
        assert(now =~= calls);
    } else {
        let front = rows.drop_last();
        assert forall|i: int| 0 <= i < front.len() implies (#[trigger] front[i]).completed_at >= start_ms by {
            assert(front[i] == rows[i]);
        }
        lemma_taken_in(ids, calls, front, start_ms);
        let before = calls + fresh_calls(ids, front);
        let row = rows[rows.len() - 1];
        assert(row.completed_at >= start_ms);
        if !known(ids, front).contains(row.id@) {
            assert(now =~= before.push(call_of(row)));
            assert(now[now.len() - 1].id@ == row.id@);
        }
        assert forall|key: Seq<char>| #[trigger] known(ids, rows).contains(key) implies exists|i: int|
            0 <= i < now.len() && (#[trigger] now[i]).id@ == key by {
            if known(ids, front).contains(key) {
                let i = choose|i: int| 0 <= i < before.len() && (#[trigger] before[i]).id@ == key;
                assert(now[i].id@ == key);
            }
        }
        assert forall|i: int| 0 <= i < now.len() implies (#[trigger] now[i]).completed_ms >= start_ms by {
            if i < before.len() {
                assert(now[i] == before[i]);
            }
        }
    }
}

/// A poll of rows that finished since the day began loses no call, and leaves the
/// day as it should be.
pub proof fn poll_keeps_the_day(
    ids: Set<Seq<char>>,
    calls: Seq<Call>,
    rows: Seq<UsageRow>,
    start_ms: i64,
)
    requires
        day_ok(ids, calls, start_ms),
        rows_since(rows, start_ms),
    ensures
        finished_since(calls + fresh_calls(ids, rows), start_ms) == calls + fresh_calls(ids, rows),
        day_ok(
            known(ids, rows),
            finished_since(calls + fresh_calls(ids, rows), start_ms),
            start_ms,
        ),
{
    lemma_taken_in(ids, calls, rows, start_ms);
    lemma_none_let_go(calls + fresh_calls(ids, rows), start_ms);
}

/// A day begins as it should, with nothing held, and moving to the date it already
/// is leaves it so.
pub proof fn moving_on_keeps_the_day(ids: Set<Seq<char>>, calls: Seq<Call>, start_ms: i64)
    ensures
        day_ok(kept_keys(ids, Seq::empty()), Seq::empty(), start_ms),
        day_ok(ids, calls, start_ms) ==> day_ok(kept_keys(ids, calls), calls, start_ms),
{
}

/// Polling again on the same day, with no more than the same rows, changes nothing:
/// there is no new call, and the same calls and keys are held.
pub proof fn second_poll_changes_nothing(
    ids: Set<Seq<char>>,
    calls: Seq<Call>,
    rows: Seq<UsageRow>,
    again: Seq<UsageRow>,
    start_ms: i64,
)
    requires
        day_ok(ids, calls, start_ms),
        rows_since(rows, start_ms),
        forall|i: int| 0 <= i < again.len() ==> rows.contains(#[trigger] again[i]),
    ensures
        ({
            let held = finished_since(calls + fresh_calls(ids, rows), start_ms);
            let keys = kept_keys(known(ids, rows), held);
            &&& keys == known(ids, rows)
            &&& fresh_calls(keys, again) == Seq::<Call>::empty()
            &&& known(keys, again) == keys
            &&& finished_since(held + fresh_calls(keys, again), start_ms) == held
        }),
{
    poll_keeps_the_day(ids, calls, rows, start_ms);
    let held = finished_since(calls + fresh_calls(ids, rows), start_ms);
    let keys = kept_keys(known(ids, rows), held);
    assert(keys =~= known(ids, rows));
    rows_are_taken_in_once(ids, rows, again);
    assert(held + Seq::<Call>::empty() =~= held);
    lemma_none_let_go(held, start_ms);
}

} // verus!
