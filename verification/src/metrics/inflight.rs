//! Whether a call is running, told from the newest messages of each session.
//!
//! A message row of the assistant appears as soon as a call begins and is marked
//! completed when it ends, also when it is cancelled or fails.

use vstd::prelude::*;

use crate::text;

verus! {

/// A message that was never completed stops counting after this long.
pub const INFLIGHT_LIMIT_MS: i64 = 600_000;

/// The newest message of its session: no other is newer, and none before it in
/// the list is as new.
pub open spec fn is_newest(rows: Seq<(String, i64, bool)>, i: int) -> bool {
    forall|j: int|
        0 <= j < rows.len() && (#[trigger] rows[j]).0@ == rows[i].0@ ==> rows[j].1 < rows[i].1 || (rows[j].1
            == rows[i].1 && j >= i)
}

/// Row `i` (session, time it was created, whether it is completed) tells of a
/// running call.
pub open spec fn is_running(rows: Seq<(String, i64, bool)>, i: int, now_ms: i64) -> bool {
    &&& 0 <= i < rows.len()
    &&& is_newest(rows, i)
    &&& !rows[i].2
    &&& now_ms - rows[i].1 <= INFLIGHT_LIMIT_MS
}

/// `r` is a running call that began last, or nothing where none runs.
pub open spec fn is_latest_running(
    rows: Seq<(String, i64, bool)>,
    now_ms: i64,
    r: Option<(Seq<char>, i64)>,
) -> bool {
    match r {
        Some((session, created)) => exists|i: int| #[trigger]
            is_running(rows, i, now_ms) && rows[i].0@ == session && rows[i].1 == created && forall|j: int| #[trigger]
                is_running(rows, j, now_ms) ==> rows[j].1 <= created,
        None => forall|j: int| !#[trigger] is_running(rows, j, now_ms),
    }
}

pub open spec fn inflight_view(r: Option<(String, i64)>) -> Option<(Seq<char>, i64)> {
    match r {
        Some((s, t)) => Some((s@, t)),
        None => None,
    }
}

fn newest_of_session(rows: &[(String, i64, bool)], i: usize) -> (r: bool)
    requires
        i < rows@.len(),
    ensures
        r == is_newest(rows@, i as int),
{
    let mut j: usize = 0;
    while j < rows.len()
        invariant
            i < rows@.len(),
            j <= rows@.len(),
            forall|k: int|
                0 <= k < j && (#[trigger] rows@[k]).0@ == rows@[i as int].0@ ==> rows@[k].1
                    < rows@[i as int].1 || (rows@[k].1 == rows@[i as int].1 && k >= i),
        decreases rows.len() - j,
    {
        if rows[j].0 == rows[i].0 && (rows[j].1 > rows[i].1 || (rows[j].1 == rows[i].1 && j < i)) {
            assert(rows@[j as int].0@ == rows@[i as int].0@);
            return false;
        }
        j = j + 1;
    }
    true
}

/// Of the given message rows, finds a running call: the session and when it
/// began. Each session is judged by its newest row alone, since an older one
/// that was never completed was left behind by a crash.
pub fn inflight_from_rows(rows: &[(String, i64, bool)], now_ms: i64) -> (r: Option<(String, i64)>)
    ensures
        is_latest_running(rows@, now_ms, inflight_view(r)),
{
    let mut best: Option<usize> = None;
    let mut i: usize = 0;
    while i < rows.len()
        invariant
            i <= rows@.len(),
            match best {
                Some(b) => is_running(rows@, b as int, now_ms) && b < i && forall|j: int|
                    j < i && #[trigger] is_running(rows@, j, now_ms) ==> rows@[j].1 <= rows@[b as int].1,
                None => forall|j: int| j < i ==> !#[trigger] is_running(rows@, j, now_ms),
            },
        decreases rows.len() - i,
    {
        let fresh: bool = now_ms as i128 - rows[i].1 as i128 <= INFLIGHT_LIMIT_MS as i128;
        if !rows[i].2 && fresh && newest_of_session(rows, i) {
            assert(is_running(rows@, i as int, now_ms));
            let better: bool = match best {
                Some(b) => rows[i].1 >= rows[b].1,
                None => true,
            };
            if better {
                best = Some(i);
            }
        }
        i = i + 1;
    }
    match best {
        Some(b) => {
            let r: Option<(String, i64)> = Some((rows[b].0.clone(), rows[b].1));
            assert(is_running(rows@, b as int, now_ms));
            r
        },
        None => None,
    }
}

/// Whether a message's text names the assistant as its author.
pub open spec fn by_assistant(message: Seq<char>) -> bool {
    text::occurs(message, "\"assistant\""@)
}

pub open spec fn marked_completed(message: Seq<char>) -> bool {
    text::occurs(message, "\"completed\""@)
}

/// The first message by the assistant, newest messages first: when it was
/// created and whether it is completed.
pub open spec fn first_assistant(messages: Seq<(i64, String)>) -> Option<(i64, bool)>
    decreases messages.len(),
{
    if messages.len() == 0 {
        None
    } else if by_assistant(messages[0].1@) {
        Some((messages[0].0, marked_completed(messages[0].1@)))
    } else {
        first_assistant(messages.drop_first())
    }
}

/// Looks at the newest messages of one session, newest first, for the one that
/// tells whether its call is running.
pub fn session_candidate(messages: &[(i64, String)]) -> (r: Option<(i64, bool)>)
    ensures
        r == first_assistant(messages@),
{
    let mut i: usize = 0;
    assert(messages@.subrange(0, messages@.len() as int) =~= messages@);
    while i < messages.len()
        invariant
            i <= messages@.len(),
            first_assistant(messages@.subrange(i as int, messages@.len() as int)) == first_assistant(messages@),
        decreases messages.len() - i,
    {
        let ghost rest = messages@.subrange(i as int, messages@.len() as int);
        assert(rest[0] == messages@[i as int]);
        if text::contains(messages[i].1.as_str(), "\"assistant\"") {
            return Some((messages[i].0, text::contains(messages[i].1.as_str(), "\"completed\"")));
        }
        assert(rest.drop_first() =~= messages@.subrange(i + 1, messages@.len() as int));
        i = i + 1;
    }
    None
}

/// A session that was active lately, with its newest messages, newest first:
/// when each was created, and how its text begins.
pub struct SessionMessages {
    pub session: String,
    pub messages: Vec<(i64, String)>,
}

/// The message of each session that tells whether its call is running.
pub open spec fn candidates_of(sessions: Seq<SessionMessages>) -> Seq<(String, i64, bool)>
    decreases sessions.len(),
{
    if sessions.len() == 0 {
        Seq::empty()
    } else {
        let before = candidates_of(sessions.drop_last());
        match first_assistant(sessions.last().messages@) {
            Some((created, done)) => before.push((sessions.last().session, created, done)),
            None => before,
        }
    }
}

pub fn candidates(sessions: &[SessionMessages]) -> (c: Vec<(String, i64, bool)>)
    ensures
        c@ == candidates_of(sessions@),
{
    let mut c: Vec<(String, i64, bool)> = Vec::new();
    let mut i: usize = 0;
    while i < sessions.len()
        invariant
            i <= sessions@.len(),
            c@ == candidates_of(sessions@.take(i as int)),
        decreases sessions.len() - i,
    {
        assert(sessions@.take(i + 1).drop_last() =~= sessions@.take(i as int));
        match session_candidate(&sessions[i].messages) {
            Some((created, done)) => {
                c.push((sessions[i].session.clone(), created, done));
            },
            None => {},
        }
        i = i + 1;
    }
    assert(sessions@.take(sessions@.len() as int) =~= sessions@);
    c
}

/// A session whose newest row is completed has no running call, whatever older
/// rows were left uncompleted.
pub proof fn completed_session_is_not_running(
    rows: Seq<(String, i64, bool)>,
    now_ms: i64,
    i: int,
    r: Option<(Seq<char>, i64)>,
)
    requires
        0 <= i < rows.len(),
        is_newest(rows, i),
        rows[i].2,
        is_latest_running(rows, now_ms, r),
    ensures
        r matches Some((session, _)) ==> session != rows[i].0@,
{
    if let Some((session, created)) = r {
        let k = choose|k: int| #[trigger]
            is_running(rows, k, now_ms) && rows[k].0@ == session && rows[k].1 == created;
        if session == rows[i].0@ {
            assert(rows[k].0@ == rows[i].0@);
            assert(k == i);
        }
    }
}

/// Rows of one session and one time agree on whether they are completed.
pub open spec fn agree(rows: Seq<(String, i64, bool)>) -> bool {
    forall|i: int, j: int|
        0 <= i < rows.len() && 0 <= j < rows.len() && (#[trigger] rows[i]).0@ == (#[trigger] rows[j]).0@
            && rows[i].1 == rows[j].1 ==> rows[i].2 == rows[j].2
}

/// Some row of `session` was created at `created` and is completed, or is not.
pub open spec fn has_row(rows: Seq<(String, i64, bool)>, session: Seq<char>, created: i64, done: bool) -> bool {
    exists|i: int|
        0 <= i < rows.len() && (#[trigger] rows[i]).0@ == session && rows[i].1 == created && rows[i].2 == done
}

/// A session is open since `created`: that is when its newest row was created,
/// which is not completed and not too old.
pub open spec fn open_since(
    rows: Seq<(String, i64, bool)>,
    session: Seq<char>,
    created: i64,
    now_ms: i64,
) -> bool {
    &&& has_row(rows, session, created, false)
    &&& forall|t: i64, done: bool| #[trigger] has_row(rows, session, t, done) ==> t <= created
    &&& now_ms - created <= INFLIGHT_LIMIT_MS
}

/// The first row of the session and the time of row `i`.
proof fn lemma_first_of_time(rows: Seq<(String, i64, bool)>, i: int) -> (k: int)
    requires
        0 <= i < rows.len(),
    ensures
        0 <= k <= i,
        rows[k].0@ == rows[i].0@,
        rows[k].1 == rows[i].1,
        forall|j: int| 0 <= j < k && (#[trigger] rows[j]).0@ == rows[i].0@ ==> rows[j].1 != rows[i].1,
    decreases i,
{
    if exists|j: int| 0 <= j < i && (#[trigger] rows[j]).0@ == rows[i].0@ && rows[j].1 == rows[i].1 {
        let j = choose|j: int| 0 <= j < i && (#[trigger] rows[j]).0@ == rows[i].0@ && rows[j].1 == rows[i].1;
        lemma_first_of_time(rows, j)
    } else {
        i
    }
}

proof fn lemma_running_is_open(rows: Seq<(String, i64, bool)>, i: int, now_ms: i64)
    requires
        is_running(rows, i, now_ms),
    ensures
        open_since(rows, rows[i].0@, rows[i].1, now_ms),
{
    let session = rows[i].0@;
    assert(has_row(rows, session, rows[i].1, false));
    assert forall|t: i64, done: bool| #[trigger] has_row(rows, session, t, done) implies t <= rows[i].1 by {
        let j = choose|j: int|
            0 <= j < rows.len() && (#[trigger] rows[j]).0@ == session && rows[j].1 == t && rows[j].2 == done;
        assert(rows[j].0@ == rows[i].0@);
    }
}

proof fn lemma_open_is_running(
    rows: Seq<(String, i64, bool)>,
    session: Seq<char>,
    created: i64,
    now_ms: i64,
) -> (k: int)
    requires
        agree(rows),
        open_since(rows, session, created, now_ms),
    ensures
        is_running(rows, k, now_ms),
        rows[k].0@ == session,
        rows[k].1 == created,
{
    let i = choose|i: int|
        0 <= i < rows.len() && (#[trigger] rows[i]).0@ == session && rows[i].1 == created && rows[i].2 == false;
    let k = lemma_first_of_time(rows, i);
    assert forall|j: int| 0 <= j < rows.len() && (#[trigger] rows[j]).0@ == rows[k].0@ implies rows[j].1
        < rows[k].1 || (rows[j].1 == rows[k].1 && j >= k) by {
        assert(has_row(rows, session, rows[j].1, rows[j].2));
    }
    k
}

/// The running call is told by the sessions alone: there is none where no session
/// is open, and else it is that of an open session than which none opened later.
pub proof fn running_call_is_the_latest_open_session(
    rows: Seq<(String, i64, bool)>,
    now_ms: i64,
    r: Option<(Seq<char>, i64)>,
)
    requires
        agree(rows),
    ensures
        is_latest_running(rows, now_ms, r) <==> (match r {
            Some((session, created)) => open_since(rows, session, created, now_ms) && forall|
                s: Seq<char>,
                t: i64,
            | #[trigger] open_since(rows, s, t, now_ms) ==> t <= created,
            None => forall|s: Seq<char>, t: i64| !#[trigger] open_since(rows, s, t, now_ms),
        }),
{
    assert forall|i: int| #[trigger] is_running(rows, i, now_ms) implies open_since(
        rows,
        rows[i].0@,
        rows[i].1,
        now_ms,
    ) by {
        lemma_running_is_open(rows, i, now_ms);
    }
    assert forall|s: Seq<char>, t: i64| #[trigger] open_since(rows, s, t, now_ms) implies exists|k: int| #[trigger]
        is_running(rows, k, now_ms) && rows[k].0@ == s && rows[k].1 == t by {
        let k = lemma_open_is_running(rows, s, t, now_ms);
        assert(is_running(rows, k, now_ms));
    }
}

proof fn lemma_same_open(
    a: Seq<(String, i64, bool)>,
    b: Seq<(String, i64, bool)>,
    session: Seq<char>,
    created: i64,
    now_ms: i64,
)
    requires
        forall|s: Seq<char>, t: i64, done: bool| #[trigger]
            has_row(a, s, t, done) <==> has_row(b, s, t, done),
        open_since(a, session, created, now_ms),
    ensures
        open_since(b, session, created, now_ms),
{
    assert(has_row(a, session, created, false));
    assert forall|t: i64, done: bool| #[trigger] has_row(b, session, t, done) implies t <= created by {
        assert(has_row(a, session, t, done));
    }
}

/// In which order the rows come, and how often, does not matter.
pub proof fn order_of_messages_does_not_matter(
    a: Seq<(String, i64, bool)>,
    b: Seq<(String, i64, bool)>,
    now_ms: i64,
    r: Option<(Seq<char>, i64)>,
)
    requires
        agree(a),
        agree(b),
        forall|s: Seq<char>, t: i64, done: bool| #[trigger]
            has_row(a, s, t, done) <==> has_row(b, s, t, done),
    ensures
        is_latest_running(a, now_ms, r) == is_latest_running(b, now_ms, r),
{
    running_call_is_the_latest_open_session(a, now_ms, r);
    running_call_is_the_latest_open_session(b, now_ms, r);
    assert forall|s: Seq<char>, t: i64| #[trigger] open_since(a, s, t, now_ms) implies open_since(
        b,
        s,
        t,
        now_ms,
    ) by {
        lemma_same_open(a, b, s, t, now_ms);
    }
    assert forall|s: Seq<char>, t: i64| #[trigger] open_since(b, s, t, now_ms) implies open_since(
        a,
        s,
        t,
        now_ms,
    ) by {
        lemma_same_open(b, a, s, t, now_ms);
    }
}

/// The place of row `i` once row `k` is gone.
spec fn shifted(i: int, k: int) -> int {
    if i < k {
        i
    } else {
        i - 1
    }
}

proof fn lemma_without_older(rows: Seq<(String, i64, bool)>, k: int, i: int, now_ms: i64)
    requires
        0 <= k < rows.len(),
        0 <= i < rows.len(),
        i != k,
        !is_newest(rows, k),
    ensures
        is_running(rows, i, now_ms) == is_running(rows.remove(k), shifted(i, k), now_ms),
{
    let rest = rows.remove(k);
    let p = shifted(i, k);
    assert(rest[p] == rows[i]);
    if is_newest(rows, i) {
        assert forall|q: int| 0 <= q < rest.len() && (#[trigger] rest[q]).0@ == rest[p].0@ implies rest[q].1
            < rest[p].1 || (rest[q].1 == rest[p].1 && q >= p) by {
            let j = if q < k {
                q
            } else {
                q + 1
            };
            assert(rest[q] == rows[j]);
        }
    }
    if is_newest(rest, p) {
        let w = choose|w: int|
            0 <= w < rows.len() && (#[trigger] rows[w]).0@ == rows[k].0@ && !(rows[w].1 < rows[k].1 || (rows[w].1
                == rows[k].1 && w >= k));
        assert(w != k);
        assert(rest[shifted(w, k)] == rows[w]);
        assert forall|j: int| 0 <= j < rows.len() && (#[trigger] rows[j]).0@ == rows[i].0@ implies rows[j].1
            < rows[i].1 || (rows[j].1 == rows[i].1 && j >= i) by {
            if j != k {
                assert(rest[shifted(j, k)] == rows[j]);
            }
        }
    }
}

/// A row that is not the newest of its session does not matter: without it the
/// same call runs.
pub proof fn older_messages_do_not_matter(
    rows: Seq<(String, i64, bool)>,
    k: int,
    now_ms: i64,
    r: Option<(Seq<char>, i64)>,
)
    requires
        0 <= k < rows.len(),
        !is_newest(rows, k),
    ensures
        is_latest_running(rows, now_ms, r) == is_latest_running(rows.remove(k), now_ms, r),
{
    let rest = rows.remove(k);
    assert forall|i: int| #[trigger] is_running(rows, i, now_ms) implies i != k && is_running(
        rest,
        shifted(i, k),
        now_ms,
    ) && rest[shifted(i, k)] == rows[i] by {
        lemma_without_older(rows, k, i, now_ms);
    }
    assert forall|p: int| #[trigger] is_running(rest, p, now_ms) implies exists|i: int| #[trigger]
        is_running(rows, i, now_ms) && rows[i] == rest[p] by {
        let i = if p < k {
            p
        } else {
            p + 1
        };
        lemma_without_older(rows, k, i, now_ms);
        assert(is_running(rows, i, now_ms));
    }
}

/// What is told of a session is what its newest message by the assistant tells,
/// whatever the other messages hold: when it was created, and whether its own text
/// says that it is completed. Messages come newest first.
pub proof fn newest_assistant_message_tells(messages: Seq<(i64, String)>, i: int)
    requires
        0 <= i < messages.len(),
        text::occurs(messages[i].1@, "\"assistant\""@),
        forall|j: int| 0 <= j < i ==> !text::occurs((#[trigger] messages[j]).1@, "\"assistant\""@),
    ensures
        first_assistant(messages) == Some(
            (messages[i].0, text::occurs(messages[i].1@, "\"completed\""@)),
        ),
    decreases i,
{
    if i > 0 {
        let rest = messages.drop_first();
        assert(!text::occurs(messages[0].1@, "\"assistant\""@));
        assert forall|j: int| 0 <= j < i - 1 implies !text::occurs(
            (#[trigger] rest[j]).1@,
            "\"assistant\""@,
        ) by {
            assert(rest[j] == messages[j + 1]);
        }
        newest_assistant_message_tells(rest, i - 1);
    }
}

/// Nothing is told of a session without a message by the assistant.
pub proof fn silent_session_tells_nothing(messages: Seq<(i64, String)>)
    requires
        forall|j: int|
            0 <= j < messages.len() ==> !text::occurs((#[trigger] messages[j]).1@, "\"assistant\""@),
    ensures
        first_assistant(messages) is None,
    decreases messages.len(),
{
    if messages.len() > 0 {
        let rest = messages.drop_first();
        assert(!text::occurs(messages[0].1@, "\"assistant\""@));
        assert forall|j: int| 0 <= j < rest.len() implies !text::occurs(
            (#[trigger] rest[j]).1@,
            "\"assistant\""@,
        ) by {
            assert(rest[j] == messages[j + 1]);
        }
        silent_session_tells_nothing(rest);
    }
}

/// Once something is told of a session, older messages do not change it.
pub proof fn older_messages_tell_nothing_new(messages: Seq<(i64, String)>, older: Seq<(i64, String)>)
    requires
        first_assistant(messages) is Some,
    ensures
        first_assistant(messages + older) == first_assistant(messages),
    decreases messages.len(),
{
    let all = messages + older;
    assert(all[0] == messages[0]);
    if !by_assistant(messages[0].1@) {
        assert(all.drop_first() =~= messages.drop_first() + older);
        older_messages_tell_nothing_new(messages.drop_first(), older);
    }
}

/// Each session is told of on its own: two lists of sessions tell what each of them
/// tells, and one session what its messages tell.
pub proof fn sessions_are_told_one_by_one(a: Seq<SessionMessages>, b: Seq<SessionMessages>, x: SessionMessages)
    ensures
        candidates_of(a + b) == candidates_of(a) + candidates_of(b),
        first_assistant(x.messages@) is None ==> candidates_of(seq![x]).len() == 0,
        first_assistant(x.messages@) matches Some((created, done)) ==> candidates_of(seq![x]) == seq![
            (x.session, created, done),
        ],
    decreases b.len(),
{
    assert(seq![x].drop_last() =~= Seq::empty());
    reveal_with_fuel(candidates_of, 2);
    if let Some((created, done)) = first_assistant(x.messages@) {
        assert(candidates_of(seq![x]) =~= seq![(x.session, created, done)]);
    }
    if b.len() == 0 {
        assert(a + b =~= a);
        assert(candidates_of(a) + candidates_of(b) =~= candidates_of(a));
    } else {
        assert((a + b).drop_last() =~= a + b.drop_last());
        sessions_are_told_one_by_one(a, b.drop_last(), x);
        assert(candidates_of(a + b) =~= candidates_of(a) + candidates_of(b));
    }
}

/// A call whose message is not completed runs for ten minutes and no longer.
pub proof fn message_counts_for_ten_minutes(session: String, created: i64, now_ms: i64)
    ensures
        ({
            let rows = seq![(session, created, false)];
            &&& now_ms - created <= 600_000 ==> is_latest_running(rows, now_ms, Some((session@, created)))
            &&& now_ms - created > 600_000 ==> is_latest_running(rows, now_ms, None)
            &&& is_latest_running(seq![(session, created, true)], now_ms, None)
        }),
{
    let rows = seq![(session, created, false)];
    if now_ms - created <= 600_000 {
        assert(is_running(rows, 0, now_ms));
    }
}

/// Of two messages of one session only the newer one counts; of two that were created
/// at the same time, the one that was told first.
pub proof fn one_message_of_a_session_counts(
    rows: Seq<(String, i64, bool)>,
    i: int,
    k: int,
    now_ms: i64,
    r: Option<(Seq<char>, i64)>,
)
    requires
        0 <= i < rows.len(),
        0 <= k < rows.len(),
        rows[i].0@ == rows[k].0@,
        rows[i].1 > rows[k].1 || (rows[i].1 == rows[k].1 && i < k),
    ensures
        is_latest_running(rows, now_ms, r) == is_latest_running(rows.remove(k), now_ms, r),
{
    older_messages_do_not_matter(rows, k, now_ms, r);
}

} // verus!
