//! What the guard remembers and what a scan finds.

use vstd::prelude::*;

use crate::json::JsonTree;
use crate::snapshot_guard;
use crate::snapshot_guard::{ApplyStep, GuardError, GuardFile, ScanSummary, SnapshotGuard, StateSummary};
use crate::sums;
use crate::text;
use crate::text_laws;

verus! {

/// The sizes of two lists add up to those of both together, and one size is its own
/// sum.
pub proof fn sizes_add_up(a: Seq<u64>, b: Seq<u64>, n: u64)
    ensures
        sums::total(Seq::empty()) == 0,
        sums::total(seq![n]) == n,
        sums::total(a + b) == sums::total(a) + sums::total(b),
    decreases b.len(),
{
    assert(seq![n].drop_last() =~= Seq::empty());
    reveal_with_fuel(sums::total, 2);
    if b.len() == 0 {
        assert(a + b =~= a);
    } else {
        assert((a + b).drop_last() =~= a + b.drop_last());
        sizes_add_up(a, b.drop_last(), n);
    }
}

/// What was found in two lists of workspaces adds up to what was found in both; in one
/// workspace it is its snapshots, their bytes and its failures.
pub proof fn workspaces_add_up(
    a: Seq<(Option<StateSummary>, Vec<u64>)>,
    b: Seq<(Option<StateSummary>, Vec<u64>)>,
    x: (Option<StateSummary>, Vec<u64>),
)
    ensures
        ({
            let (p, q, r) = (
                snapshot_guard::scan_totals(a),
                snapshot_guard::scan_totals(b),
                snapshot_guard::scan_totals(a + b),
            );
            r == (p.0 + q.0, p.1 + q.1, p.2 + q.2)
        }),
        snapshot_guard::scan_totals(seq![x]).0 == x.1@.len(),
        snapshot_guard::scan_totals(seq![x]).1 == sums::total(x.1@),
        x.0 matches Some(s) ==> snapshot_guard::scan_totals(seq![x]).2 == s.failure_count,
        x.0 is None ==> snapshot_guard::scan_totals(seq![x]).2 == 0,
    decreases b.len(),
{
    assert(seq![x].drop_last() =~= Seq::empty());
    reveal_with_fuel(snapshot_guard::scan_totals, 2);
    if b.len() == 0 {
        assert(a + b =~= a);
    } else {
        assert((a + b).drop_last() =~= a + b.drop_last());
        workspaces_add_up(a, b.drop_last(), x);
    }
}

/// A file whose name ends in `.enc` and whose size is known adds that size; any other
/// file adds nothing.
pub proof fn only_snapshots_are_counted(files: Seq<(String, Option<u64>)>, file: (String, Option<u64>), stem: Seq<char>)
    ensures
        snapshot_guard::snapshot_sizes(Seq::empty()).len() == 0,
        file.0@ == stem + ".enc"@ && file.1 is Some ==> snapshot_guard::snapshot_sizes(files.push(file))
            == snapshot_guard::snapshot_sizes(files).push(file.1->0),
        file.1 is None || !text::ends(file.0@, ".enc"@) ==> snapshot_guard::snapshot_sizes(files.push(file))
            == snapshot_guard::snapshot_sizes(files),
{
    assert(files.push(file).drop_last() =~= files);
    text_laws::ends_of_a_text_are_its_parts(file.0@, ".enc"@);
}

/// A state file is an object. It tells its failures, or none where it does not say.
pub proof fn state_file_tells_its_failures(doc: JsonTree)
    ensures
        snapshot_guard::summary_in(doc) is Some <==> doc is Object,
        snapshot_guard::summary_in(doc) matches Some(s) ==> {
            &&& doc.field("failureCount"@) matches Some(JsonTree::Number(Some(n))) ==> s.failure_count == n
            &&& doc.number_field("failureCount"@) is None ==> s.failure_count == 0
        },
{
}

/// While the folder is locked, each call since the poll before is one more round.
pub proof fn each_call_is_a_round(g: SnapshotGuard, calls_today: u64, now_ms: i64, last: u64)
    requires
        g.file.locked_since_ms is Some,
        g.file.calls_baseline is Some,
        g.last_calls == Some(last),
        last <= calls_today,
        g.file.blocked_rounds + (calls_today - last) <= u64::MAX,
    ensures
        ({
            let f = snapshot_guard::file_after(g, calls_today, now_ms, true);
            &&& f.blocked_rounds == g.file.blocked_rounds + (calls_today - last)
            &&& f.locked_since_ms == g.file.locked_since_ms && f.calls_baseline == g.file.calls_baseline
        }),
        snapshot_guard::save_after(g, calls_today, true) <==> calls_today > last,
{
}

/// A lock that is first seen is remembered with its time and the calls until then, and
/// no round of it. What is known of a lock is forgotten once the folder is found open.
pub proof fn lock_is_remembered_and_forgotten(g: SnapshotGuard, calls_today: u64, now_ms: i64)
    ensures
        g.file.locked_since_ms is None || g.file.calls_baseline is None ==> {
            let f = snapshot_guard::file_after(g, calls_today, now_ms, true);
            &&& f.locked_since_ms == Some(now_ms) && f.calls_baseline == Some(calls_today)
            &&& f.blocked_rounds == g.file.blocked_rounds
            &&& snapshot_guard::save_after(g, calls_today, true)
        },
        g.file.locked_since_ms is Some ==> {
            let f = snapshot_guard::file_after(g, calls_today, now_ms, false);
            &&& f.locked_since_ms is None && f.calls_baseline is None && f.blocked_rounds == 0
            &&& snapshot_guard::save_after(g, calls_today, false)
        },
        g.file.locked_since_ms is None ==> snapshot_guard::file_after(g, calls_today, now_ms, false) == g.file
            && !snapshot_guard::save_after(g, calls_today, false),
{
}

/// The folder is scanned at once and then every five seconds.
pub proof fn folder_is_scanned_every_five_seconds(g: SnapshotGuard, now_ns: u64)
    ensures
        g.last_scan is None ==> g.wants_scan(now_ns),
        g.last_scan matches Some(t) ==> (g.wants_scan(now_ns) <==> now_ns > t + 5_000_000_000),
{
}

/// Seven steps that succeed lock the folder, the lock comes before its proof, and none
/// of them comes twice.
pub proof fn steps_lead_to_a_proven_lock()
    ensures
        ApplyStep::Probe.after_yes().after_yes().after_yes().after_yes().after_yes().after_yes().after_yes()
            == ApplyStep::Finished,
        ApplyStep::Lock.after_yes() == ApplyStep::Verify,
        ApplyStep::Unlock.after_yes() == ApplyStep::LookUp,
        ApplyStep::Clear.after_yes() == ApplyStep::Create,
        forall|a: ApplyStep, b: ApplyStep|
            #![trigger a.after_yes(), b.after_yes()]
            a != ApplyStep::Finished && a.after_yes() != ApplyStep::Finished && a.after_yes() == b.after_yes()
                ==> a == b,
{
}

/// A question answered with no leaves out the one step that it asked for. Any other
/// failure is told as what failed.
pub proof fn no_leaves_out_one_step(step: ApplyStep)
    ensures
        step == ApplyStep::Probe || step == ApplyStep::LookUp ==> step.after_no() == Ok::<ApplyStep, GuardError>(
            step.after_yes().after_yes(),
        ),
        step == ApplyStep::Unlock ==> step.after_no() == Err::<ApplyStep, GuardError>(GuardError::Unlock),
        step == ApplyStep::Clear ==> step.after_no() == Err::<ApplyStep, GuardError>(GuardError::Clear),
        step == ApplyStep::Create ==> step.after_no() == Err::<ApplyStep, GuardError>(GuardError::Create),
        step == ApplyStep::Lock ==> step.after_no() == Err::<ApplyStep, GuardError>(GuardError::Lock),
        step == ApplyStep::Verify ==> step.after_no() == Err::<ApplyStep, GuardError>(GuardError::NoEffect),
{
}

/// What is shown is what is remembered and what the last scan found; without a folder,
/// nothing.
pub proof fn status_tells_what_is_known(g: SnapshotGuard, locked: bool)
    ensures
        ({
            let s = g.shown(locked);
            &&& s.locked == locked && s.supported == g.supported
            &&& s.locked_since_ms == g.file.locked_since_ms && s.blocked_rounds == g.file.blocked_rounds
            &&& s.artifact_count == g.scan.artifact_count && s.artifact_bytes == g.scan.artifact_bytes
            &&& s.workspace_count == g.scan.workspace_count && s.failure_count == g.scan.failure_count
        }),
        ({
            let s = g.shown_homeless();
            &&& !s.locked && s.supported == g.supported && s.locked_since_ms is None
            &&& s.blocked_rounds == 0 && s.artifact_count == 0 && s.artifact_bytes == 0
            &&& s.workspace_count == 0 && s.failure_count == 0
        }),
        GuardFile::unguarded().locked_since_ms is None,
{
}

/// Before the first scan, nothing is shown to have been found.
pub proof fn nothing_is_found_before_a_scan(g: SnapshotGuard, locked: bool)
    requires
        g.scan == ScanSummary::nothing(),
    ensures
        g.shown(locked).artifact_count == 0,
        g.shown(locked).artifact_bytes == 0,
        g.shown(locked).workspace_count == 0,
        g.shown(locked).failure_count == 0,
{
}

} // verus!
