//! The snapshot guard: a folder made immutable so that no workspace snapshot can
//! be put into it, and the count of rounds since.
//!
//! Changing the folder is left to the program around this library, which is told
//! step by step what to do and says how each step went.

use vstd::prelude::*;

use crate::json;
use crate::json::{Json, JsonTree};
use crate::sums;
use crate::text;

verus! {

/// How often the folder is scanned, in nanoseconds.
pub const SCAN_EVERY_NS: u64 = 5_000_000_000;

/// What is shown of the guard.
#[derive(Clone, Copy, Debug, PartialEq, Eq, Structural)]
pub struct SnapshotGuardStatus {
    /// Whether this system can make a folder immutable.
    pub supported: bool,
    /// Whether nothing can be put into the folder now.
    pub locked: bool,
    pub locked_since_ms: Option<i64>,
    /// Rounds of conversation since the folder was locked.
    pub blocked_rounds: u64,
    /// Snapshots that wait in the folder.
    pub artifact_count: u64,
    /// Their bytes.
    pub artifact_bytes: u64,
    pub workspace_count: u64,
    /// Uploads that failed.
    pub failure_count: u64,
}

/// What matters of the state file of one workspace.
#[derive(Clone, Copy, Debug, PartialEq, Eq, Structural)]
pub struct StateSummary {
    pub failure_count: u64,
}

/// What a scan of the folder found.
#[derive(Clone, Copy, Debug, PartialEq, Eq, Structural)]
pub struct ScanSummary {
    pub artifact_count: u64,
    pub artifact_bytes: u64,
    pub workspace_count: u64,
    pub failure_count: u64,
}

/// What the guard remembers from run to run.
#[derive(Clone, Copy, Debug, PartialEq, Eq, Structural)]
pub struct GuardFile {
    /// When the folder was locked, where it is.
    pub locked_since_ms: Option<i64>,
    /// The calls of the day when it was locked.
    pub calls_baseline: Option<u64>,
    pub blocked_rounds: u64,
}

impl GuardFile {
    /// A folder that is not guarded.
    pub open spec fn unguarded() -> GuardFile {
        GuardFile { locked_since_ms: None, calls_baseline: None, blocked_rounds: 0 }
    }
}

impl Default for GuardFile {
    fn default() -> (f: Self)
        ensures
            f == Self::unguarded(),
    {
        GuardFile { locked_since_ms: None, calls_baseline: None, blocked_rounds: 0 }
    }
}

impl ScanSummary {
    /// A scan that found nothing.
    pub open spec fn nothing() -> ScanSummary {
        ScanSummary { artifact_count: 0, artifact_bytes: 0, workspace_count: 0, failure_count: 0 }
    }
}

impl Default for ScanSummary {
    fn default() -> (s: Self)
        ensures
            s == Self::nothing(),
    {
        ScanSummary { artifact_count: 0, artifact_bytes: 0, workspace_count: 0, failure_count: 0 }
    }
}

/// What a state file tells: an object, whose missing count of failures is 0.
pub open spec fn summary_in(doc: JsonTree) -> Option<StateSummary> {
    if doc is Object {
        Some(
            StateSummary {
                failure_count: match doc.number_field("failureCount"@) {
                    Some(n) => n,
                    None => 0,
                },
            },
        )
    } else {
        None
    }
}

/// Reads what matters from a state file.
pub fn state_summary_of(doc: &Json) -> (r: Option<StateSummary>)
    ensures
        r == summary_in(doc.tree()),
{
    match doc {
        Json::Object(_) => {
            let failure_count: u64 = match doc.get_number("failureCount") {
                Some(n) => n,
                None => 0,
            };
            Some(StateSummary { failure_count })
        },
        _ => None,
    }
}

/// Reads what matters from the text of a state file; what is no JSON object tells
/// nothing.
pub fn parse_state_summary(text: &str) -> (r: Option<StateSummary>)
    ensures
        r == (match json::json_document(text@) {
            Some(doc) => summary_in(doc),
            None => None,
        }),
{
    match json::parse(text) {
        Some(doc) => state_summary_of(&doc),
        None => None,
    }
}

/// Snapshots, bytes and failures of the workspaces together.
pub open spec fn scan_totals(scans: Seq<(Option<StateSummary>, Vec<u64>)>) -> (int, int, int)
    decreases scans.len(),
{
    if scans.len() == 0 {
        (0, 0, 0)
    } else {
        let before = scan_totals(scans.drop_last());
        let (state, sizes) = scans.last();
        (
            before.0 + sizes@.len(),
            before.1 + sums::total(sizes@),
            before.2 + (match state {
                Some(s) => s.failure_count as int,
                None => 0,
            }),
        )
    }
}

/// The totals of a scan fit 64 bits.
pub open spec fn scans_fit(scans: Seq<(Option<StateSummary>, Vec<u64>)>) -> bool {
    let t = scan_totals(scans);
    t.0 <= u64::MAX && t.1 <= u64::MAX && t.2 <= u64::MAX
}

proof fn lemma_totals_grow(scans: Seq<(Option<StateSummary>, Vec<u64>)>, i: int)
    requires
        0 <= i <= scans.len(),
    ensures
        0 <= scan_totals(scans.take(i)).0 <= scan_totals(scans).0,
        0 <= scan_totals(scans.take(i)).1 <= scan_totals(scans).1,
        0 <= scan_totals(scans.take(i)).2 <= scan_totals(scans).2,
    decreases scans.len(),
{
    if scans.len() > 0 {
        let front = scans.drop_last();
        sums::lemma_total_bound(scans.last().1@);
        if i < scans.len() {
            lemma_totals_grow(front, i);
            assert(front.take(i) =~= scans.take(i));
        } else {
            lemma_totals_grow(front, i - 1);
            assert(scans.take(i) =~= scans);
            assert(front.take(i - 1) =~= front);
        }
    } else {
        assert(scans.take(i) =~= scans);
    }
}

/// Adds up a scan, or tells that the sums do not fit 64 bits.
pub fn try_summarize(scans: &[(Option<StateSummary>, Vec<u64>)]) -> (r: Option<ScanSummary>)
    ensures
        r is Some <==> scans_fit(scans@),
        r matches Some(s) ==> s.workspace_count == scans@.len() && (
        s.artifact_count as int,
        s.artifact_bytes as int,
        s.failure_count as int,
        ) == scan_totals(scans@),
{
    let mut count: u64 = 0;
    let mut bytes: u64 = 0;
    let mut failures: u64 = 0;
    let mut i: usize = 0;
    let end: usize = scans.len();
    assert(scans@.take(0) =~= Seq::empty());
    while i < end
        invariant
            i <= end,
            end == scans@.len(),
            (count as int, bytes as int, failures as int) == scan_totals(scans@.take(i as int)),
        decreases end - i,
    {
        proof {
            assert(scans@.take(i + 1).drop_last() =~= scans@.take(i as int));
            lemma_totals_grow(scans@, i + 1);
            sums::lemma_total_bound(scans@[i as int].1@);
        }
        let size: u128 = sums::sum(&scans[i].1);
        let failed: u64 = match scans[i].0 {
            Some(s) => s.failure_count,
            None => 0,
        };
        let more: u64 = scans[i].1.len() as u64;
        if more > u64::MAX - count || size > (u64::MAX - bytes) as u128 || failed > u64::MAX - failures {
            return None;
        }
        count = count + more;
        bytes = bytes + size as u64;
        failures = failures + failed;
        i = i + 1;
    }
    assert(scans@.take(scans@.len() as int) =~= scans@);
    Some(
        ScanSummary {
            artifact_count: count,
            artifact_bytes: bytes,
            workspace_count: end as u64,
            failure_count: failures,
        },
    )
}

/// Adds up a scan. A workspace whose state file cannot be read still counts with
/// its snapshots; only its failures are left out.
pub fn summarize_scans(scans: &[(Option<StateSummary>, Vec<u64>)]) -> (s: ScanSummary)
    requires
        scans_fit(scans@),
    ensures
        s.workspace_count == scans@.len(),
        (s.artifact_count as int, s.artifact_bytes as int, s.failure_count as int) == scan_totals(scans@),
{
    match try_summarize(scans) {
        Some(s) => s,
        None => ScanSummary::default(),
    }
}

/// The sizes of the files that are snapshots: those named `.enc` whose size is
/// known.
pub open spec fn snapshot_sizes(files: Seq<(String, Option<u64>)>) -> Seq<u64>
    decreases files.len(),
{
    if files.len() == 0 {
        Seq::empty()
    } else {
        let before = snapshot_sizes(files.drop_last());
        match files.last().1 {
            Some(size) => if text::ends(files.last().0@, ".enc"@) {
                before.push(size)
            } else {
                before
            },
            None => before,
        }
    }
}

/// What a scan makes of one workspace: of the text of its state file, where that
/// can be read, and of its waiting files with their sizes.
pub fn scan_workspace(state: Option<&str>, files: &[(String, Option<u64>)]) -> (r: (
    Option<StateSummary>,
    Vec<u64>,
))
    ensures
        r.0 == (match state {
            Some(t) => match json::json_document(t@) {
                Some(doc) => summary_in(doc),
                None => None,
            },
            None => None,
        }),
        r.1@ == snapshot_sizes(files@),
{
    let summary: Option<StateSummary> = match state {
        Some(t) => parse_state_summary(t),
        None => None,
    };
    let mut sizes: Vec<u64> = Vec::new();
    let mut i: usize = 0;
    assert(files@.take(0) =~= Seq::empty());
    while i < files.len()
        invariant
            i <= files@.len(),
            sizes@ == snapshot_sizes(files@.take(i as int)),
        decreases files.len() - i,
    {
        assert(files@.take(i + 1).drop_last() =~= files@.take(i as int));
        if let Some(size) = files[i].1 {
            if text::ends_with(files[i].0.as_str(), ".enc") {
                sizes.push(size);
            }
        }
        i = i + 1;
    }
    assert(files@.take(files@.len() as int) =~= files@);
    (summary, sizes)
}

/// A step of locking the folder, to be carried out next.
#[derive(Clone, Copy, Debug, PartialEq, Eq, Structural)]
pub enum ApplyStep {
    /// Find out whether the folder is locked.
    Probe,
    /// Unlock it, so that it can be emptied.
    Unlock,
    /// Find out whether the folder is there.
    LookUp,
    /// Remove it with all it holds.
    Clear,
    /// Create it anew.
    Create,
    /// Lock it.
    Lock,
    /// Find out whether it is locked now.
    Verify,
    /// Nothing is left to do.
    Finished,
}

/// Why the folder could not be locked or unlocked.
#[derive(Clone, Copy, Debug, PartialEq, Eq, Structural)]
pub enum GuardError {
    /// The system cannot make a folder immutable.
    Unsupported,
    /// The home folder is not known.
    NoHome,
    Unlock,
    Clear,
    Create,
    Lock,
    /// The folder was locked and can still be written to.
    NoEffect,
}

impl ApplyStep {
    /// What follows a step that was answered with yes, or succeeded.
    pub open spec fn after_yes(self) -> ApplyStep {
        match self {
            ApplyStep::Probe => ApplyStep::Unlock,
            ApplyStep::Unlock => ApplyStep::LookUp,
            ApplyStep::LookUp => ApplyStep::Clear,
            ApplyStep::Clear => ApplyStep::Create,
            ApplyStep::Create => ApplyStep::Lock,
            ApplyStep::Lock => ApplyStep::Verify,
            ApplyStep::Verify => ApplyStep::Finished,
            ApplyStep::Finished => ApplyStep::Finished,
        }
    }

    /// What follows a step that was answered with no, or failed.
    pub open spec fn after_no(self) -> Result<ApplyStep, GuardError> {
        match self {
            ApplyStep::Probe => Ok(ApplyStep::LookUp),
            ApplyStep::Unlock => Err(GuardError::Unlock),
            ApplyStep::LookUp => Ok(ApplyStep::Create),
            ApplyStep::Clear => Err(GuardError::Clear),
            ApplyStep::Create => Err(GuardError::Create),
            ApplyStep::Lock => Err(GuardError::Lock),
            ApplyStep::Verify => Err(GuardError::NoEffect),
            ApplyStep::Finished => Ok(ApplyStep::Finished),
        }
    }

    /// The step after this one, by how this one went.
    pub fn next(&self, yes: bool) -> (r: Result<ApplyStep, GuardError>)
        ensures
            r == (if yes {
                Ok(self.after_yes())
            } else {
                self.after_no()
            }),
    {
        match self {
            ApplyStep::Probe => if yes {
                Ok(ApplyStep::Unlock)
            } else {
                Ok(ApplyStep::LookUp)
            },
            ApplyStep::Unlock => if yes {
                Ok(ApplyStep::LookUp)
            } else {
                Err(GuardError::Unlock)
            },
            ApplyStep::LookUp => if yes {
                Ok(ApplyStep::Clear)
            } else {
                Ok(ApplyStep::Create)
            },
            ApplyStep::Clear => if yes {
                Ok(ApplyStep::Create)
            } else {
                Err(GuardError::Clear)
            },
            ApplyStep::Create => if yes {
                Ok(ApplyStep::Lock)
            } else {
                Err(GuardError::Create)
            },
            ApplyStep::Lock => if yes {
                Ok(ApplyStep::Verify)
            } else {
                Err(GuardError::Lock)
            },
            ApplyStep::Verify => if yes {
                Ok(ApplyStep::Finished)
            } else {
                Err(GuardError::NoEffect)
            },
            ApplyStep::Finished => Ok(ApplyStep::Finished),
        }
    }
}

/// The snapshot guard.
#[derive(Clone, Copy, Debug, PartialEq, Eq, Structural)]
pub struct SnapshotGuard {
    pub file: GuardFile,
    /// The calls of the day at the last poll, once there was one.
    pub last_calls: Option<u64>,
    pub scan: ScanSummary,
    /// When the folder was last scanned, in nanoseconds of the monotonic clock.
    pub last_scan: Option<u64>,
    /// Whether this system can make a folder immutable.
    pub supported: bool,
}

/// Whether the folder is known to be locked, and since how many calls.
pub open spec fn recorded(f: GuardFile) -> bool {
    f.locked_since_ms is Some && f.calls_baseline is Some
}

/// How many more calls there are than at the last poll; on a new day, none. The
/// first poll of a run has none to count from: the calls of the day until then were
/// counted by the run before, or were no rounds of this lock.
pub open spec fn new_rounds(last_calls: Option<u64>, calls_today: u64) -> int {
    match last_calls {
        Some(last) => if calls_today > last {
            calls_today - last
        } else {
            0
        },
        None => 0,
    }
}

fn rounds_since(last_calls: Option<u64>, calls_today: u64) -> (n: u64)
    ensures
        n == new_rounds(last_calls, calls_today),
{
    match last_calls {
        Some(last) => calls_today.saturating_sub(last),
        None => 0,
    }
}

/// What is remembered after a poll.
pub open spec fn file_after(g: SnapshotGuard, calls_today: u64, now_ms: i64, locked: bool) -> GuardFile {
    if locked && !recorded(g.file) {
        GuardFile { locked_since_ms: Some(now_ms), calls_baseline: Some(calls_today), ..g.file }
    } else if locked {
        GuardFile {
            blocked_rounds: (g.file.blocked_rounds + new_rounds(g.last_calls, calls_today)) as u64,
            ..g.file
        }
    } else if g.file.locked_since_ms is Some {
        GuardFile::unguarded()
    } else {
        g.file
    }
}

/// Whether what is remembered has to be written down after a poll.
pub open spec fn save_after(g: SnapshotGuard, calls_today: u64, locked: bool) -> bool {
    if locked {
        !recorded(g.file) || new_rounds(g.last_calls, calls_today) > 0
    } else {
        g.file.locked_since_ms is Some
    }
}

impl SnapshotGuard {
    /// The guard as it was left, on a system that can or cannot lock folders.
    pub fn new(file: GuardFile, supported: bool) -> (g: Self)
        ensures
            g.file == file,
            g.last_calls is None,
            g.scan == ScanSummary::nothing(),
            g.last_scan is None,
            g.supported == supported,
    {
        SnapshotGuard { file, last_calls: None, scan: ScanSummary::default(), last_scan: None, supported }
    }

    /// The calls of the day at the last poll; 0 before the first.
    pub fn last_calls_seen(&self) -> (n: u64)
        ensures
            n == (match self.last_calls {
                Some(last) => last,
                None => 0,
            }),
    {
        match self.last_calls {
            Some(last) => last,
            None => 0,
        }
    }

    /// What is shown while the folder is locked, or is not.
    pub open spec fn shown(self, locked: bool) -> SnapshotGuardStatus {
        SnapshotGuardStatus {
            supported: self.supported,
            locked,
            locked_since_ms: self.file.locked_since_ms,
            blocked_rounds: self.file.blocked_rounds,
            artifact_count: self.scan.artifact_count,
            artifact_bytes: self.scan.artifact_bytes,
            workspace_count: self.scan.workspace_count,
            failure_count: self.scan.failure_count,
        }
    }

    /// What is shown where there is no folder to guard.
    pub open spec fn shown_homeless(self) -> SnapshotGuardStatus {
        SnapshotGuardStatus {
            supported: self.supported,
            locked: false,
            locked_since_ms: None,
            blocked_rounds: 0,
            artifact_count: 0,
            artifact_bytes: 0,
            workspace_count: 0,
            failure_count: 0,
        }
    }

    pub fn status(&self, locked: bool) -> (s: SnapshotGuardStatus)
        ensures
            s == self.shown(locked),
    {
        SnapshotGuardStatus {
            supported: self.supported,
            locked,
            locked_since_ms: self.file.locked_since_ms,
            blocked_rounds: self.file.blocked_rounds,
            artifact_count: self.scan.artifact_count,
            artifact_bytes: self.scan.artifact_bytes,
            workspace_count: self.scan.workspace_count,
            failure_count: self.scan.failure_count,
        }
    }

    /// What is shown where the home folder is not known.
    pub fn status_without_home(&self) -> (s: SnapshotGuardStatus)
        ensures
            s == self.shown_homeless(),
    {
        SnapshotGuardStatus {
            supported: self.supported,
            locked: false,
            locked_since_ms: None,
            blocked_rounds: 0,
            artifact_count: 0,
            artifact_bytes: 0,
            workspace_count: 0,
            failure_count: 0,
        }
    }

    /// Whether the folder is to be scanned again at `now_ns`.
    pub open spec fn wants_scan(self, now_ns: u64) -> bool {
        match self.last_scan {
            Some(t) => now_ns - t > SCAN_EVERY_NS,
            None => true,
        }
    }

    pub fn scan_due(&self, now_ns: u64) -> (r: bool)
        ensures
            r == self.wants_scan(now_ns),
    {
        match self.last_scan {
            Some(t) => now_ns.saturating_sub(t) > SCAN_EVERY_NS,
            None => true,
        }
    }

    /// Whether the rounds that a poll counts still fit. Rounds are counted only
    /// where the folder is locked and was known to be.
    pub open spec fn counts(self, calls_today: u64, locked: bool) -> bool {
        locked && recorded(self.file) ==> self.file.blocked_rounds + new_rounds(self.last_calls, calls_today)
            <= u64::MAX
    }

    pub fn can_count(&self, calls_today: u64, locked: bool) -> (r: bool)
        ensures
            r == self.counts(calls_today, locked),
    {
        !locked || self.file.locked_since_ms.is_none() || self.file.calls_baseline.is_none() || rounds_since(
            self.last_calls,
            calls_today,
        ) <= u64::MAX - self.file.blocked_rounds
    }

    /// One poll: takes in whether the folder is locked, and a scan of it where one
    /// was due. Tells what to show, and whether to write down what is remembered.
    pub fn tick(
        &mut self,
        calls_today: u64,
        now_ms: i64,
        locked: bool,
        now_ns: u64,
        scan: Option<ScanSummary>,
    ) -> (r: (SnapshotGuardStatus, bool))
        requires
            old(self).counts(calls_today, locked),
        ensures
            final(self).file == file_after(*old(self), calls_today, now_ms, locked),
            final(self).last_calls == Some(calls_today),
            final(self).supported == old(self).supported,
            final(self).scan == (if old(self).wants_scan(now_ns) && scan is Some {
                scan->0
            } else {
                old(self).scan
            }),
            final(self).last_scan == (if old(self).wants_scan(now_ns) && scan is Some {
                Some(now_ns)
            } else {
                old(self).last_scan
            }),
            r.0 == final(self).shown(locked),
            r.1 == save_after(*old(self), calls_today, locked),
    {
        let mut save: bool = false;
        if locked {
            if self.file.locked_since_ms.is_none() || self.file.calls_baseline.is_none() {
                self.file.locked_since_ms = Some(now_ms);
                self.file.calls_baseline = Some(calls_today);
                save = true;
            } else {
                let delta: u64 = rounds_since(self.last_calls, calls_today);
                if delta > 0 {
                    self.file.blocked_rounds = self.file.blocked_rounds + delta;
                    save = true;
                }
            }
        } else if self.file.locked_since_ms.is_some() {
            self.file = GuardFile::default();
            save = true;
        }
        self.last_calls = Some(calls_today);
        if self.scan_due(now_ns) {
            if let Some(s) = scan {
                self.scan = s;
                self.last_scan = Some(now_ns);
            }
        }
        (self.status(locked), save)
    }

    /// Whether the folder can be locked and unlocked here at all.
    pub fn ready(&self, has_home: bool) -> (r: Result<(), GuardError>)
        ensures
            r == (if !self.supported {
                Err(GuardError::Unsupported)
            } else if !has_home {
                Err(GuardError::NoHome)
            } else {
                Ok(())
            }),
    {
        if !self.supported {
            Err(GuardError::Unsupported)
        } else if !has_home {
            Err(GuardError::NoHome)
        } else {
            Ok(())
        }
    }

    /// Remembers that the folder was emptied and locked just now, by how the steps
    /// of that ended. Where one failed, everything stays as it is.
    pub fn apply(
        &mut self,
        calls_today: u64,
        now_ms: i64,
        now_ns: u64,
        steps: Result<(), GuardError>,
    ) -> (r: Result<SnapshotGuardStatus, GuardError>)
        ensures
            !old(self).supported ==> r == Err::<SnapshotGuardStatus, GuardError>(GuardError::Unsupported),
            old(self).supported && steps is Err ==> r == Err::<SnapshotGuardStatus, GuardError>(
                steps->Err_0,
            ),
            old(self).supported && steps is Ok ==> r == Ok::<SnapshotGuardStatus, GuardError>(
                final(self).shown(true),
            ),
            r is Err ==> *final(self) == *old(self),
            r is Ok ==> *final(self) == (SnapshotGuard {
                file: GuardFile {
                    locked_since_ms: Some(now_ms),
                    calls_baseline: Some(calls_today),
                    blocked_rounds: 0,
                },
                last_calls: Some(calls_today),
                scan: ScanSummary::nothing(),
                last_scan: Some(now_ns),
                supported: old(self).supported,
            }),
    {
        if !self.supported {
            return Err(GuardError::Unsupported);
        }
        if let Err(e) = steps {
            return Err(e);
        }
        self.file =
        GuardFile { locked_since_ms: Some(now_ms), calls_baseline: Some(calls_today), blocked_rounds: 0 };
        self.last_calls = Some(calls_today);
        self.scan = ScanSummary::default();
        self.last_scan = Some(now_ns);
        Ok(self.status(true))
    }

    /// Forgets the lock, once the folder is unlocked. Where it could not be
    /// unlocked, everything stays as it is.
    pub fn release(&mut self, calls_today: u64, unlocked: bool) -> (r: Result<(), GuardError>)
        ensures
            r == (if !old(self).supported {
                Err(GuardError::Unsupported)
            } else if !unlocked {
                Err(GuardError::Unlock)
            } else {
                Ok(())
            }),
            r is Err ==> *final(self) == *old(self),
            r is Ok ==> *final(self) == (SnapshotGuard {
                file: GuardFile::unguarded(),
                last_calls: Some(calls_today),
                ..*old(self)
            }),
    {
        if !self.supported {
            return Err(GuardError::Unsupported);
        }
        if !unlocked {
            return Err(GuardError::Unlock);
        }
        self.file = GuardFile::default();
        self.last_calls = Some(calls_today);
        Ok(())
    }
}

/// What one poll makes of the guard where the folder is locked or not.
pub open spec fn polled(g: SnapshotGuard, calls_today: u64, now_ms: i64, locked: bool) -> SnapshotGuard {
    SnapshotGuard {
        file: file_after(g, calls_today, now_ms, locked),
        last_calls: Some(calls_today),
        ..g
    }
}

/// While the folder stays locked and recorded, the rounds never fall, and the
/// time of the lock does not change.
pub proof fn rounds_never_fall(g: SnapshotGuard, calls_today: u64, now_ms: i64)
    requires
        recorded(g.file),
        g.counts(calls_today, true),
    ensures
        file_after(g, calls_today, now_ms, true).blocked_rounds >= g.file.blocked_rounds,
        file_after(g, calls_today, now_ms, true).locked_since_ms == g.file.locked_since_ms,
        recorded(file_after(g, calls_today, now_ms, true)),
{
}

/// Within a day it does not matter how often the guard polls: two polls count as
/// many rounds as one.
pub proof fn rounds_add_up(g: SnapshotGuard, between: u64, calls_today: u64, t1: i64, t2: i64)
    requires
        recorded(g.file),
        g.last_calls matches Some(last) && last <= between <= calls_today,
        g.counts(calls_today, true),
    ensures
        file_after(polled(g, between, t1, true), calls_today, t2, true) == file_after(
            g,
            calls_today,
            t2,
            true,
        ),
{
}

/// On a new day the count of calls starts over, and no round is counted for that.
pub proof fn new_day_counts_nothing(g: SnapshotGuard, calls_today: u64, now_ms: i64)
    requires
        recorded(g.file),
        g.last_calls matches Some(last) && calls_today <= last,
    ensures
        file_after(g, calls_today, now_ms, true) == g.file,
        !save_after(g, calls_today, true),
{
}

/// A run that finds the folder locked as the run before left it counts no round for
/// that: however many calls the day has had, and however often the panel is started.
pub proof fn restart_counts_nothing(g: SnapshotGuard, calls_today: u64, now_ms: i64)
    requires
        recorded(g.file),
        g.last_calls is None,
    ensures
        file_after(g, calls_today, now_ms, true) == g.file,
        !save_after(g, calls_today, true),
{
}

/// Whatever was remembered, a folder that is found locked is recorded from then
/// on, and one that is found open is not.
pub proof fn record_follows_the_folder(g: SnapshotGuard, calls_today: u64, now_ms: i64, locked: bool)
    requires
        g.counts(calls_today, locked),
    ensures
        locked ==> recorded(file_after(g, calls_today, now_ms, locked)),
        !locked ==> !recorded(file_after(g, calls_today, now_ms, locked)),
{
}

/// What is remembered is written down whenever it changes.
pub proof fn every_change_is_saved(g: SnapshotGuard, calls_today: u64, now_ms: i64, locked: bool)
    requires
        g.counts(calls_today, locked),
    ensures
        file_after(g, calls_today, now_ms, locked) != g.file ==> save_after(g, calls_today, locked),
{
}

/// Locking ends well only where the folder was seen to be locked.
pub proof fn only_a_proven_lock_finishes(step: ApplyStep, yes: bool)
    requires
        step != ApplyStep::Finished,
        (if yes {
            Ok::<ApplyStep, GuardError>(step.after_yes())
        } else {
            step.after_no()
        }) == Ok::<ApplyStep, GuardError>(ApplyStep::Finished),
    ensures
        step == ApplyStep::Verify && yes,
{
}

/// The folder is emptied only after it was found, and only once it is not locked.
pub proof fn folder_is_unlocked_before_it_is_cleared(step: ApplyStep, yes: bool)
    requires
        (if yes {
            Ok::<ApplyStep, GuardError>(step.after_yes())
        } else {
            step.after_no()
        }) == Ok::<ApplyStep, GuardError>(ApplyStep::LookUp),
    ensures
        (step == ApplyStep::Probe && !yes) || (step == ApplyStep::Unlock && yes),
{
}

} // verus!
