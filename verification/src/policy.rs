//! The order of work in a sync.
//!
//! A sync that writes is preceded by a snapshot of the settings
//! directory, and is given up where the snapshot fails. A dry run asks for
//! no work on disk at all. The work is the caller's; the library says
//! what is to be done next.

use vstd::prelude::*;
use vstd::string::*;
use crate::discovery::{CharacterFile, FileRecord, FileType};
use crate::settings::{
    copy_targets, copy_targets_spec, eligible, sync_rows, sync_settings, CopyOutcome, CopyRecord,
    SyncRecord, SyncResult,
};

verus! {

/// How far a sync has come.
#[derive(Debug, Clone, Copy, PartialEq, Eq, Structural)]
pub enum SyncPhase {
    /// Nothing has been done yet.
    Start,
    /// A snapshot of the settings directory is being taken.
    Snapshotting,
    /// The targets are being overwritten.
    Copying,
    /// The sync is complete and reported on.
    Finished,
    /// The sync was given up.
    Failed,
}

/// What the caller reports back after an action.
#[derive(Debug)]
pub enum SyncEvent {
    /// The sync is asked for.
    Begin,
    /// The snapshot was taken.
    SnapshotTaken,
    /// The targets were gone through; this is how each replacement went,
    /// in the order in which the targets were handed out.
    Copied(Vec<CopyOutcome>),
    /// The last action failed as a whole; the text says how.
    Failed(String),
}

/// What a [`SyncEvent`] stands for.
pub ghost enum SyncEventRecord {
    Begin,
    SnapshotTaken,
    Copied(Seq<CopyRecord>),
    Failed(Seq<char>),
}

impl View for SyncEvent {
    type V = SyncEventRecord;

    open spec fn view(&self) -> SyncEventRecord {
        match self {
            SyncEvent::Begin => SyncEventRecord::Begin,
            SyncEvent::SnapshotTaken => SyncEventRecord::SnapshotTaken,
            SyncEvent::Copied(outcomes) => SyncEventRecord::Copied(outcomes.deep_view()),
            SyncEvent::Failed(detail) => SyncEventRecord::Failed(detail@),
        }
    }
}

/// What the caller is to do next.
#[derive(Debug)]
pub enum SyncAction {
    /// Take a snapshot of the settings directory.
    Snapshot,
    /// Replace the file at each of these paths by a copy of the source,
    /// in order, going on after a failure.
    Copy(Vec<String>),
    /// Nothing more on disk: this is the report of the sync.
    Report(Vec<SyncResult>),
    /// Give up and report the failure; the text says what failed.
    Fail(String),
    /// Nothing: the event does not answer an action of this sync.
    Refuse,
}

/// What a [`SyncAction`] stands for.
pub ghost enum SyncActionRecord {
    Snapshot,
    Copy(Seq<Seq<char>>),
    Report(Seq<SyncRecord>),
    Fail(Seq<char>),
    Refuse,
}

impl View for SyncAction {
    type V = SyncActionRecord;

    open spec fn view(&self) -> SyncActionRecord {
        match self {
            SyncAction::Snapshot => SyncActionRecord::Snapshot,
            SyncAction::Copy(paths) => SyncActionRecord::Copy(paths.deep_view()),
            SyncAction::Report(rows) => SyncActionRecord::Report(rows.deep_view()),
            SyncAction::Fail(detail) => SyncActionRecord::Fail(detail@),
            SyncAction::Refuse => SyncActionRecord::Refuse,
        }
    }
}

/// Whether a sync in this phase is over.
pub open spec fn sync_is_over(phase: SyncPhase) -> bool {
    phase == SyncPhase::Finished || phase == SyncPhase::Failed
}

/// The phase that follows `phase` on `event`, and the action to take, in
/// a sync from a source of category `kind` to `targets`.
///
/// A dry run is reported on at once. A sync that writes takes a snapshot
/// first, hands out the targets to overwrite once the snapshot is taken,
/// and reports once the outcomes are in. A failure reported in any phase
/// ends the sync. An event that does not answer the action of the phase,
/// or outcomes that are not one for each target handed out, end it too
/// and are refused; once a sync is over, every event is refused.
pub open spec fn sync_transition(
    kind: FileType,
    targets: Seq<FileRecord>,
    dry_run: bool,
    phase: SyncPhase,
    event: SyncEventRecord,
) -> (SyncPhase, SyncActionRecord) {
    if sync_is_over(phase) {
        (phase, SyncActionRecord::Refuse)
    } else {
        match (phase, event) {
            (SyncPhase::Start, SyncEventRecord::Begin) => if dry_run {
                (
                    SyncPhase::Finished,
                    SyncActionRecord::Report(sync_rows(kind, targets, true, Seq::empty())),
                )
            } else {
                (SyncPhase::Snapshotting, SyncActionRecord::Snapshot)
            },
            (SyncPhase::Start, _) => (SyncPhase::Failed, SyncActionRecord::Refuse),
            (_, SyncEventRecord::Failed(detail)) => (
                SyncPhase::Failed,
                SyncActionRecord::Fail(detail),
            ),
            (SyncPhase::Snapshotting, SyncEventRecord::SnapshotTaken) => (
                SyncPhase::Copying,
                SyncActionRecord::Copy(copy_targets_spec(kind, targets, false)),
            ),
            (SyncPhase::Copying, SyncEventRecord::Copied(outcomes)) => if outcomes.len()
                == eligible(kind, targets).len() {
                (
                    SyncPhase::Finished,
                    SyncActionRecord::Report(sync_rows(kind, targets, false, outcomes)),
                )
            } else {
                (SyncPhase::Failed, SyncActionRecord::Refuse)
            },
            _ => (SyncPhase::Failed, SyncActionRecord::Refuse),
        }
    }
}

/// Advances a sync from `source` to `targets` by one event.
///
/// The caller starts in [`SyncPhase::Start`] with the event
/// [`SyncEvent::Begin`], carries out each action that comes back and
/// reports how it went, until the phase is `Finished` or `Failed`. The
/// source, the targets and the mode stay the same through one sync.
pub fn sync_step(
    source: &CharacterFile,
    targets: &[&CharacterFile],
    dry_run: bool,
    phase: SyncPhase,
    event: SyncEvent,
) -> (next: (SyncPhase, SyncAction))
    ensures
        (next.0, next.1@) == sync_transition(
            source.file_type,
            targets.deep_view(),
            dry_run,
            phase,
            event@,
        ),
{
    match phase {
        SyncPhase::Finished => (SyncPhase::Finished, SyncAction::Refuse),
        SyncPhase::Failed => (SyncPhase::Failed, SyncAction::Refuse),
        SyncPhase::Start => match event {
            SyncEvent::Begin => if dry_run {
                let none: Vec<CopyOutcome> = Vec::new();
                assert(none.deep_view() =~= Seq::<CopyRecord>::empty());
                match sync_settings(source, targets, true, none.as_slice()) {
                    Ok(rows) => (SyncPhase::Finished, SyncAction::Report(rows)),
                    Err(_) => (SyncPhase::Failed, SyncAction::Refuse),
                }
            } else {
                (SyncPhase::Snapshotting, SyncAction::Snapshot)
            },
            _ => (SyncPhase::Failed, SyncAction::Refuse),
        },
        SyncPhase::Snapshotting => match event {
            SyncEvent::Failed(detail) => (SyncPhase::Failed, SyncAction::Fail(detail)),
            SyncEvent::SnapshotTaken => (
                SyncPhase::Copying,
                SyncAction::Copy(copy_targets(source, targets, false)),
            ),
            _ => (SyncPhase::Failed, SyncAction::Refuse),
        },
        SyncPhase::Copying => match event {
            SyncEvent::Failed(detail) => (SyncPhase::Failed, SyncAction::Fail(detail)),
            SyncEvent::Copied(outcomes) => match sync_settings(
                source,
                targets,
                false,
                outcomes.as_slice(),
            ) {
                Ok(rows) => (SyncPhase::Finished, SyncAction::Report(rows)),
                Err(_) => (SyncPhase::Failed, SyncAction::Refuse),
            },
            _ => (SyncPhase::Failed, SyncAction::Refuse),
        },
    }
}

/// The phase that a sync is in after the events `events`, reported in
/// this order from the start.
pub open spec fn sync_phase_after(
    kind: FileType,
    targets: Seq<FileRecord>,
    dry_run: bool,
    events: Seq<SyncEventRecord>,
) -> SyncPhase
    decreases events.len(),
{
    if events.len() == 0 {
        SyncPhase::Start
    } else {
        sync_transition(
            kind,
            targets,
            dry_run,
            sync_phase_after(kind, targets, dry_run, events.drop_last()),
            events.last(),
        ).0
    }
}

/// The action that the last of `events` is answered with.
pub open spec fn sync_action_after(
    kind: FileType,
    targets: Seq<FileRecord>,
    dry_run: bool,
    events: Seq<SyncEventRecord>,
) -> SyncActionRecord
    recommends
        events.len() > 0,
{
    sync_transition(
        kind,
        targets,
        dry_run,
        sync_phase_after(kind, targets, dry_run, events.drop_last()),
        events.last(),
    ).1
}

/// Whether an action asks for work on disk.
pub open spec fn touches_disk(action: SyncActionRecord) -> bool {
    action is Snapshot || action is Copy
}

/// Each working phase of a sync is reached by one history only, and a
/// dry run reaches none of them.
pub proof fn lemma_sync_phase_history(
    kind: FileType,
    targets: Seq<FileRecord>,
    dry_run: bool,
    events: Seq<SyncEventRecord>,
)
    ensures
        sync_phase_after(kind, targets, dry_run, events) == SyncPhase::Start ==> events.len() == 0,
        sync_phase_after(kind, targets, dry_run, events) == SyncPhase::Snapshotting ==> !dry_run
            && events.len() == 1 && events[0] is Begin,
        sync_phase_after(kind, targets, dry_run, events) == SyncPhase::Copying ==> !dry_run
            && events.len() == 2 && events[0] is Begin && events[1] is SnapshotTaken,
    decreases events.len(),
{
    if events.len() > 0 {
        let init = events.drop_last();
        lemma_sync_phase_history(kind, targets, dry_run, init);
        assert forall|i: int| 0 <= i < init.len() implies init[i] == events[i] by {}
    }
}

/// A dry run never asks for work on disk: whatever events are reported,
/// no answer is the order to take a snapshot or to overwrite a file.
pub proof fn lemma_dry_run_touches_nothing(
    kind: FileType,
    targets: Seq<FileRecord>,
    events: Seq<SyncEventRecord>,
)
    requires
        events.len() > 0,
    ensures
        !touches_disk(sync_action_after(kind, targets, true, events)),
{
    lemma_sync_phase_history(kind, targets, true, events.drop_last());
}

/// A dry run is reported on at once: the first answer is the report,
/// with the row "Would copy" for each eligible target, in order.
pub proof fn lemma_dry_run_reports_at_once(kind: FileType, targets: Seq<FileRecord>)
    ensures
        sync_action_after(kind, targets, true, seq![SyncEventRecord::Begin])
            == SyncActionRecord::Report(
            eligible(kind, targets).map_values(
                |t: FileRecord|
                    SyncRecord { target_file: t.path, success: true, message: "Would copy"@ },
            ),
        ),
{
    let events = seq![SyncEventRecord::Begin];
    assert(events.drop_last() =~= Seq::<SyncEventRecord>::empty());
    assert(events.last() == SyncEventRecord::Begin);
    assert(sync_rows(kind, targets, true, Seq::empty()) =~= eligible(kind, targets).map_values(
        |t: FileRecord| SyncRecord { target_file: t.path, success: true, message: "Would copy"@ },
    ));
}

/// Files are overwritten only after a snapshot has been taken: the
/// targets are handed out in answer to the second event, which reports
/// the snapshot as taken, and the first answer was the order to take it.
/// The targets handed out are the eligible ones, in order.
pub proof fn lemma_copy_follows_snapshot(
    kind: FileType,
    targets: Seq<FileRecord>,
    dry_run: bool,
    events: Seq<SyncEventRecord>,
)
    requires
        events.len() > 0,
        sync_action_after(kind, targets, dry_run, events) is Copy,
    ensures
        !dry_run,
        events.len() == 2,
        sync_action_after(kind, targets, dry_run, events.subrange(0, 1)) is Snapshot,
        events[1] is SnapshotTaken,
        sync_action_after(kind, targets, dry_run, events)->Copy_0 == eligible(
            kind,
            targets,
        ).map_values(|t: FileRecord| t.path),
{
    lemma_sync_phase_history(kind, targets, dry_run, events.drop_last());
    let one = events.subrange(0, 1);
    assert(one.drop_last() =~= Seq::<SyncEventRecord>::empty());
    assert(one.last() == events[0]);
    assert(events.drop_last()[0] == events[0]);
}

/// Where the snapshot fails, the sync is given up: nothing is handed out
/// to be overwritten, then or later.
pub proof fn lemma_failed_snapshot_ends_the_sync(
    kind: FileType,
    targets: Seq<FileRecord>,
    detail: Seq<char>,
    later: Seq<SyncEventRecord>,
)
    ensures
        sync_phase_after(
            kind,
            targets,
            false,
            seq![SyncEventRecord::Begin, SyncEventRecord::Failed(detail)] + later,
        ) == SyncPhase::Failed,
        later.len() > 0 ==> sync_action_after(
            kind,
            targets,
            false,
            seq![SyncEventRecord::Begin, SyncEventRecord::Failed(detail)] + later,
        ) is Refuse,
    decreases later.len(),
{
    let head = seq![SyncEventRecord::Begin, SyncEventRecord::Failed(detail)];
    if later.len() == 0 {
        assert(head + later =~= head);
        assert(head.drop_last() =~= seq![SyncEventRecord::Begin]);
        assert(head.drop_last().drop_last() =~= Seq::<SyncEventRecord>::empty());
        assert(sync_phase_after(kind, targets, false, head.drop_last().drop_last())
            == SyncPhase::Start);
        assert(sync_phase_after(kind, targets, false, head.drop_last())
            == SyncPhase::Snapshotting);
    } else {
        lemma_failed_snapshot_ends_the_sync(kind, targets, detail, later.drop_last());
        assert((head + later).drop_last() =~= head + later.drop_last());
    }
}

} // verus!
