//! Bringing a snapshot back into a settings directory.
//!
//! The work on disk is the caller's. The library says what is to be done
//! next, in an order that keeps every restore undoable: the settings
//! directory is emptied only after a fresh snapshot of it has been taken.

use vstd::prelude::*;
use vstd::string::*;
use crate::discovery::{EntryRecord, ListedEntry};

verus! {

/// One change to make on disk.
#[derive(Debug)]
pub enum FsStep {
    /// Remove the directory at this path, with all that it holds.
    RemoveTree(String),
    /// Remove the file at this path.
    RemoveFile(String),
    /// Copy the directory at `from`, with all that it holds, into the
    /// destination directory under the name `name`.
    CopyTree { from: String, name: String },
    /// Copy the file at `from` into the destination directory under the
    /// name `name`.
    CopyFile { from: String, name: String },
}

/// What an [`FsStep`] stands for.
pub ghost enum StepRecord {
    RemoveTree(Seq<char>),
    RemoveFile(Seq<char>),
    CopyTree { from: Seq<char>, name: Seq<char> },
    CopyFile { from: Seq<char>, name: Seq<char> },
}

impl View for FsStep {
    type V = StepRecord;

    open spec fn view(&self) -> StepRecord {
        match self {
            FsStep::RemoveTree(path) => StepRecord::RemoveTree(path@),
            FsStep::RemoveFile(path) => StepRecord::RemoveFile(path@),
            FsStep::CopyTree { from, name } => StepRecord::CopyTree { from: from@, name: name@ },
            FsStep::CopyFile { from, name } => StepRecord::CopyFile { from: from@, name: name@ },
        }
    }
}

impl DeepView for FsStep {
    type V = StepRecord;

    open spec fn deep_view(&self) -> StepRecord {
        self@
    }
}

/// How an entry is removed: a directory with all that it holds, anything
/// else as a file.
pub open spec fn removal_of(e: EntryRecord) -> StepRecord {
    if e.is_dir {
        StepRecord::RemoveTree(e.path)
    } else {
        StepRecord::RemoveFile(e.path)
    }
}

/// How an entry is copied: a directory with all that it holds, anything
/// else as a file, under its own name.
pub open spec fn copy_of(e: EntryRecord) -> StepRecord {
    if e.is_dir {
        StepRecord::CopyTree { from: e.path, name: e.name }
    } else {
        StepRecord::CopyFile { from: e.path, name: e.name }
    }
}

/// The steps that empty a directory with the listing `entries`: one
/// removal for each entry, in the order of the listing.
pub fn removal_steps(entries: &Vec<ListedEntry>) -> (steps: Vec<FsStep>)
    ensures
        steps.deep_view() == entries.deep_view().map_values(|e: EntryRecord| removal_of(e)),
{
    let mut steps: Vec<FsStep> = Vec::new();
    let mut i: usize = 0;
    while i < entries.len()
        invariant
            i <= entries.len(),
            steps.len() == i,
            forall|j: int| 0 <= j < i ==> (#[trigger] steps[j])@ == removal_of(entries[j]@),
        decreases entries.len() - i,
    {
        let entry = &entries[i];
        let step = if entry.is_dir {
            FsStep::RemoveTree(entry.path.clone())
        } else {
            FsStep::RemoveFile(entry.path.clone())
        };
        steps.push(step);
        i += 1;
    }
    assert(steps.deep_view() =~= entries.deep_view().map_values(|e: EntryRecord| removal_of(e)));
    steps
}

/// The steps that copy what a directory with the listing `entries` holds
/// into another directory: one copy for each entry, in the order of the
/// listing. A directory among the entries is copied with all that it
/// holds, by the same rule.
pub fn copy_steps(entries: &Vec<ListedEntry>) -> (steps: Vec<FsStep>)
    ensures
        steps.deep_view() == entries.deep_view().map_values(|e: EntryRecord| copy_of(e)),
{
    let mut steps: Vec<FsStep> = Vec::new();
    let mut i: usize = 0;
    while i < entries.len()
        invariant
            i <= entries.len(),
            steps.len() == i,
            forall|j: int| 0 <= j < i ==> (#[trigger] steps[j])@ == copy_of(entries[j]@),
        decreases entries.len() - i,
    {
        let entry = &entries[i];
        let step = if entry.is_dir {
            FsStep::CopyTree { from: entry.path.clone(), name: entry.name.clone() }
        } else {
            FsStep::CopyFile { from: entry.path.clone(), name: entry.name.clone() }
        };
        steps.push(step);
        i += 1;
    }
    assert(steps.deep_view() =~= entries.deep_view().map_values(|e: EntryRecord| copy_of(e)));
    steps
}

/// How far a restore has come.
#[derive(Debug, Clone, Copy, PartialEq, Eq, Structural)]
pub enum RestorePhase {
    /// Nothing has been done yet.
    Start,
    /// A snapshot of the settings directory is being taken.
    Snapshotting,
    /// The settings directory is being listed.
    ListingSettings,
    /// The entries of the settings directory are being removed.
    Removing,
    /// The snapshot to restore is being listed.
    ListingBackup,
    /// The entries of the snapshot are being copied in.
    Copying,
    /// The restore is complete.
    Finished,
    /// The restore was given up.
    Failed,
}

/// What the caller reports back after an action.
#[derive(Debug)]
pub enum RestoreEvent {
    /// The restore is asked for.
    Begin,
    /// The last action was carried out.
    Done,
    /// The directory asked for holds these entries.
    Listed(Vec<ListedEntry>),
    /// The last action failed; the text says how.
    Failed(String),
}

/// What a [`RestoreEvent`] stands for.
pub ghost enum EventRecord {
    Begin,
    Done,
    Listed(Seq<EntryRecord>),
    Failed(Seq<char>),
}

impl View for RestoreEvent {
    type V = EventRecord;

    open spec fn view(&self) -> EventRecord {
        match self {
            RestoreEvent::Begin => EventRecord::Begin,
            RestoreEvent::Done => EventRecord::Done,
            RestoreEvent::Listed(entries) => EventRecord::Listed(entries.deep_view()),
            RestoreEvent::Failed(detail) => EventRecord::Failed(detail@),
        }
    }
}

/// What the caller is to do next.
#[derive(Debug)]
pub enum RestoreAction {
    /// Take a snapshot of the settings directory as it is.
    Snapshot,
    /// List the settings directory.
    ListSettings,
    /// Carry out these removals, in order.
    Remove(Vec<FsStep>),
    /// List the snapshot to restore.
    ListBackup,
    /// Carry out these copies into the settings directory, in order.
    CopyIn(Vec<FsStep>),
    /// Nothing more: the snapshot has been restored.
    Finish,
    /// Give up and report the failure; the text says what failed.
    Fail(String),
    /// Nothing: the event does not answer an action of this restore.
    Refuse,
}

/// What a [`RestoreAction`] stands for.
pub ghost enum ActionRecord {
    Snapshot,
    ListSettings,
    Remove(Seq<StepRecord>),
    ListBackup,
    CopyIn(Seq<StepRecord>),
    Finish,
    Fail(Seq<char>),
    Refuse,
}

impl View for RestoreAction {
    type V = ActionRecord;

    open spec fn view(&self) -> ActionRecord {
        match self {
            RestoreAction::Snapshot => ActionRecord::Snapshot,
            RestoreAction::ListSettings => ActionRecord::ListSettings,
            RestoreAction::Remove(steps) => ActionRecord::Remove(steps.deep_view()),
            RestoreAction::ListBackup => ActionRecord::ListBackup,
            RestoreAction::CopyIn(steps) => ActionRecord::CopyIn(steps.deep_view()),
            RestoreAction::Finish => ActionRecord::Finish,
            RestoreAction::Fail(detail) => ActionRecord::Fail(detail@),
            RestoreAction::Refuse => ActionRecord::Refuse,
        }
    }
}

/// Whether a restore in this phase is over.
pub open spec fn is_over(phase: RestorePhase) -> bool {
    phase == RestorePhase::Finished || phase == RestorePhase::Failed
}

/// The phase that follows `phase` on `event`, and the action to take.
///
/// A restore goes through its phases in one order: snapshot of the
/// present state, listing and removal of the present entries, listing
/// and copying of the snapshot's entries. A failure reported in any
/// phase ends it. An event that does not answer the action of the phase
/// ends it too, and is refused; once a restore is over, every event is
/// refused.
pub open spec fn restore_transition(phase: RestorePhase, event: EventRecord) -> (
    RestorePhase,
    ActionRecord,
) {
    if is_over(phase) {
        (phase, ActionRecord::Refuse)
    } else {
        match (phase, event) {
            (RestorePhase::Start, EventRecord::Begin) => (
                RestorePhase::Snapshotting,
                ActionRecord::Snapshot,
            ),
            (RestorePhase::Start, _) => (RestorePhase::Failed, ActionRecord::Refuse),
            (_, EventRecord::Failed(detail)) => (RestorePhase::Failed, ActionRecord::Fail(detail)),
            (RestorePhase::Snapshotting, EventRecord::Done) => (
                RestorePhase::ListingSettings,
                ActionRecord::ListSettings,
            ),
            (RestorePhase::ListingSettings, EventRecord::Listed(entries)) => (
                RestorePhase::Removing,
                ActionRecord::Remove(entries.map_values(|e: EntryRecord| removal_of(e))),
            ),
            (RestorePhase::Removing, EventRecord::Done) => (
                RestorePhase::ListingBackup,
                ActionRecord::ListBackup,
            ),
            (RestorePhase::ListingBackup, EventRecord::Listed(entries)) => (
                RestorePhase::Copying,
                ActionRecord::CopyIn(entries.map_values(|e: EntryRecord| copy_of(e))),
            ),
            (RestorePhase::Copying, EventRecord::Done) => (
                RestorePhase::Finished,
                ActionRecord::Finish,
            ),
            _ => (RestorePhase::Failed, ActionRecord::Refuse),
        }
    }
}

/// Advances a restore by one event.
///
/// The caller starts in [`RestorePhase::Start`] with the event
/// [`RestoreEvent::Begin`], carries out each action that comes back and
/// reports how it went, until the phase is `Finished` or `Failed`.
pub fn restore_backup(phase: RestorePhase, event: RestoreEvent) -> (next: (
    RestorePhase,
    RestoreAction,
))
    ensures
        (next.0, next.1@) == restore_transition(phase, event@),
{
    match phase {
        RestorePhase::Finished => (RestorePhase::Finished, RestoreAction::Refuse),
        RestorePhase::Failed => (RestorePhase::Failed, RestoreAction::Refuse),
        RestorePhase::Start => match event {
            RestoreEvent::Begin => (RestorePhase::Snapshotting, RestoreAction::Snapshot),
            _ => (RestorePhase::Failed, RestoreAction::Refuse),
        },
        _ => match event {
            RestoreEvent::Failed(detail) => (RestorePhase::Failed, RestoreAction::Fail(detail)),
            RestoreEvent::Begin => (RestorePhase::Failed, RestoreAction::Refuse),
            RestoreEvent::Done => match phase {
                RestorePhase::Snapshotting => (
                    RestorePhase::ListingSettings,
                    RestoreAction::ListSettings,
                ),
                RestorePhase::Removing => (RestorePhase::ListingBackup, RestoreAction::ListBackup),
                RestorePhase::Copying => (RestorePhase::Finished, RestoreAction::Finish),
                _ => (RestorePhase::Failed, RestoreAction::Refuse),
            },
            RestoreEvent::Listed(entries) => match phase {
                RestorePhase::ListingSettings => (
                    RestorePhase::Removing,
                    RestoreAction::Remove(removal_steps(&entries)),
                ),
                RestorePhase::ListingBackup => (
                    RestorePhase::Copying,
                    RestoreAction::CopyIn(copy_steps(&entries)),
                ),
                _ => (RestorePhase::Failed, RestoreAction::Refuse),
            },
        },
    }
}

/// The phase that a restore is in after the events `events`, reported in
/// this order from the start.
pub open spec fn phase_after(events: Seq<EventRecord>) -> RestorePhase
    decreases events.len(),
{
    if events.len() == 0 {
        RestorePhase::Start
    } else {
        restore_transition(phase_after(events.drop_last()), events.last()).0
    }
}

/// The action that the last of `events` is answered with.
pub open spec fn action_after(events: Seq<EventRecord>) -> ActionRecord
    recommends
        events.len() > 0,
{
    restore_transition(phase_after(events.drop_last()), events.last()).1
}

/// Whether the events begin with the request, the snapshot reported as
/// taken, and the listing of the settings directory.
pub open spec fn snapshot_was_taken(events: Seq<EventRecord>) -> bool {
    &&& events.len() >= 3
    &&& events[0] is Begin
    &&& events[1] is Done
    &&& events[2] is Listed
}

/// Each working phase is reached by one history only.
pub proof fn lemma_phase_history(events: Seq<EventRecord>)
    ensures
        phase_after(events) == RestorePhase::Start ==> events.len() == 0,
        phase_after(events) == RestorePhase::Snapshotting ==> events.len() == 1 && events[0] is Begin,
        phase_after(events) == RestorePhase::ListingSettings ==> events.len() == 2
            && events[0] is Begin && events[1] is Done,
        phase_after(events) == RestorePhase::Removing ==> events.len() == 3 && snapshot_was_taken(
            events,
        ),
        phase_after(events) == RestorePhase::ListingBackup ==> events.len() == 4
            && snapshot_was_taken(events) && events[3] is Done,
        phase_after(events) == RestorePhase::Copying ==> events.len() == 5 && snapshot_was_taken(
            events,
        ) && events[3] is Done && events[4] is Listed,
        phase_after(events) == RestorePhase::Finished ==> events.len() >= 6 && snapshot_was_taken(
            events,
        ) && events[3] is Done && events[4] is Listed && events[5] is Done,
    decreases events.len(),
{
    if events.len() > 0 {
        let init = events.drop_last();
        lemma_phase_history(init);
        assert forall|i: int| 0 <= i < init.len() implies init[i] == events[i] by {}
    }
}

/// The settings directory is emptied only after a snapshot of it has
/// been taken: the removals are the answer to the third event, the first
/// event was answered with the order to take a snapshot, and the second
/// event reported that snapshot as taken. What is removed is what the
/// listing in the third event holds.
pub proof fn lemma_removal_follows_snapshot(events: Seq<EventRecord>)
    requires
        events.len() > 0,
        action_after(events) is Remove,
    ensures
        events.len() == 3,
        action_after(events.subrange(0, 1)) is Snapshot,
        events[1] is Done,
        events[2] is Listed,
        action_after(events)->Remove_0 == events[2]->Listed_0.map_values(
            |e: EntryRecord| removal_of(e),
        ),
{
    lemma_phase_history(events.drop_last());
    let first = events.subrange(0, 1);
    assert(first.drop_last() =~= Seq::<EventRecord>::empty());
    assert(first.last() == events[0]);
    assert(events.drop_last()[0] == events[0]);
    assert(events.drop_last()[1] == events[1]);
}

/// The entries of a snapshot are copied in only after the removals have
/// been reported as carried out, and nothing is copied before the
/// settings directory has been emptied.
pub proof fn lemma_copy_follows_removal(events: Seq<EventRecord>)
    requires
        events.len() > 0,
        action_after(events) is CopyIn,
    ensures
        events.len() == 5,
        action_after(events.subrange(0, 3)) is Remove,
        events[3] is Done,
        events[4] is Listed,
        action_after(events)->CopyIn_0 == events[4]->Listed_0.map_values(
            |e: EntryRecord| copy_of(e),
        ),
{
    let init = events.drop_last();
    lemma_phase_history(init);
    assert(init[0] == events[0] && init[1] == events[1] && init[2] == events[2] && init[3]
        == events[3]);
    let none = Seq::<EventRecord>::empty();
    let one = events.subrange(0, 1);
    let two = events.subrange(0, 2);
    let three = events.subrange(0, 3);
    assert(phase_after(none) == RestorePhase::Start);
    assert(one.drop_last() =~= none && one.last() == events[0]);
    assert(phase_after(one) == RestorePhase::Snapshotting);
    assert(two.drop_last() =~= one && two.last() == events[1]);
    assert(phase_after(two) == RestorePhase::ListingSettings);
    assert(three.drop_last() =~= two && three.last() == events[2]);
}

/// A restore that reports success has gone through every phase: the
/// snapshot, the removals and the copies were each reported as done.
pub proof fn lemma_finish_is_complete(events: Seq<EventRecord>)
    requires
        events.len() > 0,
        action_after(events) is Finish,
    ensures
        events.len() == 6,
        snapshot_was_taken(events),
        events[3] is Done,
        events[4] is Listed,
        events[5] is Done,
{
    let init = events.drop_last();
    lemma_phase_history(init);
    assert(init[0] == events[0] && init[1] == events[1] && init[2] == events[2] && init[3]
        == events[3] && init[4] == events[4]);
}

/// Once a restore is over, it stays as it is, and every event is
/// refused.
pub proof fn lemma_over_stays_over(events: Seq<EventRecord>, event: EventRecord)
    requires
        is_over(phase_after(events)),
    ensures
        phase_after(events.push(event)) == phase_after(events),
        action_after(events.push(event)) is Refuse,
{
    assert(events.push(event).drop_last() =~= events);
}

} // verus!
