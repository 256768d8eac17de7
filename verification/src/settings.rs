//! Copying one settings file over others of its category.
//!
//! The library decides which targets are written and reports on each; the
//! caller performs the replacements on disk, in the order given, and hands
//! back how each one went.

use vstd::prelude::*;
use vstd::string::*;
use crate::discovery::{CharacterFile, FileRecord, FileType};
use crate::paths::{with_extension, with_extension_text};

verus! {

/// The report on one target of a sync.
#[derive(Debug)]
pub struct SyncResult {
    /// The file that was, or would be, overwritten.
    pub target_file: String,
    /// Whether the target now holds the source's contents, or, in a dry
    /// run, would be written.
    pub success: bool,
    /// What happened, in words for a log.
    pub message: String,
}

/// What a [`SyncResult`] stands for.
pub ghost struct SyncRecord {
    pub target_file: Seq<char>,
    pub success: bool,
    pub message: Seq<char>,
}

impl View for SyncResult {
    type V = SyncRecord;

    open spec fn view(&self) -> SyncRecord {
        SyncRecord {
            target_file: self.target_file@,
            success: self.success,
            message: self.message@,
        }
    }
}

impl DeepView for SyncResult {
    type V = SyncRecord;

    open spec fn deep_view(&self) -> SyncRecord {
        self@
    }
}

impl Clone for SyncResult {
    fn clone(&self) -> (r: Self)
        ensures
            r@ == self@,
    {
        SyncResult {
            target_file: self.target_file.clone(),
            success: self.success,
            message: self.message.clone(),
        }
    }
}

/// How the replacement of one target went.
#[derive(Debug)]
pub enum CopyOutcome {
    /// The target now holds the source's contents.
    Copied,
    /// The copy or the rename failed; the text says why.
    Failed(String),
}

/// What a [`CopyOutcome`] stands for.
pub ghost enum CopyRecord {
    Copied,
    Failed(Seq<char>),
}

impl View for CopyOutcome {
    type V = CopyRecord;

    open spec fn view(&self) -> CopyRecord {
        match self {
            CopyOutcome::Copied => CopyRecord::Copied,
            CopyOutcome::Failed(detail) => CopyRecord::Failed(detail@),
        }
    }
}

impl DeepView for CopyOutcome {
    type V = CopyRecord;

    open spec fn deep_view(&self) -> CopyRecord {
        self@
    }
}

/// Why a sync could not be reported on.
#[derive(Debug, Clone, Copy, PartialEq, Eq, Structural)]
pub enum SyncError {
    /// The outcomes handed in are not one for each target that was to be
    /// written.
    OutcomeCount,
}

/// The targets that a source of category `kind` is copied to: those of
/// its own category, in the order given.
pub open spec fn eligible(kind: FileType, targets: Seq<FileRecord>) -> Seq<FileRecord>
    decreases targets.len(),
{
    if targets.len() == 0 {
        Seq::empty()
    } else {
        let rest = eligible(kind, targets.drop_last());
        if targets.last().file_type == kind {
            rest.push(targets.last())
        } else {
            rest
        }
    }
}

/// The report on a target in a dry run.
pub open spec fn preview_row(target: FileRecord) -> SyncRecord {
    SyncRecord { target_file: target.path, success: true, message: "Would copy"@ }
}

/// The report on a target whose replacement went as `outcome` says.
pub open spec fn outcome_row(target: FileRecord, outcome: CopyRecord) -> SyncRecord {
    match outcome {
        CopyRecord::Copied => SyncRecord {
            target_file: target.path,
            success: true,
            message: "Copied successfully"@,
        },
        CopyRecord::Failed(detail) => SyncRecord {
            target_file: target.path,
            success: false,
            message: "Failed: "@ + detail,
        },
    }
}

/// The paths that a sync overwrites, in order: none in a dry run, else
/// the paths of the eligible targets.
pub open spec fn copy_targets_spec(kind: FileType, targets: Seq<FileRecord>, dry_run: bool) -> Seq<
    Seq<char>,
> {
    if dry_run {
        Seq::empty()
    } else {
        eligible(kind, targets).map_values(|t: FileRecord| t.path)
    }
}

/// The rows of a sync's report: one for each eligible target, in order.
pub open spec fn sync_rows(
    kind: FileType,
    targets: Seq<FileRecord>,
    dry_run: bool,
    outcomes: Seq<CopyRecord>,
) -> Seq<SyncRecord> {
    let chosen = eligible(kind, targets);
    if dry_run {
        chosen.map_values(|t: FileRecord| preview_row(t))
    } else {
        Seq::new(chosen.len(), |i: int| outcome_row(chosen[i], outcomes[i]))
    }
}

/// The eligible targets among the first `k` are the first of the eligible
/// targets among all.
pub proof fn lemma_eligible_prefix(kind: FileType, targets: Seq<FileRecord>, k: int)
    requires
        0 <= k <= targets.len(),
    ensures
        eligible(kind, targets.subrange(0, k)).is_prefix_of(eligible(kind, targets)),
    decreases targets.len(),
{
    if k == targets.len() {
        assert(targets.subrange(0, k) =~= targets);
    } else {
        lemma_eligible_prefix(kind, targets.drop_last(), k);
        assert(targets.drop_last().subrange(0, k) =~= targets.subrange(0, k));
    }
}

/// The paths that a sync will overwrite, in the order in which they are
/// to be written: none in a dry run, else the path of each target of the
/// source's category.
pub fn copy_targets(source: &CharacterFile, targets: &[&CharacterFile], dry_run: bool) -> (paths:
    Vec<String>)
    ensures
        paths.deep_view() == copy_targets_spec(source.file_type, targets.deep_view(), dry_run),
{
    let ghost all = targets.deep_view();
    let ghost kind = source.file_type;
    let mut paths: Vec<String> = Vec::new();
    if dry_run {
        assert(paths.deep_view() =~= Seq::<Seq<char>>::empty());
        return paths;
    }
    let mut i: usize = 0;
    assert(all.subrange(0, 0) =~= Seq::<FileRecord>::empty());
    assert(paths.deep_view() =~= copy_targets_spec(kind, all.subrange(0, 0), false));
    while i < targets.len()
        invariant
            i <= targets.len(),
            all == targets.deep_view(),
            kind == source.file_type,
            paths.deep_view() == copy_targets_spec(kind, all.subrange(0, i as int), false),
        decreases targets.len() - i,
    {
        let target = targets[i];
        let ghost seen = all.subrange(0, i + 1);
        assert(seen.drop_last() =~= all.subrange(0, i as int));
        assert(seen.last() == target@);
        if source.file_type == target.file_type {
            let ghost before = paths.deep_view();
            paths.push(target.path.clone());
            assert(paths.deep_view() =~= before.push(target@.path));
            assert(paths.deep_view() =~= copy_targets_spec(kind, seen, false));
        }
        i += 1;
    }
    assert(all.subrange(0, i as int) =~= all);
    paths
}

/// The row of the report on `target` in a dry run.
fn preview(target: &CharacterFile) -> (row: SyncResult)
    ensures
        row@ == preview_row(target@),
{
    SyncResult {
        target_file: target.path.clone(),
        success: true,
        message: String::from_str("Would copy"),
    }
}

/// The row of the report on `target`, given how its replacement went.
fn report(target: &CharacterFile, outcome: &CopyOutcome) -> (row: SyncResult)
    ensures
        row@ == outcome_row(target@, outcome@),
{
    match outcome {
        CopyOutcome::Copied => SyncResult {
            target_file: target.path.clone(),
            success: true,
            message: String::from_str("Copied successfully"),
        },
        CopyOutcome::Failed(detail) => {
            let mut message = String::from_str("Failed: ");
            message.append(detail.as_str());
            SyncResult { target_file: target.path.clone(), success: false, message }
        },
    }
}

/// Reports on a sync from `source` to `targets`.
///
/// Targets of another category than the source's are passed over and get
/// no row. In a dry run each remaining target gets the row "Would copy",
/// and `outcomes` is not read. Otherwise `outcomes` holds, for each
/// remaining target in order, how its replacement went: the row says
/// "Copied successfully", or "Failed: " and the reason, and one failure
/// does not touch the rows of the others. The rows stand in the order of
/// `targets`. Where the outcomes are not one for each remaining target,
/// no report is made.
pub fn sync_settings(
    source: &CharacterFile,
    targets: &[&CharacterFile],
    dry_run: bool,
    outcomes: &[CopyOutcome],
) -> (r: Result<Vec<SyncResult>, SyncError>)
    ensures
        r is Ok <==> dry_run || outcomes.len() == eligible(
            source.file_type,
            targets.deep_view(),
        ).len(),
        r is Ok ==> r->Ok_0.deep_view() == sync_rows(
            source.file_type,
            targets.deep_view(),
            dry_run,
            outcomes.deep_view(),
        ),
        r is Err ==> r->Err_0 == SyncError::OutcomeCount,
{
    let ghost all = targets.deep_view();
    let ghost kind = source.file_type;
    let ghost given = outcomes.deep_view();
    let mut rows: Vec<SyncResult> = Vec::new();
    let mut used: usize = 0;
    let mut i: usize = 0;
    assert(all.subrange(0, 0) =~= Seq::<FileRecord>::empty());
    assert(rows.deep_view() =~= sync_rows(kind, all.subrange(0, 0), dry_run, given));
    while i < targets.len()
        invariant
            i <= targets.len(),
            all == targets.deep_view(),
            given == outcomes.deep_view(),
            kind == source.file_type,
            used == (if dry_run {
                0
            } else {
                eligible(kind, all.subrange(0, i as int)).len()
            }),
            used <= outcomes.len(),
            rows.deep_view() == sync_rows(kind, all.subrange(0, i as int), dry_run, given),
        decreases targets.len() - i,
    {
        let target = targets[i];
        let ghost seen = all.subrange(0, i + 1);
        let ghost chosen_before = eligible(kind, all.subrange(0, i as int));
        assert(seen.drop_last() =~= all.subrange(0, i as int));
        assert(seen.last() == target@);
        if source.file_type == target.file_type {
            let ghost before = rows.deep_view();
            assert(eligible(kind, seen) == chosen_before.push(target@));
            if dry_run {
                let row = preview(target);
                rows.push(row);
                assert(rows.deep_view() =~= before.push(preview_row(target@)));
                assert(rows.deep_view() =~= sync_rows(kind, seen, dry_run, given));
            } else {
                if used >= outcomes.len() {
                    proof {
                        lemma_eligible_prefix(kind, all, i + 1);
                    }
                    return Err(SyncError::OutcomeCount);
                }
                let row = report(target, &outcomes[used]);
                assert(outcomes[used as int]@ == given[used as int]);
                rows.push(row);
                assert(rows.deep_view() =~= before.push(outcome_row(target@, given[used as int])));
                used += 1;
                assert(rows.deep_view() =~= sync_rows(kind, seen, dry_run, given));
            }
        } else {
            assert(eligible(kind, seen) == chosen_before);
        }
        i += 1;
    }
    assert(all.subrange(0, i as int) =~= all);
    if !dry_run && used != outcomes.len() {
        return Err(SyncError::OutcomeCount);
    }
    Ok(rows)
}

/// Every eligible target is of the source's category, and the eligible
/// targets are as many as the targets of that category.
pub proof fn lemma_eligible_is_own_kind(kind: FileType, targets: Seq<FileRecord>)
    ensures
        forall|i: int|
            0 <= i < eligible(kind, targets).len() ==> (#[trigger] eligible(
                kind,
                targets,
            )[i]).file_type == kind,
        eligible(kind, targets).len() <= targets.len(),
        forall|t: FileRecord|
            #![trigger eligible(kind, targets).contains(t)]
            #![trigger targets.contains(t)]
            eligible(kind, targets).contains(t) <==> targets.contains(t) && t.file_type == kind,
    decreases targets.len(),
{
    if targets.len() > 0 {
        let init = targets.drop_last();
        let last = targets.last();
        lemma_eligible_is_own_kind(kind, init);
        assert forall|t: FileRecord|
            #![trigger eligible(kind, targets).contains(t)]
            #![trigger targets.contains(t)]
            eligible(kind, targets).contains(t) <==> targets.contains(t) && t.file_type
                == kind by {
            if eligible(kind, targets).contains(t) {
                let i = choose|i: int|
                    0 <= i < eligible(kind, targets).len() && eligible(kind, targets)[i] == t;
                if i < eligible(kind, init).len() {
                    assert(eligible(kind, init)[i] == t);
                    assert(eligible(kind, init).contains(t));
                    let j = choose|j: int| 0 <= j < init.len() && init[j] == t;
                    assert(targets[j] == t);
                } else {
                    assert(t == last);
                    assert(targets[targets.len() - 1] == t);
                }
            }
            if targets.contains(t) && t.file_type == kind {
                let j = choose|j: int| 0 <= j < targets.len() && targets[j] == t;
                if j < init.len() {
                    assert(init[j] == t);
                    assert(init.contains(t));
                    let i = choose|i: int|
                        0 <= i < eligible(kind, init).len() && eligible(kind, init)[i] == t;
                    assert(eligible(kind, targets)[i] == t);
                } else {
                    assert(eligible(kind, targets)[eligible(kind, init).len() as int] == t);
                }
            }
        }
    }
}

/// A target of another category than the source's adds nothing to the
/// report, wherever it stands among the targets.
pub proof fn lemma_other_kind_is_passed_over(
    kind: FileType,
    targets: Seq<FileRecord>,
    k: int,
    dry_run: bool,
    outcomes: Seq<CopyRecord>,
)
    requires
        0 <= k < targets.len(),
        targets[k].file_type != kind,
    ensures
        eligible(kind, targets) == eligible(kind, targets.remove(k)),
        sync_rows(kind, targets, dry_run, outcomes) == sync_rows(
            kind,
            targets.remove(k),
            dry_run,
            outcomes,
        ),
        copy_targets_spec(kind, targets, dry_run) == copy_targets_spec(
            kind,
            targets.remove(k),
            dry_run,
        ),
    decreases targets.len(),
{
    if k == targets.len() - 1 {
        assert(targets.remove(k) =~= targets.drop_last());
    } else {
        let init = targets.drop_last();
        lemma_other_kind_is_passed_over(kind, init, k, dry_run, outcomes);
        assert(targets.remove(k).drop_last() =~= init.remove(k));
        assert(targets.remove(k).last() == targets.last());
    }
}

/// A dry run reports "Would copy" for each eligible target, in order,
/// whatever outcomes are handed in, and names no file to be written.
pub proof fn lemma_dry_run_previews(
    kind: FileType,
    targets: Seq<FileRecord>,
    outcomes: Seq<CopyRecord>,
)
    ensures
        copy_targets_spec(kind, targets, true).len() == 0,
        sync_rows(kind, targets, true, outcomes).len() == eligible(kind, targets).len(),
        forall|i: int|
            0 <= i < eligible(kind, targets).len() ==> #[trigger] sync_rows(
                kind,
                targets,
                true,
                outcomes,
            )[i] == (SyncRecord {
                target_file: eligible(kind, targets)[i].path,
                success: true,
                message: "Would copy"@,
            }),
{
}

/// Outside a dry run the report has one row for each eligible target, in
/// order; each row names its target, and says that the copy succeeded
/// exactly where the outcome for that target is `Copied`.
pub proof fn lemma_rows_follow_outcomes(
    kind: FileType,
    targets: Seq<FileRecord>,
    outcomes: Seq<CopyRecord>,
)
    ensures
        sync_rows(kind, targets, false, outcomes).len() == eligible(kind, targets).len(),
        copy_targets_spec(kind, targets, false).len() == eligible(kind, targets).len(),
        forall|i: int|
            0 <= i < eligible(kind, targets).len() ==> {
                let row = #[trigger] sync_rows(kind, targets, false, outcomes)[i];
                &&& row.target_file == eligible(kind, targets)[i].path
                &&& row.target_file == copy_targets_spec(kind, targets, false)[i]
                &&& row.success <==> outcomes[i] is Copied
                &&& row.success ==> row.message == "Copied successfully"@
                &&& !row.success ==> row.message == "Failed: "@ + outcomes[i]->Failed_0
            },
{
}

/// The replacement of one file by a copy of another, in two steps that
/// leave the target whole at every moment: the source is copied to
/// `temp`, a path beside the target, and `temp` is then renamed onto
/// `target`.
#[derive(Debug)]
pub struct AtomicCopy {
    /// The file to copy.
    pub source: String,
    /// Where the copy is written first.
    pub temp: String,
    /// The file that the copy replaces.
    pub target: String,
}

/// What an [`AtomicCopy`] stands for.
pub ghost struct AtomicCopyRecord {
    pub source: Seq<char>,
    pub temp: Seq<char>,
    pub target: Seq<char>,
}

impl View for AtomicCopy {
    type V = AtomicCopyRecord;

    open spec fn view(&self) -> AtomicCopyRecord {
        AtomicCopyRecord { source: self.source@, temp: self.temp@, target: self.target@ }
    }
}

/// Plans the replacement of the file at `dst` by a copy of the file at
/// `src`: the copy goes to the path of `dst` with the extension `tmp`
/// first, and is renamed onto `dst` from there.
pub fn copy_file_atomic(src: &str, dst: &str) -> (plan: AtomicCopy)
    ensures
        plan@ == (AtomicCopyRecord {
            source: src@,
            temp: with_extension_text(dst@, "tmp"@),
            target: dst@,
        }),
{
    proof {
        reveal_strlit("tmp");
    }
    AtomicCopy {
        source: String::from_str(src),
        temp: with_extension(dst, "tmp"),
        target: String::from_str(dst),
    }
}

} // verus!
