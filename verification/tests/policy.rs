use pack_preferences::discovery::{CharacterFile, FileType};
use pack_preferences::policy::{sync_step, SyncAction, SyncEvent, SyncPhase};
use pack_preferences::settings::CopyOutcome;

fn file(kind: FileType, id: u64) -> CharacterFile {
    let stem = match kind {
        FileType::Character => "char",
        FileType::User => "user",
    };
    CharacterFile {
        path: format!("/s/core_{}_{}.dat", stem, id),
        character_id: id,
        file_type: kind,
        is_default: false,
    }
}

#[test]
fn dry_run_is_reported_at_once_and_asks_for_no_work() {
    let source = file(FileType::Character, 1);
    let (a, b) = (file(FileType::Character, 2), file(FileType::User, 2));
    let targets = [&a, &b];
    let (phase, action) = sync_step(&source, &targets, true, SyncPhase::Start, SyncEvent::Begin);
    assert_eq!(phase, SyncPhase::Finished);
    match action {
        SyncAction::Report(rows) => {
            assert_eq!(rows.len(), 1);
            assert_eq!(rows[0].target_file, "/s/core_char_2.dat");
            assert!(rows[0].success);
            assert_eq!(rows[0].message, "Would copy");
        }
        other => panic!("unexpected: {:?}", other),
    }
    let (phase, action) = sync_step(&source, &targets, true, phase, SyncEvent::SnapshotTaken);
    assert_eq!(phase, SyncPhase::Finished);
    assert!(matches!(action, SyncAction::Refuse));
}

#[test]
fn writing_sync_takes_a_snapshot_first() {
    let source = file(FileType::Character, 1);
    let (a, b, c) = (
        file(FileType::Character, 2),
        file(FileType::User, 2),
        file(FileType::Character, 3),
    );
    let targets = [&a, &b, &c];
    let (phase, action) = sync_step(&source, &targets, false, SyncPhase::Start, SyncEvent::Begin);
    assert_eq!(phase, SyncPhase::Snapshotting);
    assert!(matches!(action, SyncAction::Snapshot));

    let (phase, action) = sync_step(&source, &targets, false, phase, SyncEvent::SnapshotTaken);
    assert_eq!(phase, SyncPhase::Copying);
    match action {
        SyncAction::Copy(paths) => {
            assert_eq!(paths, vec!["/s/core_char_2.dat", "/s/core_char_3.dat"])
        }
        other => panic!("unexpected: {:?}", other),
    }

    let outcomes = vec![CopyOutcome::Failed(String::from("denied")), CopyOutcome::Copied];
    let (phase, action) = sync_step(&source, &targets, false, phase, SyncEvent::Copied(outcomes));
    assert_eq!(phase, SyncPhase::Finished);
    match action {
        SyncAction::Report(rows) => {
            assert_eq!(rows.len(), 2);
            assert!(!rows[0].success);
            assert_eq!(rows[0].message, "Failed: denied");
            assert_eq!(rows[0].target_file, "/s/core_char_2.dat");
            assert!(rows[1].success);
            assert_eq!(rows[1].message, "Copied successfully");
            assert_eq!(rows[1].target_file, "/s/core_char_3.dat");
        }
        other => panic!("unexpected: {:?}", other),
    }
}

#[test]
fn failed_snapshot_gives_the_sync_up() {
    let source = file(FileType::Character, 1);
    let a = file(FileType::Character, 2);
    let targets = [&a];
    let (phase, _) = sync_step(&source, &targets, false, SyncPhase::Start, SyncEvent::Begin);
    let (phase, action) = sync_step(
        &source,
        &targets,
        false,
        phase,
        SyncEvent::Failed(String::from("no space")),
    );
    assert_eq!(phase, SyncPhase::Failed);
    match action {
        SyncAction::Fail(detail) => assert_eq!(detail, "no space"),
        other => panic!("unexpected: {:?}", other),
    }
    let (phase, action) = sync_step(&source, &targets, false, phase, SyncEvent::SnapshotTaken);
    assert_eq!(phase, SyncPhase::Failed);
    assert!(matches!(action, SyncAction::Refuse));
}

#[test]
fn outcomes_of_the_wrong_number_are_refused() {
    let source = file(FileType::Character, 1);
    let a = file(FileType::Character, 2);
    let targets = [&a];
    let (phase, action) = sync_step(
        &source,
        &targets,
        false,
        SyncPhase::Copying,
        SyncEvent::Copied(vec![]),
    );
    assert_eq!(phase, SyncPhase::Failed);
    assert!(matches!(action, SyncAction::Refuse));
}

#[test]
fn sync_events_out_of_turn_are_refused() {
    let source = file(FileType::Character, 1);
    let a = file(FileType::Character, 2);
    let targets = [&a];
    let (phase, action) = sync_step(
        &source,
        &targets,
        false,
        SyncPhase::Start,
        SyncEvent::SnapshotTaken,
    );
    assert_eq!(phase, SyncPhase::Failed);
    assert!(matches!(action, SyncAction::Refuse));
    let (phase, action) = sync_step(
        &source,
        &targets,
        false,
        SyncPhase::Snapshotting,
        SyncEvent::Copied(vec![CopyOutcome::Copied]),
    );
    assert_eq!(phase, SyncPhase::Failed);
    assert!(matches!(action, SyncAction::Refuse));
    let (phase, action) = sync_step(&source, &targets, false, SyncPhase::Copying, SyncEvent::Begin);
    assert_eq!(phase, SyncPhase::Failed);
    assert!(matches!(action, SyncAction::Refuse));
}
