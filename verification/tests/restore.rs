use pack_preferences::discovery::ListedEntry;
use pack_preferences::restore::{
    copy_steps, removal_steps, restore_backup, FsStep, RestoreAction, RestoreEvent, RestorePhase,
};

fn entry(dir: &str, name: &str, is_dir: bool) -> ListedEntry {
    ListedEntry {
        path: format!("{}/{}", dir, name),
        name: String::from(name),
        is_file: !is_dir,
        is_dir,
    }
}

fn show(steps: &[FsStep]) -> Vec<String> {
    steps
        .iter()
        .map(|s| match s {
            FsStep::RemoveTree(p) => format!("rmtree {}", p),
            FsStep::RemoveFile(p) => format!("rm {}", p),
            FsStep::CopyTree { from, name } => format!("cptree {} {}", from, name),
            FsStep::CopyFile { from, name } => format!("cp {} {}", from, name),
        })
        .collect()
}

#[test]
fn removal_takes_directories_whole_and_files_singly() {
    let entries = vec![
        entry("/s", "core_char_1.dat", false),
        entry("/s", "cache", true),
        entry("/s", "prefs.ini", false),
    ];
    assert_eq!(
        show(&removal_steps(&entries)),
        vec!["rm /s/core_char_1.dat", "rmtree /s/cache", "rm /s/prefs.ini"]
    );
    assert!(removal_steps(&Vec::new()).is_empty());
}

#[test]
fn copies_keep_the_names_of_the_entries() {
    let entries = vec![
        entry("/b", "cache", true),
        entry("/b", "core_user_2.dat", false),
    ];
    assert_eq!(
        show(&copy_steps(&entries)),
        vec!["cptree /b/cache cache", "cp /b/core_user_2.dat core_user_2.dat"]
    );
    assert!(copy_steps(&Vec::new()).is_empty());
}

#[test]
fn restore_goes_through_its_phases_in_order() {
    let (phase, action) = restore_backup(RestorePhase::Start, RestoreEvent::Begin);
    assert_eq!(phase, RestorePhase::Snapshotting);
    assert!(matches!(action, RestoreAction::Snapshot));

    let (phase, action) = restore_backup(phase, RestoreEvent::Done);
    assert_eq!(phase, RestorePhase::ListingSettings);
    assert!(matches!(action, RestoreAction::ListSettings));

    let current = vec![entry("/s", "core_char_1.dat", false), entry("/s", "old", true)];
    let (phase, action) = restore_backup(phase, RestoreEvent::Listed(current));
    assert_eq!(phase, RestorePhase::Removing);
    match action {
        RestoreAction::Remove(steps) => {
            assert_eq!(show(&steps), vec!["rm /s/core_char_1.dat", "rmtree /s/old"])
        }
        other => panic!("unexpected: {:?}", other),
    }

    let (phase, action) = restore_backup(phase, RestoreEvent::Done);
    assert_eq!(phase, RestorePhase::ListingBackup);
    assert!(matches!(action, RestoreAction::ListBackup));

    let saved = vec![entry("/b", "core_char_1.dat", false)];
    let (phase, action) = restore_backup(phase, RestoreEvent::Listed(saved));
    assert_eq!(phase, RestorePhase::Copying);
    match action {
        RestoreAction::CopyIn(steps) => {
            assert_eq!(show(&steps), vec!["cp /b/core_char_1.dat core_char_1.dat"])
        }
        other => panic!("unexpected: {:?}", other),
    }

    let (phase, action) = restore_backup(phase, RestoreEvent::Done);
    assert_eq!(phase, RestorePhase::Finished);
    assert!(matches!(action, RestoreAction::Finish));

    let (phase, action) = restore_backup(phase, RestoreEvent::Done);
    assert_eq!(phase, RestorePhase::Finished);
    assert!(matches!(action, RestoreAction::Refuse));
}

#[test]
fn failed_snapshot_ends_the_restore_before_anything_is_removed() {
    let (phase, _) = restore_backup(RestorePhase::Start, RestoreEvent::Begin);
    let (phase, action) = restore_backup(phase, RestoreEvent::Failed(String::from("disk full")));
    assert_eq!(phase, RestorePhase::Failed);
    match action {
        RestoreAction::Fail(detail) => assert_eq!(detail, "disk full"),
        other => panic!("unexpected: {:?}", other),
    }
    let listing = vec![entry("/s", "core_char_1.dat", false)];
    let (phase, action) = restore_backup(phase, RestoreEvent::Listed(listing));
    assert_eq!(phase, RestorePhase::Failed);
    assert!(matches!(action, RestoreAction::Refuse));
}

#[test]
fn failure_in_any_working_phase_is_reported() {
    for phase in [
        RestorePhase::Snapshotting,
        RestorePhase::ListingSettings,
        RestorePhase::Removing,
        RestorePhase::ListingBackup,
        RestorePhase::Copying,
    ] {
        let (next, action) = restore_backup(phase, RestoreEvent::Failed(String::from("e")));
        assert_eq!(next, RestorePhase::Failed);
        assert!(matches!(action, RestoreAction::Fail(_)));
    }
}

#[test]
fn events_out_of_turn_are_refused() {
    let (phase, action) = restore_backup(RestorePhase::Start, RestoreEvent::Done);
    assert_eq!(phase, RestorePhase::Failed);
    assert!(matches!(action, RestoreAction::Refuse));

    let (phase, action) = restore_backup(RestorePhase::Start, RestoreEvent::Failed(String::new()));
    assert_eq!(phase, RestorePhase::Failed);
    assert!(matches!(action, RestoreAction::Refuse));

    let (phase, action) = restore_backup(RestorePhase::Snapshotting, RestoreEvent::Listed(vec![]));
    assert_eq!(phase, RestorePhase::Failed);
    assert!(matches!(action, RestoreAction::Refuse));

    let (phase, action) = restore_backup(RestorePhase::ListingSettings, RestoreEvent::Done);
    assert_eq!(phase, RestorePhase::Failed);
    assert!(matches!(action, RestoreAction::Refuse));

    let (phase, action) = restore_backup(RestorePhase::Removing, RestoreEvent::Begin);
    assert_eq!(phase, RestorePhase::Failed);
    assert!(matches!(action, RestoreAction::Refuse));

    let (phase, action) = restore_backup(RestorePhase::Failed, RestoreEvent::Begin);
    assert_eq!(phase, RestorePhase::Failed);
    assert!(matches!(action, RestoreAction::Refuse));
}
